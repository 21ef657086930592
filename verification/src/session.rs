//! The per-connection session state machine.
//!
//! One `SessionHandler` owns each connection. The transport loop around the
//! library reads frames, classifies each into a [`SessionEvent`], and hands
//! it here; this module drives every store and registry mutation, decides
//! which connections to notify, and tells the loop whether to keep the
//! connection open. A session runs `Unjoined → InLobby → InGame`, with
//! `Closed` terminal; requests out of lifecycle order are refused as
//! `Unauthorized` without terminating the session, and a failed join
//! terminates the session, as the broker's policy demands.

use vstd::prelude::*;

use crate::codes::CODE_SPACE;
use crate::messages::{GameLobbyRequest, GameLobbyResponse, Outbound, RoomError, UserMode};
use crate::registry::ConnectionRegistry;
use crate::store::{
    connected_ids, has_code, id_in_store, index_of_code, is_host_departure, join_allowed,
    member_index, other_connected_ids, room_index_of_id, room_of, spec_joined,
    spec_member_disconnected, spec_new_room, spec_started, Member, MemberView, RoomStore,
    RoomView,
};

verus! {

/// The connection-lifecycle states.
#[derive(Clone, Copy, Debug, PartialEq, Eq, Structural)]
pub enum SessionState {
    Unjoined,
    InLobby,
    InGame,
    Closed,
}

/// One inbound event for a session: a parsed request, a frame that did not
/// parse, or the transport closing.
#[derive(Debug)]
pub enum SessionEvent {
    Inbound(GameLobbyRequest),
    Malformed,
    TransportClosed,
}

/// What the transport loop must do after one event was handled.
#[derive(Clone, Copy, Debug, PartialEq, Eq, Structural)]
pub enum SessionDisposition {
    /// Keep the session open and read the next frame.
    Continue,
    /// Close this connection.
    CloseSelf,
}

/// The result of handling one event: whether to keep reading, which other
/// connections' transports the caller must force-close (the host-left
/// cascade), what went wrong (for logging), and which members a broadcast
/// addressed.
pub struct HandleOutcome {
    pub disposition: SessionDisposition,
    pub force_close: Vec<u64>,
    pub error: Option<RoomError>,
    pub notified: Vec<u64>,
}

/// One connection's session.
pub struct SessionHandler {
    pub connection_id: u64,
    pub room_code: Option<String>,
    pub state: SessionState,
}

/// The ghost image of a session.
pub struct SessionView {
    pub connection_id: u64,
    pub room_code: Option<Seq<char>>,
    pub state: SessionState,
}

impl View for SessionHandler {
    type V = SessionView;

    open spec fn view(&self) -> SessionView {
        SessionView {
            connection_id: self.connection_id,
            room_code: match self.room_code {
                Some(c) => Some(c@),
                None => None,
            },
            state: self.state,
        }
    }
}

/// The member a request stands up: connected, carrying the requester's
/// connection id and a handle to its registered channel if it has one.
pub open spec fn spec_joiner(
    id: u64,
    name: Seq<char>,
    role: UserMode,
    has_outbound: bool,
) -> MemberView {
    MemberView { connection_id: id, name: name, role: role, connected: true, has_outbound }
}

/// Whether `id` is the designated host of the room named `code`.
pub open spec fn is_room_host(rooms: Seq<RoomView>, code: Seq<char>, id: u64) -> bool {
    has_code(rooms, code) && room_of(rooms, code).members[0].connection_id == id
}

impl SessionHandler {
    /// A fresh session for a newly accepted connection.
    pub fn new(connection_id: u64) -> (s: Self)
        ensures
            s@.connection_id == connection_id,
            s@.room_code is None,
            s@.state is Unjoined,
    {
        SessionHandler { connection_id, room_code: None, state: SessionState::Unjoined }
    }

    /// Handles one inbound event, driving the store and the registry.
    ///
    /// - A malformed frame is reported and ignored: nothing changes and the
    ///   session stays open.
    /// - `HostNewGame` from an unjoined session creates a room with the
    ///   requester as its host, acknowledges the code to the requester
    ///   alone, and broadcasts the membership.
    /// - `UserLogin` from an unjoined session joins the named room and
    ///   broadcasts the membership; a refused join reports the error to the
    ///   requester and terminates the session.
    /// - `HostStartGame` is honored only for the room's designated host:
    ///   the started flag is set and the start is broadcast; anyone else is
    ///   refused as `Unauthorized` without mutation.
    /// - `PlayerHand` resolves one round against a server-drawn hand and
    ///   unicasts the result to the acting player alone.
    /// - The transport closing removes the connection from its room; when
    ///   the departing member is the designated host the room is deleted
    ///   and every other still-connected member is notified, scheduled for
    ///   force-close, and unregistered.
    #[verifier::loop_isolation(false)]
    pub fn handle_event(
        &mut self,
        store: &mut RoomStore,
        registry: &mut ConnectionRegistry,
        ev: SessionEvent,
    ) -> (o: HandleOutcome)
        requires
            old(store).wf(),
            old(registry).wf(),
            ev matches SessionEvent::Inbound(GameLobbyRequest::HostNewGame { .. })
                ==> old(store)@.len() < CODE_SPACE,
            old(self)@.state is Unjoined ==> !id_in_store(
                old(store)@,
                old(self)@.connection_id,
            ),
        ensures
            final(store).wf(),
            final(registry).wf(),
            final(self)@.connection_id == old(self)@.connection_id,
            // a malformed frame is logged and ignored
            ev is Malformed ==> (final(self)@ == old(self)@ && final(store)@ == old(store)@
                && final(registry)@ == old(registry)@ && o.disposition is Continue && o.error
                == Some(RoomError::MalformedMessage) && o.force_close@ == Seq::<u64>::empty()),
            // a host creates a fresh room and stands first in it
            ev matches SessionEvent::Inbound(GameLobbyRequest::HostNewGame { user_name, .. })
                ==> (old(self)@.state is Unjoined ==> (final(self)@.state is InLobby && final(registry)@ == old(registry)@ && (final(self)@.room_code matches Some(code)
                && crate::codes::is_valid_code(code) && !has_code(old(store)@, code) && final(store)@ == old(store)@.push(
                spec_new_room(
                    code,
                    spec_joiner(
                        old(self)@.connection_id,
                        user_name@,
                        UserMode::GameHost,
                        old(registry)@.contains(old(self)@.connection_id),
                    ),
                ),
            ) && o.notified@ == seq![old(self)@.connection_id]) && o.disposition is Continue
                && o.error is None && o.force_close@ == Seq::<u64>::empty())),
            // a player joins an existing, not-yet-started room
            ev matches SessionEvent::Inbound(GameLobbyRequest::UserLogin { user_name, user_type, room_code })
                ==> (old(self)@.state is Unjoined ==> ((join_allowed(old(store)@, room_code@)
                ==> (final(store)@ == old(store)@.update(
                index_of_code(old(store)@, room_code@),
                spec_joined(
                    room_of(old(store)@, room_code@),
                    spec_joiner(
                        old(self)@.connection_id,
                        user_name@,
                        user_type,
                        old(registry)@.contains(old(self)@.connection_id),
                    ),
                ),
            ) && final(self)@.state is InLobby && final(self)@.room_code == Some(room_code@)
                && o.disposition is Continue && o.error is None && o.notified@ == connected_ids(
                spec_joined(
                    room_of(old(store)@, room_code@),
                    spec_joiner(
                        old(self)@.connection_id,
                        user_name@,
                        user_type,
                        old(registry)@.contains(old(self)@.connection_id),
                    ),
                ).members,
            ))) && (!join_allowed(old(store)@, room_code@) ==> (final(store)@ == old(store)@
                && final(self)@.state is Closed && o.disposition is CloseSelf && (o.error
                matches Some(e) && (e is RoomNotFound <==> !has_code(old(store)@, room_code@))
                && (e is GameAlreadyStarted <==> (has_code(old(store)@, room_code@) && room_of(
                old(store)@,
                room_code@,
            ).started))))) && final(registry)@ == old(registry)@ && o.force_close@ == Seq::<
                u64,
            >::empty())),
            // creating or joining from a session already in a room (or
            // closed) is refused without mutation
            ((ev matches SessionEvent::Inbound(GameLobbyRequest::HostNewGame { .. }) || ev matches
            SessionEvent::Inbound(GameLobbyRequest::UserLogin { .. })) && !(old(self)@.state
                is Unjoined)) ==> (final(self)@ == old(self)@ && final(store)@ == old(store)@
                && final(registry)@ == old(registry)@ && o.disposition is Continue && o.error
                == Some(RoomError::Unauthorized) && o.force_close@ == Seq::<u64>::empty()),
            // only the designated host may start the game
            ev matches SessionEvent::Inbound(GameLobbyRequest::HostStartGame { room_code }) ==> (
            final(registry)@ == old(registry)@ && o.force_close@ == Seq::<u64>::empty()
                && (is_room_host(old(store)@, room_code@, old(self)@.connection_id) ==> (final(store)@ == old(store)@.update(
                index_of_code(old(store)@, room_code@),
                spec_started(room_of(old(store)@, room_code@)),
            ) && final(self)@.state is InGame && o.disposition is Continue && o.error is None
                && o.notified@ == connected_ids(room_of(old(store)@, room_code@).members))) && (
            !is_room_host(old(store)@, room_code@, old(self)@.connection_id) ==> (final(store)@
                == old(store)@ && final(self)@ == old(self)@ && o.disposition is Continue
                && o.error == Some(RoomError::Unauthorized)))),
            // one round against the server, unicast to the acting player
            ev matches SessionEvent::Inbound(GameLobbyRequest::PlayerHand { room_code, .. }) ==> (
            final(store)@ == old(store)@ && final(registry)@ == old(registry)@ && final(self)@.room_code == old(self)@.room_code && o.force_close@ == Seq::<u64>::empty()
                && o.disposition is Continue && ((has_code(old(store)@, room_code@)
                && crate::store::room_has_member(
                room_of(old(store)@, room_code@),
                old(self)@.connection_id,
            )) ==> (o.error is None && final(self)@.state is InGame)) && (!has_code(
                old(store)@,
                room_code@,
            ) ==> (o.error == Some(RoomError::RoomNotFound) && final(self)@ == old(self)@)) && ((
            has_code(old(store)@, room_code@) && !crate::store::room_has_member(
                room_of(old(store)@, room_code@),
                old(self)@.connection_id,
            )) ==> (o.error == Some(RoomError::MemberNotFound) && final(self)@ == old(self)@))),
            // the transport closed: clean up the room and the registry
            ev is TransportClosed ==> (final(self)@.state is Closed && o.disposition
                is CloseSelf && o.error is None && (forall|x: u64|
                final(registry)@.contains(x) <==> (old(registry)@.contains(x) && x != old(
                    self,
                )@.connection_id && !o.force_close@.contains(x))) && (!id_in_store(
                old(store)@,
                old(self)@.connection_id,
            ) ==> (final(store)@ == old(store)@ && o.force_close@ == Seq::<u64>::empty())) && ((
            id_in_store(old(store)@, old(self)@.connection_id) && is_host_departure(
                old(store)@,
                old(self)@.connection_id,
            )) ==> (final(store)@ == old(store)@.remove(
                room_index_of_id(old(store)@, old(self)@.connection_id),
            ) && o.force_close@ == other_connected_ids(
                old(store)@[room_index_of_id(old(store)@, old(self)@.connection_id)].members,
                old(self)@.connection_id,
            ))) && ((id_in_store(old(store)@, old(self)@.connection_id) && !is_host_departure(
                old(store)@,
                old(self)@.connection_id,
            )) ==> (final(store)@ == old(store)@.update(
                room_index_of_id(old(store)@, old(self)@.connection_id),
                spec_member_disconnected(
                    old(store)@[room_index_of_id(old(store)@, old(self)@.connection_id)],
                    member_index(
                        old(store)@[room_index_of_id(old(store)@, old(self)@.connection_id)],
                        old(self)@.connection_id,
                    ),
                ),
            ) && o.force_close@ == Seq::<u64>::empty()))),
    {
        let my_id = self.connection_id;
        match ev {
            SessionEvent::Malformed => HandleOutcome {
                disposition: SessionDisposition::Continue,
                force_close: Vec::new(),
                error: Some(RoomError::MalformedMessage),
                notified: Vec::new(),
            },
            SessionEvent::TransportClosed => {
                let plan = store.remove_connection(my_id);
                let n = plan.to_disconnect.len();
                let mut j: usize = 0;
                while j < n
                    invariant
                        j <= n,
                        n == plan.to_disconnect@.len(),
                        registry.wf(),
                        forall|x: u64|
                            registry@.contains(x) <==> (old(registry)@.contains(x)
                                && !plan.to_disconnect@.take(j as int).contains(x)),
                    decreases n - j,
                {
                    let target = plan.to_disconnect[j];
                    if plan.host_left {
                        if let Some(rc) = &plan.room_code {
                            let _ = registry.send(
                                target,
                                Outbound::RoomClosed { room_code: rc.clone() },
                            );
                        }
                    }
                    registry.unregister(target);
                    proof {
                        let ids = plan.to_disconnect@;
                        let s0 = ids.take(j as int);
                        let s1 = ids.take(j + 1);
                        assert(s1 =~= s0.push(ids[j as int]));
                        assert forall|x: u64|
                            s1.contains(x) <==> (s0.contains(x) || x == ids[j as int]) by {
                            if s1.contains(x) {
                                let k = choose|k: int| 0 <= k < s1.len() && s1[k] == x;
                                if k < j {
                                    assert(s0[k] == x);
                                }
                            }
                            if s0.contains(x) {
                                let k = choose|k: int| 0 <= k < s0.len() && s0[k] == x;
                                assert(s1[k] == x);
                            }
                            if x == ids[j as int] {
                                assert(s1[j as int] == x);
                            }
                        }
                    }
                    j = j + 1;
                }
                proof {
                    assert(plan.to_disconnect@.take(n as int) =~= plan.to_disconnect@);
                }
                registry.unregister(my_id);
                self.state = SessionState::Closed;
                HandleOutcome {
                    disposition: SessionDisposition::CloseSelf,
                    force_close: plan.to_disconnect,
                    error: None,
                    notified: Vec::new(),
                }
            },
            SessionEvent::Inbound(req) => match req {
                GameLobbyRequest::HostNewGame { user_name, user_type: _ } => {
                    if self.state == SessionState::Unjoined {
                        let mut users: Vec<String> = Vec::new();
                        users.push(user_name.clone());
                        let outbound = registry.sender_for(my_id);
                        let host = Member {
                            connection_id: my_id,
                            display_name: user_name,
                            role: UserMode::GameHost,
                            connected: true,
                            outbound,
                        };
                        let ghost hostv = host@;
                        let code = store.create_room(host);
                        self.room_code = Some(code.clone());
                        self.state = SessionState::InLobby;
                        let _ = registry.send(
                            my_id,
                            Outbound::RoomCreated { room_code: code.clone() },
                        );
                        let notified = store.broadcast(
                            &*registry,
                            &code,
                            &Outbound::Protocol(
                                GameLobbyResponse::PartyUpdate {
                                    room_code: code.clone(),
                                    users,
                                },
                            ),
                        );
                        proof {
                            let post = store@;
                            let i = (post.len() - 1) as int;
                            assert(post[i].code == code@);
                            crate::store::lemma_index_of_code_unique(post, code@, i);
                            assert(room_of(post, code@).members =~= seq![hostv]);
                            assert(connected_ids(Seq::<MemberView>::empty())
                                =~= Seq::<u64>::empty());
                            assert(seq![hostv].drop_last() =~= Seq::<MemberView>::empty());
                            assert(seq![hostv].last() == hostv);
                            assert(connected_ids(seq![hostv]) =~= seq![my_id]);
                        }
                        HandleOutcome {
                            disposition: SessionDisposition::Continue,
                            force_close: Vec::new(),
                            error: None,
                            notified,
                        }
                    } else {
                        HandleOutcome {
                            disposition: SessionDisposition::Continue,
                            force_close: Vec::new(),
                            error: Some(RoomError::Unauthorized),
                            notified: Vec::new(),
                        }
                    }
                },
                GameLobbyRequest::UserLogin { user_name, user_type, room_code } => {
                    if self.state == SessionState::Unjoined {
                        let outbound = registry.sender_for(my_id);
                        let member = Member {
                            connection_id: my_id,
                            display_name: user_name,
                            role: user_type,
                            connected: true,
                            outbound,
                        };
                        let ghost memberv = member@;
                        match store.join_room(&room_code, member) {
                            Ok(users) => {
                                self.room_code = Some(room_code.clone());
                                self.state = SessionState::InLobby;
                                let notified = store.broadcast(
                                    &*registry,
                                    &room_code,
                                    &Outbound::Protocol(
                                        GameLobbyResponse::PartyUpdate {
                                            room_code: room_code.clone(),
                                            users,
                                        },
                                    ),
                                );
                                proof {
                                    let pre = old(store)@;
                                    let i = index_of_code(pre, room_code@);
                                    let post = store@;
                                    assert(post[i].code == room_code@);
                                    crate::store::lemma_index_of_code_unique(post, room_code@, i);
                                }
                                HandleOutcome {
                                    disposition: SessionDisposition::Continue,
                                    force_close: Vec::new(),
                                    error: None,
                                    notified,
                                }
                            },
                            Err(e) => {
                                let _ = registry.send(
                                    my_id,
                                    Outbound::RequestFailed {
                                        room_code: Some(room_code),
                                        error: e,
                                    },
                                );
                                self.state = SessionState::Closed;
                                HandleOutcome {
                                    disposition: SessionDisposition::CloseSelf,
                                    force_close: Vec::new(),
                                    error: Some(e),
                                    notified: Vec::new(),
                                }
                            },
                        }
                    } else {
                        HandleOutcome {
                            disposition: SessionDisposition::Continue,
                            force_close: Vec::new(),
                            error: Some(RoomError::Unauthorized),
                            notified: Vec::new(),
                        }
                    }
                },
                GameLobbyRequest::HostStartGame { room_code } => {
                    let authorized = match store.room_host(&room_code) {
                        Some(h) => h == my_id,
                        None => false,
                    };
                    if authorized {
                        let _snapshot = match store.start_game(&room_code) {
                            Ok(names) => names,
                            Err(_) => {
                                proof {
                                    assert(false);
                                }
                                Vec::new()
                            },
                        };
                        self.state = SessionState::InGame;
                        let notified = store.broadcast(
                            &*registry,
                            &room_code,
                            &Outbound::Protocol(
                                GameLobbyResponse::GameStart { room_code: room_code.clone() },
                            ),
                        );
                        proof {
                            let pre = old(store)@;
                            let i = index_of_code(pre, room_code@);
                            let post = store@;
                            assert(post[i].code == room_code@);
                            crate::store::lemma_index_of_code_unique(post, room_code@, i);
                        }
                        HandleOutcome {
                            disposition: SessionDisposition::Continue,
                            force_close: Vec::new(),
                            error: None,
                            notified,
                        }
                    } else {
                        let _ = registry.send(
                            my_id,
                            Outbound::RequestFailed {
                                room_code: Some(room_code),
                                error: RoomError::Unauthorized,
                            },
                        );
                        HandleOutcome {
                            disposition: SessionDisposition::Continue,
                            force_close: Vec::new(),
                            error: Some(RoomError::Unauthorized),
                            notified: Vec::new(),
                        }
                    }
                },
                GameLobbyRequest::PlayerHand { user_name: _, room_code, hand } => {
                    match store.play_round(&room_code, my_id, hand) {
                        Ok(rr) => {
                            let _ = registry.send(
                                my_id,
                                Outbound::Protocol(
                                    GameLobbyResponse::ServerHand { hand: rr.server_hand },
                                ),
                            );
                            self.state = SessionState::InGame;
                            HandleOutcome {
                                disposition: SessionDisposition::Continue,
                                force_close: Vec::new(),
                                error: None,
                                notified: Vec::new(),
                            }
                        },
                        Err(e) => {
                            let _ = registry.send(
                                my_id,
                                Outbound::RequestFailed { room_code: Some(room_code), error: e },
                            );
                            HandleOutcome {
                                disposition: SessionDisposition::Continue,
                                force_close: Vec::new(),
                                error: Some(e),
                                notified: Vec::new(),
                            }
                        },
                    }
                },
            },
        }
    }
}

} // verus!
