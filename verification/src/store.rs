//! The room store: the single source of truth for room existence,
//! membership, and the started flag.
//!
//! The surrounding runtime guards one store with one write lock, so every
//! operation here describes one atomic transaction: no caller ever observes
//! a half-applied mutation. The store's ghost image is the sequence of room
//! images in creation order.

use vstd::prelude::*;

use crate::codes::{
    code_of_int, code_string_of, generate_room_code, is_valid_code, lemma_free_code_exists,
    CODE_SPACE,
};
use crate::hand::{resolve_round, spec_resolve, RPSHand, RoundOutcome};
use crate::messages::{Outbound, RoomError, UserMode};
use crate::registry::ConnectionRegistry;

verus! {

/// A participant inside a room: its connection id (the true identity key,
/// since display names need not be unique), its display name, its role,
/// whether it is still connected, and a shared handle to the same outbound
/// channel the registry holds for it.
pub struct Member {
    pub connection_id: u64,
    pub display_name: String,
    pub role: UserMode,
    pub connected: bool,
    pub outbound: Option<tokio::sync::mpsc::UnboundedSender<Outbound>>,
}

/// The ghost image of a member; the channel itself is opaque, so only its
/// presence is tracked.
pub struct MemberView {
    pub connection_id: u64,
    pub name: Seq<char>,
    pub role: UserMode,
    pub connected: bool,
    pub has_outbound: bool,
}

impl View for Member {
    type V = MemberView;

    open spec fn view(&self) -> MemberView {
        MemberView {
            connection_id: self.connection_id,
            name: self.display_name@,
            role: self.role,
            connected: self.connected,
            has_outbound: self.outbound is Some,
        }
    }
}

/// The ghost image of a member sequence.
pub open spec fn mviews(ms: Seq<Member>) -> Seq<MemberView> {
    ms.map_values(|m: Member| m@)
}

/// One room: its code (the unique key), whether its game has started, and
/// its members in join order. The member who created the room stands first
/// and is its designated host.
pub struct Room {
    pub code: String,
    pub started: bool,
    pub members: Vec<Member>,
}

/// The ghost image of a room.
pub struct RoomView {
    pub code: Seq<char>,
    pub started: bool,
    pub members: Seq<MemberView>,
}

impl View for Room {
    type V = RoomView;

    open spec fn view(&self) -> RoomView {
        RoomView { code: self.code@, started: self.started, members: mviews(self.members@) }
    }
}

/// Whether some room carries `code`.
pub open spec fn has_code(rooms: Seq<RoomView>, code: Seq<char>) -> bool {
    exists|i: int| 0 <= i < rooms.len() && rooms[i].code == code
}

/// The index of the room carrying `code`; meaningful only when `has_code`
/// holds and codes are pairwise distinct.
pub open spec fn index_of_code(rooms: Seq<RoomView>, code: Seq<char>) -> int {
    choose|i: int| 0 <= i < rooms.len() && rooms[i].code == code
}

/// The room carrying `code`.
pub open spec fn room_of(rooms: Seq<RoomView>, code: Seq<char>) -> RoomView {
    rooms[index_of_code(rooms, code)]
}

/// Whether the room has a member with this connection id.
pub open spec fn room_has_member(r: RoomView, id: u64) -> bool {
    exists|k: int| 0 <= k < r.members.len() && r.members[k].connection_id == id
}

/// The position of the member with this connection id; meaningful only when
/// `room_has_member` holds and ids are unique.
pub open spec fn member_index(r: RoomView, id: u64) -> int {
    choose|k: int| 0 <= k < r.members.len() && r.members[k].connection_id == id
}

/// Whether any room's member list carries this connection id.
pub open spec fn id_in_store(rooms: Seq<RoomView>, id: u64) -> bool {
    exists|i: int| 0 <= i < rooms.len() && room_has_member(#[trigger] rooms[i], id)
}

/// The index of the room whose member list carries this connection id.
pub open spec fn room_index_of_id(rooms: Seq<RoomView>, id: u64) -> int {
    choose|i: int| 0 <= i < rooms.len() && room_has_member(#[trigger] rooms[i], id)
}

/// The display names of a member sequence, in join order.
pub open spec fn names_of(ms: Seq<MemberView>) -> Seq<Seq<char>> {
    ms.map_values(|m: MemberView| m.name)
}

/// The ids of the still-connected members, in join order.
pub open spec fn connected_ids(ms: Seq<MemberView>) -> Seq<u64>
    decreases ms.len(),
{
    if ms.len() == 0 {
        Seq::empty()
    } else {
        let rest = connected_ids(ms.drop_last());
        if ms.last().connected {
            rest.push(ms.last().connection_id)
        } else {
            rest
        }
    }
}

/// The ids of the still-connected members other than `id`, in join order:
/// the members a host-departure cleanup plan must cover.
pub open spec fn other_connected_ids(ms: Seq<MemberView>, id: u64) -> Seq<u64>
    decreases ms.len(),
{
    if ms.len() == 0 {
        Seq::empty()
    } else {
        let rest = other_connected_ids(ms.drop_last(), id);
        if ms.last().connected && ms.last().connection_id != id {
            rest.push(ms.last().connection_id)
        } else {
            rest
        }
    }
}

/// Room codes are pairwise distinct: the store is a map keyed by code.
pub open spec fn codes_distinct(rooms: Seq<RoomView>) -> bool {
    forall|i: int, j: int| 0 <= i < j < rooms.len() ==> rooms[i].code != rooms[j].code
}

/// One room is well-formed: its code has the generator's format, it is
/// never empty (the host itself counts as a member), and the member who
/// created it — its designated host — stands first.
pub open spec fn room_wf(r: RoomView) -> bool {
    &&& is_valid_code(r.code)
    &&& r.members.len() > 0
    &&& r.members[0].role is GameHost
}

/// A connection appears in at most one room's member list at a time, and
/// at most once there.
pub open spec fn ids_unique(rooms: Seq<RoomView>) -> bool {
    forall|i: int, k: int, j: int, l: int|
        #![trigger rooms[i].members[k].connection_id, rooms[j].members[l].connection_id]
        0 <= i < rooms.len() && 0 <= k < rooms[i].members.len() && 0 <= j < rooms.len() && 0 <= l
            < rooms[j].members.len() && (i != j || k != l)
            ==> rooms[i].members[k].connection_id != rooms[j].members[l].connection_id
}

/// Well-formedness of the whole store.
pub open spec fn store_wf(rooms: Seq<RoomView>) -> bool {
    &&& codes_distinct(rooms)
    &&& (forall|i: int| 0 <= i < rooms.len() ==> room_wf(#[trigger] rooms[i]))
    &&& ids_unique(rooms)
}

/// The room a fresh creation inserts: not started, the host alone inside.
pub open spec fn spec_new_room(code: Seq<char>, host: MemberView) -> RoomView {
    RoomView { code: code, started: false, members: seq![host] }
}

/// Joining is allowed exactly when the room exists and its game has not
/// started: late joiners are rejected once a round begins.
pub open spec fn join_allowed(rooms: Seq<RoomView>, code: Seq<char>) -> bool {
    has_code(rooms, code) && !room_of(rooms, code).started
}

/// A room after one member joined: the member appended, in join order.
pub open spec fn spec_joined(r: RoomView, m: MemberView) -> RoomView {
    RoomView { members: r.members.push(m), ..r }
}

/// A room after its game started.
pub open spec fn spec_started(r: RoomView) -> RoomView {
    RoomView { started: true, ..r }
}

/// A room after the member at `k` disconnected: marked disconnected, its
/// outbound handle dropped, its place in the join order kept.
pub open spec fn spec_member_disconnected(r: RoomView, k: int) -> RoomView {
    RoomView {
        members: r.members.update(
            k,
            MemberView { connected: false, has_outbound: false, ..r.members[k] },
        ),
        ..r
    }
}

/// Whether the disconnecting member is its room's designated host, the
/// member standing first.
pub open spec fn is_host_departure(rooms: Seq<RoomView>, id: u64) -> bool {
    member_index(rooms[room_index_of_id(rooms, id)], id) == 0
}

/// With pairwise-distinct codes, any index holding `code` is the index
/// `index_of_code` picks.
pub proof fn lemma_index_of_code_unique(rooms: Seq<RoomView>, code: Seq<char>, i: int)
    requires
        codes_distinct(rooms),
        0 <= i < rooms.len(),
        rooms[i].code == code,
    ensures
        has_code(rooms, code),
        index_of_code(rooms, code) == i,
        room_of(rooms, code) == rooms[i],
{
    assert(has_code(rooms, code));
    let j = index_of_code(rooms, code);
    if j != i {
        if i < j {
            assert(rooms[i].code != rooms[j].code);
        } else {
            assert(rooms[j].code != rooms[i].code);
        }
    }
}

/// The room store.
pub struct RoomStore {
    rooms: Vec<Room>,
}

impl View for RoomStore {
    type V = Seq<RoomView>;

    closed spec fn view(&self) -> Seq<RoomView> {
        self.rooms@.map_values(|r: Room| r@)
    }
}

impl RoomStore {
    /// The store's invariant.
    pub open spec fn wf(&self) -> bool {
        store_wf(self@)
    }

    /// An empty store.
    pub fn new() -> (s: Self)
        ensures
            s@ =~= Seq::<RoomView>::empty(),
            s.wf(),
    {
        RoomStore { rooms: Vec::new() }
    }

    /// Finds the index of the room carrying `code`.
    #[verifier::loop_isolation(false)]
    fn find_room(&self, code: &String) -> (r: Option<usize>)
        ensures
            match r {
                Some(i) => 0 <= i < self@.len() && self@[i as int].code == code@,
                None => !has_code(self@, code@),
            },
    {
        let n = self.rooms.len();
        let mut j: usize = 0;
        while j < n
            invariant
                j <= n,
                forall|k: int| 0 <= k < j ==> self@[k].code != code@,
            decreases n - j,
        {
            if self.rooms[j].code == *code {
                return Some(j);
            }
            j = j + 1;
        }
        None
    }

    /// Whether a room with this code exists.
    pub fn has_room(&self, code: &String) -> (r: bool)
        ensures
            r == has_code(self@, code@),
    {
        match self.find_room(code) {
            Some(i) => {
                assert(has_code(self@, code@));
                true
            },
            None => false,
        }
    }

    /// Creates a new room owned by `host`: generates a code, retries on
    /// collision, and — should random retries keep colliding — falls back
    /// to a bounded sweep of the whole code space, so creation always
    /// succeeds while fewer than `CODE_SPACE` rooms exist.
    #[verifier::loop_isolation(false)]
    pub fn create_room(&mut self, host: Member) -> (code: String)
        requires
            old(self).wf(),
            old(self)@.len() < CODE_SPACE,
            host@.role is GameHost,
            !id_in_store(old(self)@, host@.connection_id),
        ensures
            final(self).wf(),
            is_valid_code(code@),
            !has_code(old(self)@, code@),
            final(self)@ == old(self)@.push(spec_new_room(code@, host@)),
    {
        let ghost hostv = host@;
        let mut chosen: Option<String> = None;
        let mut tries: usize = 0;
        while tries < 16
            invariant
                *self == *old(self),
                match chosen {
                    Some(c) => is_valid_code(c@) && !has_code(self@, c@),
                    None => true,
                },
            decreases 16 - tries,
        {
            if chosen.is_none() {
                let c = generate_room_code();
                if !self.has_room(&c) {
                    chosen = Some(c);
                }
            }
            tries = tries + 1;
        }
        let code: String = match chosen {
            Some(c) => c,
            None => {
                let mut found: Option<String> = None;
                let mut n: u32 = 0;
                while n < CODE_SPACE
                    invariant
                        *self == *old(self),
                        n <= CODE_SPACE,
                        found is None ==> forall|m: int|
                            0 <= m < n ==> has_code(self@, code_of_int(m)),
                        match found {
                            Some(c) => is_valid_code(c@) && !has_code(self@, c@),
                            None => true,
                        },
                    decreases CODE_SPACE - n,
                {
                    if found.is_none() {
                        let c = code_string_of(n);
                        if !self.has_room(&c) {
                            found = Some(c);
                        }
                    }
                    n = n + 1;
                }
                match found {
                    Some(c) => c,
                    None => {
                        proof {
                            let codes = self@.map_values(|r: RoomView| r.code);
                            assert forall|m: int|
                                0 <= m < CODE_SPACE implies codes.contains(code_of_int(m)) by {
                                assert(has_code(self@, code_of_int(m)));
                                let i = choose|i: int|
                                    0 <= i < self@.len() && self@[i].code == code_of_int(m);
                                assert(codes[i] == code_of_int(m));
                            }
                            lemma_free_code_exists(codes);
                            assert(false);
                        }
                        String::new()
                    },
                }
            },
        };
        let stored_code = code.clone();
        let mut members: Vec<Member> = Vec::new();
        members.push(host);
        self.rooms.push(Room { code: stored_code, started: false, members });
        proof {
            let pre = old(self)@;
            let rv = spec_new_room(code@, hostv);
            assert(mviews(seq![host]) =~= seq![hostv]);
            assert(self@ =~= pre.push(rv));
            assert forall|i: int| 0 <= i < self@.len() implies room_wf(#[trigger] self@[i]) by {
                if i < pre.len() {
                    assert(self@[i] == pre[i]);
                }
            }
            assert forall|i: int, j: int|
                0 <= i < j < self@.len() implies self@[i].code != self@[j].code by {
                if j == pre.len() {
                    assert(!has_code(pre, code@));
                    assert(pre[i].code != code@);
                }
            }
            assert forall|i: int, k: int, j: int, l: int|
                #![trigger self@[i].members[k].connection_id, self@[j].members[l].connection_id]
                0 <= i < self@.len() && 0 <= k < self@[i].members.len() && 0 <= j < self@.len() && 0
                    <= l < self@[j].members.len() && (i != j || k != l) implies self@[
                i].members[k].connection_id != self@[j].members[l].connection_id by {
                if i == pre.len() && j < pre.len() {
                    assert(!room_has_member(pre[j], hostv.connection_id));
                    assert(pre[j].members[l].connection_id != hostv.connection_id);
                } else if j == pre.len() && i < pre.len() {
                    assert(!room_has_member(pre[i], hostv.connection_id));
                    assert(pre[i].members[k].connection_id != hostv.connection_id);
                }
            }
        }
        code
    }

    /// Appends `member` to the room named `code` and returns the full,
    /// just-updated member display-name list for response construction.
    /// Fails with `RoomNotFound` when the code is absent and with
    /// `GameAlreadyStarted` when the room's game has started; a failed join
    /// mutates nothing.
    pub fn join_room(&mut self, code: &String, member: Member) -> (r: Result<
        Vec<String>,
        RoomError,
    >)
        requires
            old(self).wf(),
            !id_in_store(old(self)@, member@.connection_id),
        ensures
            final(self).wf(),
            r matches Err(RoomError::RoomNotFound) <==> !has_code(old(self)@, code@),
            r matches Err(RoomError::GameAlreadyStarted) <==> (has_code(old(self)@, code@)
                && room_of(old(self)@, code@).started),
            r is Ok <==> join_allowed(old(self)@, code@),
            r is Err ==> final(self)@ == old(self)@,
            r is Ok ==> final(self)@ == old(self)@.update(
                index_of_code(old(self)@, code@),
                spec_joined(room_of(old(self)@, code@), member@),
            ),
            r matches Ok(names) ==> names.deep_view() == names_of(
                spec_joined(room_of(old(self)@, code@), member@).members,
            ),
    {
        let i = match self.find_room(code) {
            None => {
                return Err(RoomError::RoomNotFound);
            },
            Some(i) => i,
        };
        proof {
            lemma_index_of_code_unique(self@, code@, i as int);
        }
        if self.rooms[i].started {
            return Err(RoomError::GameAlreadyStarted);
        }
        let ghost pre = self@;
        let ghost oldroom = self@[i as int];
        let ghost memberv = member@;
        let mut room = self.rooms.remove(i);
        room.members.push(member);
        let names = snapshot_names(&room.members);
        let ghost newroomv = room@;
        self.rooms.insert(i, room);
        proof {
            assert(newroomv.members =~= oldroom.members.push(memberv));
            assert(newroomv == spec_joined(oldroom, memberv));
            assert(self@ =~= pre.update(i as int, newroomv));
            lemma_store_wf_member_push(pre, i as int, memberv);
        }
        Ok(names)
    }

    /// Marks the room's game as started — a monotonic flag that never
    /// reverts — and returns a snapshot of the current member display
    /// names. Idempotent: re-invoking on an already-started room returns
    /// the current snapshot rather than erroring.
    pub fn start_game(&mut self, code: &String) -> (r: Result<Vec<String>, RoomError>)
        requires
            old(self).wf(),
        ensures
            final(self).wf(),
            r is Err <==> !has_code(old(self)@, code@),
            r matches Err(e) ==> e == RoomError::RoomNotFound && final(self)@ == old(self)@,
            r is Ok ==> final(self)@ == old(self)@.update(
                index_of_code(old(self)@, code@),
                spec_started(room_of(old(self)@, code@)),
            ),
            r is Ok ==> has_code(final(self)@, code@) && room_of(final(self)@, code@).started,
            r matches Ok(names) ==> names.deep_view() == names_of(
                room_of(old(self)@, code@).members,
            ),
            forall|i: int|
                0 <= i < old(self)@.len() && (#[trigger] old(self)@[i]).started
                    ==> final(self)@[i].started,
    {
        let i = match self.find_room(code) {
            None => {
                return Err(RoomError::RoomNotFound);
            },
            Some(i) => i,
        };
        proof {
            lemma_index_of_code_unique(self@, code@, i as int);
        }
        let ghost pre = self@;
        let ghost oldroom = self@[i as int];
        let mut room = self.rooms.remove(i);
        room.started = true;
        let names = snapshot_names(&room.members);
        let ghost newroomv = room@;
        self.rooms.insert(i, room);
        proof {
            assert(newroomv == spec_started(oldroom));
            assert(self@ =~= pre.update(i as int, newroomv));
            assert(codes_distinct(self@));
            lemma_index_of_code_unique(self@, code@, i as int);
            assert forall|k: int| 0 <= k < self@.len() implies room_wf(#[trigger] self@[k]) by {
                if k != i {
                    assert(self@[k] == pre[k]);
                }
            }
            assert forall|a: int, k: int, b: int, l: int|
                #![trigger self@[a].members[k].connection_id, self@[b].members[l].connection_id]
                0 <= a < self@.len() && 0 <= k < self@[a].members.len() && 0 <= b < self@.len() && 0
                    <= l < self@[b].members.len() && (a != b || k != l) implies self@[
                a].members[k].connection_id != self@[b].members[l].connection_id by {
                assert(self@[a].members == pre[a].members);
                assert(self@[b].members == pre[b].members);
            }
        }
        Ok(names)
    }

    /// Resolves one round for the acting member: draws the server's
    /// counter-hand uniformly at random and applies the cyclic-dominance
    /// rule, returning the outcome tagged with the member's identity. The
    /// store itself is not mutated.
    #[verifier::loop_isolation(false)]
    pub fn play_round(&self, code: &String, connection_id: u64, hand: RPSHand) -> (r: Result<
        RoundResult,
        RoomError,
    >)
        requires
            self.wf(),
        ensures
            r matches Err(RoomError::RoomNotFound) <==> !has_code(self@, code@),
            r matches Err(RoomError::MemberNotFound) <==> (has_code(self@, code@)
                && !room_has_member(room_of(self@, code@), connection_id)),
            r is Ok <==> (has_code(self@, code@) && room_has_member(
                room_of(self@, code@),
                connection_id,
            )),
            r matches Ok(rr) ==> rr.connection_id == connection_id && rr.player_hand == hand
                && rr.outcome == spec_resolve(hand, rr.server_hand),
    {
        let i = match self.find_room(code) {
            None => {
                return Err(RoomError::RoomNotFound);
            },
            Some(i) => i,
        };
        proof {
            lemma_index_of_code_unique(self@, code@, i as int);
        }
        let n = self.rooms[i].members.len();
        let mut j: usize = 0;
        let mut found = false;
        while j < n
            invariant
                j <= n,
                n == self.rooms@[i as int].members@.len(),
                !found ==> forall|k: int|
                    0 <= k < j ==> self@[i as int].members[k].connection_id != connection_id,
                found ==> room_has_member(self@[i as int], connection_id),
            decreases n - j,
        {
            if self.rooms[i].members[j].connection_id == connection_id {
                assert(self@[i as int].members[j as int].connection_id == connection_id);
                found = true;
            }
            j = j + 1;
        }
        if !found {
            return Err(RoomError::MemberNotFound);
        }
        let d = crate::random::random_index(3);
        let server = crate::hand::hand_of_index(d);
        let outcome = resolve_round(hand, server);
        Ok(RoundResult { connection_id, player_hand: hand, server_hand: server, outcome })
    }

    /// How many rooms exist.
    pub fn room_count(&self) -> (n: usize)
        ensures
            n == self@.len(),
    {
        self.rooms.len()
    }

    /// Whether any room's member list carries this connection id.
    #[verifier::loop_isolation(false)]
    pub fn contains_connection(&self, id: u64) -> (r: bool)
        ensures
            r == id_in_store(self@, id),
    {
        let n = self.rooms.len();
        let mut i: usize = 0;
        while i < n
            invariant
                i <= n,
                forall|a: int| 0 <= a < i ==> !room_has_member(#[trigger] self@[a], id),
            decreases n - i,
        {
            if find_member(&self.rooms[i].members, id).is_some() {
                assert(room_has_member(self@[i as int], id));
                return true;
            }
            i = i + 1;
        }
        false
    }

    /// The designated host of the room named `code`: the connection id of
    /// the member who created it, for authorization checks.
    pub fn room_host(&self, code: &String) -> (r: Option<u64>)
        requires
            self.wf(),
        ensures
            r is Some <==> has_code(self@, code@),
            r matches Some(h) ==> h == room_of(self@, code@).members[0].connection_id,
    {
        let i = match self.find_room(code) {
            None => {
                return None;
            },
            Some(i) => i,
        };
        proof {
            lemma_index_of_code_unique(self@, code@, i as int);
            assert(room_wf(self@[i as int]));
        }
        Some(self.rooms[i].members[0].connection_id)
    }

    /// Handles a disconnect: scans all rooms for the member with this
    /// connection id, marks it disconnected and drops its outbound handle.
    /// If that member is the room's designated host, the room is deleted
    /// and the plan covers every other member that was still connected; a
    /// non-host departure leaves the room and its other members intact.
    /// Removing an absent connection is a no-op.
    #[verifier::loop_isolation(false)]
    pub fn remove_connection(&mut self, connection_id: u64) -> (plan: CleanupPlan)
        requires
            old(self).wf(),
        ensures
            final(self).wf(),
            !id_in_store(old(self)@, connection_id) ==> (final(self)@ == old(self)@
                && !plan.host_left && plan.room_code is None && plan.to_disconnect@ == Seq::<
                u64,
            >::empty()),
            id_in_store(old(self)@, connection_id) && is_host_departure(old(self)@, connection_id)
                ==> (plan.host_left && (plan.room_code matches Some(c) && c@ == old(self)@[
                room_index_of_id(old(self)@, connection_id)].code) && plan.to_disconnect@
                == other_connected_ids(
                old(self)@[room_index_of_id(old(self)@, connection_id)].members,
                connection_id,
            ) && final(self)@ == old(self)@.remove(room_index_of_id(old(self)@, connection_id))),
            id_in_store(old(self)@, connection_id) && !is_host_departure(old(self)@, connection_id)
                ==> (!plan.host_left && plan.room_code is None && plan.to_disconnect@ == Seq::<
                u64,
            >::empty() && final(self)@ == old(self)@.update(
                room_index_of_id(old(self)@, connection_id),
                spec_member_disconnected(
                    old(self)@[room_index_of_id(old(self)@, connection_id)],
                    member_index(
                        old(self)@[room_index_of_id(old(self)@, connection_id)],
                        connection_id,
                    ),
                ),
            )),
    {
        let n = self.rooms.len();
        let mut i: usize = 0;
        while i < n
            invariant
                i <= n,
                n == self@.len(),
                *self == *old(self),
                forall|a: int|
                    0 <= a < i ==> !room_has_member(#[trigger] self@[a], connection_id),
            decreases n - i,
        {
            if let Some(k) = find_member(&self.rooms[i].members, connection_id) {
                proof {
                    lemma_id_position_unique(self@, connection_id, i as int, k as int);
                }
                let ghost pre = self@;
                if k == 0 {
                    let room = self.rooms.remove(i);
                    let ids = collect_other_connected(&room.members, connection_id);
                    proof {
                        assert(self@ =~= pre.remove(i as int));
                        lemma_store_wf_remove(pre, i as int);
                    }
                    return CleanupPlan {
                        host_left: true,
                        room_code: Some(room.code),
                        to_disconnect: ids,
                    };
                } else {
                    let mut room = self.rooms.remove(i);
                    let ghost oldroomv = pre[i as int];
                    let mut mem = room.members.remove(k);
                    mem.connected = false;
                    mem.outbound = None;
                    let ghost memv = mem@;
                    room.members.insert(k, mem);
                    proof {
                        assert(room.members@ =~= old(self).rooms@[i as int].members@.update(
                            k as int,
                            mem,
                        ));
                        assert(mviews(room.members@) =~= oldroomv.members.update(k as int, memv));
                        assert(room@ == spec_member_disconnected(oldroomv, k as int));
                    }
                    let ghost newroomv = room@;
                    self.rooms.insert(i, room);
                    proof {
                        assert(self@ =~= pre.update(i as int, newroomv));
                        lemma_store_wf_disconnect(pre, i as int, k as int);
                    }
                    return CleanupPlan {
                        host_left: false,
                        room_code: None,
                        to_disconnect: Vec::new(),
                    };
                }
            }
            i = i + 1;
        }
        CleanupPlan { host_left: false, room_code: None, to_disconnect: Vec::new() }
    }

    /// Builds the message once and enqueues a copy of it, via the
    /// registry, to every still-connected member of the named room — never
    /// to disconnected members and never outside the room. Returns the
    /// addressed connection ids, in member-list order; a send to an id that
    /// is no longer registered is silently dropped.
    #[verifier::loop_isolation(false)]
    pub fn broadcast(
        &self,
        registry: &ConnectionRegistry,
        code: &String,
        message: &Outbound,
    ) -> (sent: Vec<u64>)
        requires
            self.wf(),
        ensures
            !has_code(self@, code@) ==> sent@ == Seq::<u64>::empty(),
            has_code(self@, code@) ==> sent@ == connected_ids(room_of(self@, code@).members),
    {
        let i = match self.find_room(code) {
            None => {
                return Vec::new();
            },
            Some(i) => i,
        };
        proof {
            lemma_index_of_code_unique(self@, code@, i as int);
        }
        let n = self.rooms[i].members.len();
        let mut sent: Vec<u64> = Vec::new();
        let mut j: usize = 0;
        while j < n
            invariant
                j <= n,
                n == self@[i as int].members.len(),
                sent@ == connected_ids(self@[i as int].members.take(j as int)),
            decreases n - j,
        {
            proof {
                lemma_connected_ids_snoc(self@[i as int].members, j as int);
            }
            if self.rooms[i].members[j].connected {
                let id = self.rooms[i].members[j].connection_id;
                let _ = registry.send(id, message.clone());
                sent.push(id);
            }
            j = j + 1;
        }
        proof {
            assert(self@[i as int].members.take(n as int) =~= self@[i as int].members);
        }
        sent
    }
}

/// What one disconnect requires of the caller. When the departing member
/// is its room's designated host, the room cannot outlive it: the plan
/// names the room and every other member that was still connected, so the
/// caller can notify and forcibly disconnect the whole room.
pub struct CleanupPlan {
    pub host_left: bool,
    pub room_code: Option<String>,
    pub to_disconnect: Vec<u64>,
}

/// The outcome of one round, tagged with the acting member's identity.
#[derive(Clone, Copy, Debug, PartialEq, Eq, Structural)]
pub struct RoundResult {
    pub connection_id: u64,
    pub player_hand: RPSHand,
    pub server_hand: RPSHand,
    pub outcome: RoundOutcome,
}

/// Copies the display names of a member list, in join order, for response
/// construction.
#[verifier::loop_isolation(false)]
fn snapshot_names(members: &Vec<Member>) -> (names: Vec<String>)
    ensures
        names.deep_view() == names_of(mviews(members@)),
{
    let n = members.len();
    let mut names: Vec<String> = Vec::new();
    let mut j: usize = 0;
    while j < n
        invariant
            j <= n,
            names@.len() == j,
            forall|k: int| 0 <= k < j ==> names@[k]@ == mviews(members@)[k].name,
        decreases n - j,
    {
        names.push(members[j].display_name.clone());
        j = j + 1;
    }
    proof {
        assert(names.deep_view() =~= names_of(mviews(members@)));
    }
    names
}

/// Finds the position of the member with this connection id.
#[verifier::loop_isolation(false)]
fn find_member(members: &Vec<Member>, id: u64) -> (r: Option<usize>)
    ensures
        match r {
            Some(k) => 0 <= k < members@.len() && mviews(members@)[k as int].connection_id == id,
            None => forall|k: int|
                0 <= k < members@.len() ==> mviews(members@)[k].connection_id != id,
        },
{
    let n = members.len();
    let mut j: usize = 0;
    while j < n
        invariant
            j <= n,
            forall|k: int| 0 <= k < j ==> mviews(members@)[k].connection_id != id,
        decreases n - j,
    {
        if members[j].connection_id == id {
            assert(mviews(members@)[j as int].connection_id == id);
            return Some(j);
        }
        j = j + 1;
    }
    None
}

/// Collects the ids of the still-connected members other than `id`, in
/// join order: the members a host-departure cleanup must reach.
#[verifier::loop_isolation(false)]
fn collect_other_connected(members: &Vec<Member>, id: u64) -> (ids: Vec<u64>)
    ensures
        ids@ == other_connected_ids(mviews(members@), id),
{
    let n = members.len();
    let mut ids: Vec<u64> = Vec::new();
    let mut j: usize = 0;
    while j < n
        invariant
            j <= n,
            ids@ == other_connected_ids(mviews(members@).take(j as int), id),
        decreases n - j,
    {
        proof {
            lemma_other_connected_ids_snoc(mviews(members@), id, j as int);
        }
        if members[j].connected && members[j].connection_id != id {
            ids.push(members[j].connection_id);
        }
        j = j + 1;
    }
    proof {
        assert(mviews(members@).take(n as int) =~= mviews(members@));
    }
    ids
}

/// With unique ids, the room and member position holding `id` are the ones
/// the specification picks.
pub proof fn lemma_id_position_unique(rooms: Seq<RoomView>, id: u64, i: int, k: int)
    requires
        ids_unique(rooms),
        0 <= i < rooms.len(),
        0 <= k < rooms[i].members.len(),
        rooms[i].members[k].connection_id == id,
    ensures
        id_in_store(rooms, id),
        room_index_of_id(rooms, id) == i,
        member_index(rooms[i], id) == k,
{
    assert(room_has_member(rooms[i], id));
    assert(id_in_store(rooms, id));
    let i2 = room_index_of_id(rooms, id);
    assert(room_has_member(rooms[i2], id));
    let k2 = choose|k2: int|
        0 <= k2 < rooms[i2].members.len() && rooms[i2].members[k2].connection_id == id;
    if i2 != i || k2 != k {
        assert(rooms[i].members[k].connection_id != rooms[i2].members[k2].connection_id);
    }
    let k3 = member_index(rooms[i], id);
    assert(0 <= k3 < rooms[i].members.len() && rooms[i].members[k3].connection_id == id);
    if k3 != k {
        assert(rooms[i].members[k].connection_id != rooms[i].members[k3].connection_id);
    }
}

/// Unfolds `connected_ids` over one appended member.
proof fn lemma_connected_ids_snoc(ms: Seq<MemberView>, j: int)
    requires
        0 <= j < ms.len(),
    ensures
        connected_ids(ms.take(j + 1)) == if ms[j].connected {
            connected_ids(ms.take(j)).push(ms[j].connection_id)
        } else {
            connected_ids(ms.take(j))
        },
{
    assert(ms.take(j + 1).drop_last() =~= ms.take(j));
    assert(ms.take(j + 1).last() == ms[j]);
}

/// Unfolds `other_connected_ids` over one appended member.
proof fn lemma_other_connected_ids_snoc(ms: Seq<MemberView>, id: u64, j: int)
    requires
        0 <= j < ms.len(),
    ensures
        other_connected_ids(ms.take(j + 1), id) == if ms[j].connected && ms[j].connection_id
            != id {
            other_connected_ids(ms.take(j), id).push(ms[j].connection_id)
        } else {
            other_connected_ids(ms.take(j), id)
        },
{
    assert(ms.take(j + 1).drop_last() =~= ms.take(j));
    assert(ms.take(j + 1).last() == ms[j]);
}

/// Deleting a room preserves the store invariant.
proof fn lemma_store_wf_remove(pre: Seq<RoomView>, i: int)
    requires
        store_wf(pre),
        0 <= i < pre.len(),
    ensures
        store_wf(pre.remove(i)),
{
    let post = pre.remove(i);
    assert forall|a: int|
        0 <= a < post.len() implies post[a] == (if a < i {
        pre[a]
    } else {
        pre[a + 1]
    }) by {}
    assert forall|a: int, b: int| 0 <= a < b < post.len() implies post[a].code != post[b].code by {
        let a0: int = if a < i { a } else { a + 1 };
        let b0: int = if b < i { b } else { b + 1 };
        assert(pre[a0].code != pre[b0].code);
    }
    assert forall|a: int| 0 <= a < post.len() implies room_wf(#[trigger] post[a]) by {
        let a0: int = if a < i { a } else { a + 1 };
        assert(room_wf(pre[a0]));
    }
    assert forall|a: int, k: int, b: int, l: int|
        #![trigger post[a].members[k].connection_id, post[b].members[l].connection_id]
        0 <= a < post.len() && 0 <= k < post[a].members.len() && 0 <= b < post.len() && 0 <= l
            < post[b].members.len() && (a != b || k != l) implies post[a].members[k].connection_id
        != post[b].members[l].connection_id by {
        let a0: int = if a < i { a } else { a + 1 };
        let b0: int = if b < i { b } else { b + 1 };
        assert(pre[a0].members[k].connection_id != pre[b0].members[l].connection_id);
    }
}

/// Marking the member at a non-host position disconnected preserves the
/// store invariant.
proof fn lemma_store_wf_disconnect(pre: Seq<RoomView>, i: int, k: int)
    requires
        store_wf(pre),
        0 <= i < pre.len(),
        0 < k < pre[i].members.len(),
    ensures
        store_wf(pre.update(i, spec_member_disconnected(pre[i], k))),
{
    let post = pre.update(i, spec_member_disconnected(pre[i], k));
    assert(codes_distinct(post));
    assert forall|a: int| 0 <= a < post.len() implies room_wf(#[trigger] post[a]) by {
        if a == i {
            assert(post[a].members[0] == pre[i].members[0]);
            assert(post[a].members.len() == pre[i].members.len());
        } else {
            assert(post[a] == pre[a]);
        }
    }
    assert forall|a: int, x: int, b: int, l: int|
        #![trigger post[a].members[x].connection_id, post[b].members[l].connection_id]
        0 <= a < post.len() && 0 <= x < post[a].members.len() && 0 <= b < post.len() && 0 <= l
            < post[b].members.len() && (a != b || x != l) implies post[a].members[x].connection_id
        != post[b].members[l].connection_id by {
        assert(post[a].members[x].connection_id == pre[a].members[x].connection_id);
        assert(post[b].members[l].connection_id == pre[b].members[l].connection_id);
    }
}

/// Pushing a fresh member onto the room at `i` preserves the store
/// invariant, and is well-formedness-compatible with the update image.
proof fn lemma_store_wf_member_push(pre: Seq<RoomView>, i: int, m: MemberView)
    requires
        store_wf(pre),
        0 <= i < pre.len(),
        !id_in_store(pre, m.connection_id),
    ensures
        store_wf(pre.update(i, spec_joined(pre[i], m))),
{
    let post = pre.update(i, spec_joined(pre[i], m));
    assert(codes_distinct(post));
    assert forall|k: int| 0 <= k < post.len() implies room_wf(#[trigger] post[k]) by {
        if k == i {
            assert(room_wf(pre[i]));
            assert(post[k].members[0] == pre[i].members[0]);
        } else {
            assert(post[k] == pre[k]);
        }
    }
    assert(!room_has_member(pre[i], m.connection_id));
    assert forall|a: int, k: int, b: int, l: int|
        #![trigger post[a].members[k].connection_id, post[b].members[l].connection_id]
        0 <= a < post.len() && 0 <= k < post[a].members.len() && 0 <= b < post.len() && 0 <= l
            < post[b].members.len() && (a != b || k != l) implies post[a].members[k].connection_id
        != post[b].members[l].connection_id by {
        let newlen = pre[i].members.len() as int;
        if a == i && k == newlen {
            assert(post[a].members[k] == m);
            if b == i && l < newlen {
                assert(post[b].members[l] == pre[i].members[l]);
                assert(!room_has_member(pre[b], m.connection_id));
                assert(pre[b].members[l].connection_id != m.connection_id);
            } else if b != i {
                assert(post[b].members[l] == pre[b].members[l]);
                assert(!room_has_member(pre[b], m.connection_id));
                assert(pre[b].members[l].connection_id != m.connection_id);
            }
        } else if b == i && l == newlen {
            assert(post[b].members[l] == m);
            if a == i && k < newlen {
                assert(post[a].members[k] == pre[i].members[k]);
                assert(!room_has_member(pre[a], m.connection_id));
                assert(pre[a].members[k].connection_id != m.connection_id);
            } else if a != i {
                assert(post[a].members[k] == pre[a].members[k]);
                assert(!room_has_member(pre[a], m.connection_id));
                assert(pre[a].members[k].connection_id != m.connection_id);
            }
        } else {
            assert(post[a].members[k] == pre[a].members[k]);
            assert(post[b].members[l] == pre[b].members[l]);
        }
    }
}

/// Codes of successive room creations are pairwise distinct: each
/// creation's code is fresh for the store it was drawn against, and the
/// store already holds every earlier code. `rooms` is any store, `c1` the
/// code of the first creation, `c2` the code a later creation drew against
/// the store that still holds `c1`'s room.
pub proof fn lemma_created_codes_distinct(
    rooms: Seq<RoomView>,
    c1: Seq<char>,
    h1: MemberView,
    c2: Seq<char>,
)
    requires
        !has_code(rooms.push(spec_new_room(c1, h1)), c2),
    ensures
        c2 != c1,
{
    let s1 = rooms.push(spec_new_room(c1, h1));
    assert(s1[rooms.len() as int].code == c1);
    assert(has_code(s1, c1));
}

/// Joining after the game started is always refused: once the started flag
/// is set — which is exactly what `start_game` does to the store — the room
/// no longer admits joins, and `join_room` then returns
/// `GameAlreadyStarted` and mutates nothing.
pub proof fn lemma_join_after_start_refused(rooms: Seq<RoomView>, code: Seq<char>)
    requires
        store_wf(rooms),
        has_code(rooms, code),
    ensures
        room_of(
            rooms.update(index_of_code(rooms, code), spec_started(room_of(rooms, code))),
            code,
        ).started,
        !join_allowed(
            rooms.update(index_of_code(rooms, code), spec_started(room_of(rooms, code))),
            code,
        ),
{
    let i = index_of_code(rooms, code);
    let post = rooms.update(i, spec_started(rooms[i]));
    assert forall|a: int, b: int| 0 <= a < b < post.len() implies post[a].code != post[b].code by {
        assert(post[a].code == rooms[a].code);
        assert(post[b].code == rooms[b].code);
    }
    assert(post[i].code == code);
    lemma_index_of_code_unique(post, code, i);
}

/// The rooms after a sequence of joins into one room, one member at a time.
pub open spec fn spec_joins(
    rooms: Seq<RoomView>,
    code: Seq<char>,
    ms: Seq<MemberView>,
) -> Seq<RoomView>
    decreases ms.len(),
{
    if ms.len() == 0 {
        rooms
    } else {
        spec_joins(
            rooms.update(index_of_code(rooms, code), spec_joined(room_of(rooms, code), ms[0])),
            code,
            ms.drop_first(),
        )
    }
}

/// Joins accumulate without loss: after any sequence of successful joins
/// the room's member list is its old list followed by the joiners, in join
/// order, every other room untouched, and the room still admits joins.
pub proof fn lemma_joins_accumulate(rooms: Seq<RoomView>, code: Seq<char>, ms: Seq<MemberView>)
    requires
        codes_distinct(rooms),
        has_code(rooms, code),
        !room_of(rooms, code).started,
    ensures
        codes_distinct(spec_joins(rooms, code, ms)),
        has_code(spec_joins(rooms, code, ms), code),
        spec_joins(rooms, code, ms).len() == rooms.len(),
        index_of_code(spec_joins(rooms, code, ms), code) == index_of_code(rooms, code),
        !room_of(spec_joins(rooms, code, ms), code).started,
        room_of(spec_joins(rooms, code, ms), code).members == room_of(rooms, code).members + ms,
        room_of(spec_joins(rooms, code, ms), code).code == code,
        forall|a: int|
            0 <= a < rooms.len() && a != index_of_code(rooms, code) ==> spec_joins(
                rooms,
                code,
                ms,
            )[a] == rooms[a],
    decreases ms.len(),
{
    let i = index_of_code(rooms, code);
    assert(rooms[i].code == code);
    if ms.len() == 0 {
        assert(room_of(rooms, code).members + ms =~= room_of(rooms, code).members);
    } else {
        let r1 = rooms.update(i, spec_joined(rooms[i], ms[0]));
        assert forall|a: int, b: int| 0 <= a < b < r1.len() implies r1[a].code != r1[b].code by {
            assert(r1[a].code == rooms[a].code);
            assert(r1[b].code == rooms[b].code);
        }
        assert(r1[i].code == code);
        lemma_index_of_code_unique(r1, code, i);
        lemma_joins_accumulate(r1, code, ms.drop_first());
        assert(room_of(r1, code).members + ms.drop_first() =~= room_of(rooms, code).members + ms);
        assert forall|a: int|
            0 <= a < rooms.len() && a != i implies spec_joins(rooms, code, ms)[a] == rooms[a] by {
            assert(spec_joins(rooms, code, ms) == spec_joins(r1, code, ms.drop_first()));
            assert(spec_joins(r1, code, ms.drop_first())[a] == r1[a]);
        }
    }
}

/// The started flag is monotonic: no room mutation — a join, a start, or a
/// member disconnect — ever clears it, so within a room's lifetime it only
/// transitions false to true.
pub proof fn lemma_started_monotonic(r: RoomView, m: MemberView, k: int)
    ensures
        spec_joined(r, m).started == r.started,
        spec_started(r).started,
        spec_member_disconnected(r, k).started == r.started,
{
}

/// The member-count law: a fresh room holding its host alone holds exactly
/// N + 1 members after N joins — the host first, then the N joiners in
/// join order, nothing lost and nothing duplicated.
pub proof fn lemma_join_count(
    rooms: Seq<RoomView>,
    code: Seq<char>,
    host: MemberView,
    ms: Seq<MemberView>,
)
    requires
        codes_distinct(rooms),
        has_code(rooms, code),
        room_of(rooms, code) == spec_new_room(code, host),
    ensures
        room_of(spec_joins(rooms, code, ms), code).members.len() == ms.len() + 1,
        room_of(spec_joins(rooms, code, ms), code).members == seq![host] + ms,
{
    lemma_joins_accumulate(rooms, code, ms);
}

} // verus!
