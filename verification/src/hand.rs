//! The rock-paper-scissors hand type and the round-resolution rule.
//!
//! A round is one hand submitted by a player, resolved against an
//! independently generated server hand by the standard cyclic-dominance
//! rule: Rock beats Scissors, Scissors beats Paper, Paper beats Rock;
//! equal hands are a draw.

use vstd::prelude::*;

verus! {

/// One of the three playable hands.
#[derive(Clone, Copy, Debug, PartialEq, Eq, Structural)]
pub enum RPSHand {
    Rock,
    Paper,
    Scissors,
}

/// The result of one round, from the acting player's point of view.
#[derive(Clone, Copy, Debug, PartialEq, Eq, Structural)]
pub enum RoundOutcome {
    PlayerWins,
    ServerWins,
    Draw,
}

/// The cyclic-dominance relation: `a` beats `b`.
pub open spec fn beats(a: RPSHand, b: RPSHand) -> bool {
    ||| (a is Rock && b is Scissors)
    ||| (a is Scissors && b is Paper)
    ||| (a is Paper && b is Rock)
}

/// What a round resolves to, as a pure function of the two hands.
pub open spec fn spec_resolve(player: RPSHand, server: RPSHand) -> RoundOutcome {
    if player == server {
        RoundOutcome::Draw
    } else if beats(player, server) {
        RoundOutcome::PlayerWins
    } else {
        RoundOutcome::ServerWins
    }
}

/// Resolves one round of the submitted player hand against the server's
/// counter-hand.
pub fn resolve_round(player: RPSHand, server: RPSHand) -> (outcome: RoundOutcome)
    ensures
        outcome == spec_resolve(player, server),
        outcome is Draw <==> player == server,
        outcome is PlayerWins <==> beats(player, server),
        outcome is ServerWins <==> beats(server, player),
{
    match (player, server) {
        (RPSHand::Rock, RPSHand::Rock) => RoundOutcome::Draw,
        (RPSHand::Paper, RPSHand::Paper) => RoundOutcome::Draw,
        (RPSHand::Scissors, RPSHand::Scissors) => RoundOutcome::Draw,
        (RPSHand::Rock, RPSHand::Scissors) => RoundOutcome::PlayerWins,
        (RPSHand::Scissors, RPSHand::Paper) => RoundOutcome::PlayerWins,
        (RPSHand::Paper, RPSHand::Rock) => RoundOutcome::PlayerWins,
        (RPSHand::Rock, RPSHand::Paper) => RoundOutcome::ServerWins,
        (RPSHand::Scissors, RPSHand::Rock) => RoundOutcome::ServerWins,
        (RPSHand::Paper, RPSHand::Scissors) => RoundOutcome::ServerWins,
    }
}

/// The hand a uniformly drawn index below three stands for.
pub open spec fn spec_hand_of_index(i: u8) -> RPSHand {
    if i == 0 {
        RPSHand::Rock
    } else if i == 1 {
        RPSHand::Paper
    } else {
        RPSHand::Scissors
    }
}

/// Maps a drawn index to a hand, for generating the server's counter-hand.
pub fn hand_of_index(i: u8) -> (h: RPSHand)
    requires
        i < 3,
    ensures
        h == spec_hand_of_index(i),
{
    if i == 0 {
        RPSHand::Rock
    } else if i == 1 {
        RPSHand::Paper
    } else {
        RPSHand::Scissors
    }
}

} // verus!
