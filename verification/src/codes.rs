//! Room codes: four uppercase ASCII letters, drawn uniformly.
//!
//! The generator alone does not guarantee uniqueness; the room store
//! checks-and-inserts atomically and retries on collision. To make that
//! retry total, codes are also put in one-to-one correspondence with the
//! integers below 26^4, so the store can fall back to a bounded sweep of
//! the whole code space.

use vstd::prelude::*;

use vstd::arithmetic::div_mod::{
    lemma_div_denominator, lemma_div_pos_is_pos, lemma_fundamental_div_mod, lemma_mod_bound,
    lemma_small_mod,
};
use vstd::assert_by_contradiction;
use vstd::seq_lib::seq_to_set_is_finite;
use vstd::set_lib::{lemma_int_range, lemma_len_subset, set_int_range};

use crate::random::random_index;

verus! {

/// How many distinct room codes exist: 26 to the 4th power.
pub const CODE_SPACE: u32 = 456976;

/// A room code: exactly four uppercase ASCII letters.
pub open spec fn is_valid_code(s: Seq<char>) -> bool {
    &&& s.len() == 4
    &&& forall|i: int| 0 <= i < s.len() ==> 'A' <= #[trigger] s[i] && s[i] <= 'Z'
}

/// Relies on std's `String::push`: appends the given character to the end
/// of the string.
pub assume_specification[ String::push ](s: &mut String, c: char)
    ensures
        final(s)@ == old(s)@.push(c),
;

/// The uppercase letter standing for a base-26 digit.
pub open spec fn spec_letter_of(d: u8) -> char {
    (65 + d) as char
}

/// Maps a base-26 digit to its uppercase letter.
pub fn letter_of(d: u8) -> (c: char)
    requires
        d < 26,
    ensures
        c == spec_letter_of(d),
        'A' <= c && c <= 'Z',
{
    (65 + d) as char
}

/// Produces a room code of exactly four uppercase alphabetic characters,
/// each drawn uniformly from the English alphabet. Global uniqueness is
/// the caller's concern, not this function's.
pub fn generate_room_code() -> (code: String)
    ensures
        is_valid_code(code@),
{
    let mut code = String::new();
    let mut j: usize = 0;
    while j < 4
        invariant
            j <= 4,
            code@.len() == j,
            forall|i: int| 0 <= i < j ==> 'A' <= #[trigger] code@[i] && code@[i] <= 'Z',
        decreases 4 - j,
    {
        let d = random_index(26);
        code.push(letter_of(d));
        j = j + 1;
    }
    code
}

/// The base-26 digit a code letter stands for.
pub open spec fn letter_index(c: char) -> int {
    c as int - 65
}

/// The code standing for an integer below `CODE_SPACE`, least-significant
/// letter first.
pub open spec fn code_of_int(n: int) -> Seq<char> {
    seq![
        spec_letter_of((n % 26) as u8),
        spec_letter_of(((n / 26) % 26) as u8),
        spec_letter_of(((n / 676) % 26) as u8),
        spec_letter_of(((n / 17576) % 26) as u8),
    ]
}

/// The integer a valid code stands for.
pub open spec fn int_of_code(s: Seq<char>) -> int {
    letter_index(s[0]) + 26 * letter_index(s[1]) + 676 * letter_index(s[2]) + 17576 * letter_index(
        s[3],
    )
}

/// The correspondence between codes and the integers below `CODE_SPACE` is
/// one-to-one: decoding the code built for `n` gives `n` back.
pub proof fn lemma_code_int_roundtrip(n: int)
    requires
        0 <= n < CODE_SPACE,
    ensures
        is_valid_code(code_of_int(n)),
        int_of_code(code_of_int(n)) == n,
{
    let q1 = n / 26;
    let q2 = n / 676;
    let q3 = n / 17576;
    lemma_mod_bound(n, 26);
    lemma_fundamental_div_mod(n, 26);
    lemma_div_pos_is_pos(n, 26);
    lemma_mod_bound(q1, 26);
    lemma_fundamental_div_mod(q1, 26);
    lemma_div_denominator(n, 26, 26);
    lemma_div_pos_is_pos(q1, 26);
    lemma_mod_bound(q2, 26);
    lemma_fundamental_div_mod(q2, 26);
    lemma_div_denominator(n, 676, 26);
    lemma_div_pos_is_pos(q2, 26);
    lemma_mod_bound(n, 17576);
    lemma_fundamental_div_mod(n, 17576);
    assert(q3 < 26);
    assert(q3 >= 0) by {
        lemma_div_pos_is_pos(n, 17576);
    }
    lemma_small_mod(q3 as nat, 26);
    assert(n == (n % 26) + 26 * (q1 % 26) + 676 * (q2 % 26) + 17576 * (q3 % 26));
}

/// Builds the code standing for `n`, for the bounded sweep of the code
/// space.
pub fn code_string_of(n: u32) -> (code: String)
    requires
        n < CODE_SPACE,
    ensures
        code@ == code_of_int(n as int),
        is_valid_code(code@),
{
    proof {
        lemma_code_int_roundtrip(n as int);
    }
    let d0 = (n % 26) as u8;
    let d1 = ((n / 26) % 26) as u8;
    let d2 = ((n / 676) % 26) as u8;
    let d3 = ((n / 17576) % 26) as u8;
    let mut code = String::new();
    code.push(letter_of(d0));
    code.push(letter_of(d1));
    code.push(letter_of(d2));
    code.push(letter_of(d3));
    proof {
        assert(code@ =~= code_of_int(n as int));
    }
    code
}

/// The pigeonhole fact behind total room creation: fewer than `CODE_SPACE`
/// taken codes cannot cover the whole code space, so the bounded sweep
/// always finds a free code.
pub proof fn lemma_free_code_exists(codes: Seq<Seq<char>>)
    requires
        codes.len() < CODE_SPACE,
    ensures
        exists|m: int| 0 <= m < CODE_SPACE && !codes.contains(code_of_int(m)),
{
    broadcast use seq_to_set_is_finite;

    assert_by_contradiction!(
        exists|m: int| 0 <= m < CODE_SPACE && !codes.contains(code_of_int(m)),
        {
            let ints = codes.map_values(|c: Seq<char>| int_of_code(c));
            assert forall|m: int| 0 <= m < CODE_SPACE implies ints.to_set().contains(m) by {
                assert(codes.contains(code_of_int(m)));
                let i = choose|i: int|
                    0 <= i < codes.len() && codes[i] == code_of_int(m);
                lemma_code_int_roundtrip(m);
                assert(ints[i] == m);
                assert(ints.contains(m));
            }
            assert(set_int_range(0, CODE_SPACE as int).subset_of(ints.to_set()));
            lemma_len_subset(set_int_range(0, CODE_SPACE as int), ints.to_set());
            ints.lemma_cardinality_of_set();
            lemma_int_range(0, CODE_SPACE as int);
        }
    );
}

} // verus!
