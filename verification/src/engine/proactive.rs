//! Proactive rotation: round-robin over the usable subset.

use vstd::arithmetic::div_mod::{
    lemma_fundamental_div_mod, lemma_fundamental_div_mod_converse, lemma_mod_add_multiples_vanish,
};
use vstd::prelude::*;

use crate::order::texts;

verus! {

/// Where a cursor points in a list of `n` keys.
pub open spec fn turn(cursor: int, n: int) -> int {
    cursor % n
}

/// The cursor after one more pick; it starts over past its end.
pub open spec fn advanced(cursor: usize) -> usize {
    if cursor < usize::MAX {
        (cursor + 1) as usize
    } else {
        0
    }
}

/// Advances the cursor and maps it onto the usable key list.
///
/// The cursor is shared by all callers and only moves forward, so that they
/// spread across the pool.
pub fn pick(cursor: &mut usize, usable: &Vec<String>) -> (r: String)
    requires
        usable.len() > 0,
    ensures
        r@ == texts(usable@)[turn(*old(cursor) as int, usable.len() as int)],
        *final(cursor) == advanced(*old(cursor)),
{
    let index: usize = *cursor % usable.len();
    *cursor = cursor.wrapping_add(1);
    usable[index].clone()
}

/// Load spreads evenly: `n` picks in a row over `n` keys take each key exactly
/// once, and the next pick takes the first of them again.
pub proof fn law_each_key_takes_its_turn(cursor: int, n: int, index: int)
    requires
        n > 0,
        0 <= index < n,
        cursor >= 0,
    ensures
        exists|step: int| 0 <= step < n && #[trigger] turn(cursor + step, n) == index,
        forall|a: int, b: int|
            0 <= a < b < n ==> #[trigger] turn(cursor + a, n) != #[trigger] turn(cursor + b, n),
        turn(cursor + n, n) == turn(cursor, n),
{
    let start = cursor % n;
    assert forall|k: int| 0 <= k < n implies #[trigger] turn(cursor + k, n) == (if start + k < n {
        start + k
    } else {
        start + k - n
    }) by {
        lemma_fundamental_div_mod(cursor, n);
        let q = cursor / n;
        if start + k < n {
            assert(cursor + k == q * n + (start + k)) by (nonlinear_arith)
                requires
                    cursor == n * q + start,
            ;
            lemma_fundamental_div_mod_converse(cursor + k, n, q, start + k);
        } else {
            assert(cursor + k == (q + 1) * n + (start + k - n)) by (nonlinear_arith)
                requires
                    cursor == n * q + start,
            ;
            lemma_fundamental_div_mod_converse(cursor + k, n, q + 1, start + k - n);
        }
    }
    let step = if index >= start {
        index - start
    } else {
        index - start + n
    };
    assert(turn(cursor + step, n) == index);
    lemma_mod_add_multiples_vanish(cursor, n);
}

/// Turns go round in order: the first are taken from the front, and each is
/// followed by the next place, or after the last by the first.
pub proof fn law_turns_go_round_in_order(cursor: int, n: int)
    requires
        n > 0,
        cursor >= 0,
    ensures
        cursor < n ==> turn(cursor, n) == cursor,
        turn(cursor, n) + 1 < n ==> turn(cursor + 1, n) == turn(cursor, n) + 1,
        turn(cursor, n) + 1 == n ==> turn(cursor + 1, n) == 0,
        0 <= turn(cursor, n) < n,
        forall|c: usize| c < usize::MAX ==> #[trigger] advanced(c) == c + 1,
        advanced(usize::MAX) == 0,
{
    let start = turn(cursor, n);
    lemma_fundamental_div_mod(cursor, n);
    let q = cursor / n;
    if cursor < n {
        lemma_fundamental_div_mod_converse(cursor, n, 0, cursor);
    }
    if start + 1 < n {
        assert(cursor + 1 == q * n + (start + 1)) by (nonlinear_arith)
            requires
                cursor == n * q + start,
        ;
        lemma_fundamental_div_mod_converse(cursor + 1, n, q, start + 1);
    } else {
        assert(cursor + 1 == (q + 1) * n + 0) by (nonlinear_arith)
            requires
                cursor == n * q + start,
                start + 1 == n,
        ;
        lemma_fundamental_div_mod_converse(cursor + 1, n, q + 1, 0);
    }
}

} // verus!
