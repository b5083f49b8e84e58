//! Reactive rotation: sticky failover, aware of concurrency.
//!
//! One key is the "primary" and serves every request until it becomes
//! unusable (429 cooldown / 401 ban / quota window exhausted) **or**
//! concurrency-saturated. Saturation does not demote the primary: overflow
//! merely *spills* to the next available key while the primary keeps its
//! sticky role, so traffic splits across keys instead of queueing behind a
//! rate-limit error.

use vstd::prelude::*;

use crate::order::texts;
use crate::text::{same_text, text_of};

verus! {

/// The first id that is not full.
pub open spec fn first_free(ids: Seq<Seq<char>>, full: Set<Seq<char>>) -> Option<Seq<char>>
    decreases ids.len(),
{
    if ids.len() == 0 {
        None
    } else if !full.contains(ids[0]) {
        Some(ids[0])
    } else {
        first_free(ids.drop_first(), full)
    }
}

/// Whether the primary is among the usable ids.
pub open spec fn in_office(primary: Option<Seq<char>>, ids: Seq<Seq<char>>) -> bool {
    primary matches Some(current) && ids.contains(current)
}

/// The id that serves the next request: the primary while it is usable and has
/// capacity, else the first usable id with capacity.
pub open spec fn chosen(
    primary: Option<Seq<char>>,
    ids: Seq<Seq<char>>,
    full: Set<Seq<char>>,
) -> Option<Seq<char>> {
    if in_office(primary, ids) && !full.contains(primary->0) {
        primary
    } else {
        first_free(ids, full)
    }
}

/// The primary after that choice: the one that was chosen, if the old one is
/// not usable any more.
pub open spec fn promoted(
    primary: Option<Seq<char>>,
    ids: Seq<Seq<char>>,
    full: Set<Seq<char>>,
) -> Option<Seq<char>> {
    if in_office(primary, ids) || first_free(ids, full) is None {
        primary
    } else {
        first_free(ids, full)
    }
}

/// The ids whose flag is set.
pub open spec fn flagged(ids: Seq<Seq<char>>, flags: Seq<bool>) -> Set<Seq<char>> {
    Set::new(|id: Seq<char>| exists|i: int| 0 <= i < ids.len() && #[trigger] ids[i] == id && flags[i])
}

/// The place of `id` among `ids`.
fn place_of(ids: &Vec<String>, id: &str) -> (r: Option<usize>)
    ensures
        match r {
            Some(i) => i < ids.len() && texts(ids@)[i as int] == id@,
            None => !texts(ids@).contains(id@),
        },
{
    let mut i: usize = 0;
    while i < ids.len()
        invariant
            i <= ids.len(),
            forall|k: int| 0 <= k < i ==> #[trigger] texts(ids@)[k] != id@,
        decreases ids.len() - i,
    {
        if same_text(ids[i].as_str(), id) {
            return Some(i);
        }
        i = i + 1;
    }
    None
}

/// Picks a key from `usable` (health and rate-window filtered, in stable
/// order); `saturated` tells of each whether it is concurrency-saturated.
/// Returns `None` when every usable key is saturated.
pub fn pick(primary: &mut Option<String>, usable: &Vec<String>, saturated: &Vec<bool>) -> (r: Option<
    String,
>)
    requires
        saturated.len() == usable.len(),
        forall|i: int, j: int|
            0 <= i < j < usable.len() ==> #[trigger] usable[i]@ != #[trigger] usable[j]@,
    ensures
        ({
            let ids = texts(usable@);
            let full = flagged(ids, saturated@);
            &&& text_of(r) == chosen(text_of(*old(primary)), ids, full)
            &&& text_of(*final(primary)) == promoted(text_of(*old(primary)), ids, full)
        }),
{
    let ghost ids = texts(usable@);
    let ghost full = flagged(ids, saturated@);
    let ghost before = text_of(*primary);
    assert forall|i: int| 0 <= i < ids.len() implies full.contains(#[trigger] ids[i])
        == saturated[i] by {
        assert(ids[i] == usable[i]@);
        if full.contains(ids[i]) {
            let j = choose|j: int|
                0 <= j < ids.len() && #[trigger] ids[j] == ids[i] && saturated[j];
            assert(ids[j] == usable[j]@);
        }
    }
    let place: Option<usize> = match primary {
        Some(current) => place_of(usable, current.as_str()),
        None => None,
    };
    if let Some(at) = place {
        if !saturated[at] {
            return Some(usable[at].clone());
        }
    }
    let mut i: usize = 0;
    assert(ids.skip(0) =~= ids);
    while i < usable.len() && saturated[i]
        invariant
            i <= usable.len(),
            saturated.len() == usable.len(),
            ids == texts(usable@),
            forall|k: int| 0 <= k < ids.len() ==> full.contains(#[trigger] ids[k]) == saturated[k],
            first_free(ids.skip(i as int), full) == first_free(ids, full),
        decreases usable.len() - i,
    {
        assert(full.contains(ids[i as int]));
        assert(ids.skip(i as int)[0] == ids[i as int]);
        assert(ids.skip(i as int).drop_first() =~= ids.skip(i + 1));
        i = i + 1;
    }
    if i == usable.len() {
        return None;
    }
    assert(full.contains(ids[i as int]) == saturated[i as int]);
    assert(ids.skip(i as int)[0] == ids[i as int]);
    let next: String = usable[i].clone();
    if place.is_none() {
        *primary = Some(next.clone());
    }
    Some(next)
}

/// A usable primary with capacity serves every request and stays primary.
pub proof fn law_primary_is_sticky(
    current: Seq<char>,
    ids: Seq<Seq<char>>,
    full: Set<Seq<char>>,
)
    requires
        ids.contains(current),
        !full.contains(current),
    ensures
        chosen(Some(current), ids, full) == Some(current),
        promoted(Some(current), ids, full) == Some(current),
{
}

/// A saturated primary keeps its role: the request spills to another key, or
/// to none where all are saturated.
pub proof fn law_saturated_primary_keeps_its_role(
    current: Seq<char>,
    ids: Seq<Seq<char>>,
    full: Set<Seq<char>>,
)
    requires
        ids.contains(current),
        full.contains(current),
    ensures
        promoted(Some(current), ids, full) == Some(current),
        chosen(Some(current), ids, full) != Some(current),
{
    law_choice_has_capacity(Some(current), ids, full);
}

/// A choice is made whenever a usable key has capacity, and only a usable key
/// with capacity is chosen.
pub proof fn law_choice_has_capacity(
    primary: Option<Seq<char>>,
    ids: Seq<Seq<char>>,
    full: Set<Seq<char>>,
)
    ensures
        chosen(primary, ids, full) matches Some(id) ==> ids.contains(id) && !full.contains(id),
        chosen(primary, ids, full) is None ==> forall|i: int|
            0 <= i < ids.len() ==> full.contains(#[trigger] ids[i]),
{
    lemma_first_free(ids, full);
}

proof fn lemma_first_free(ids: Seq<Seq<char>>, full: Set<Seq<char>>)
    ensures
        first_free(ids, full) matches Some(id) ==> ids.contains(id) && !full.contains(id),
        first_free(ids, full) is None ==> forall|i: int|
            0 <= i < ids.len() ==> full.contains(#[trigger] ids[i]),
    decreases ids.len(),
{
    if ids.len() > 0 {
        if full.contains(ids[0]) {
            let rest = ids.drop_first();
            lemma_first_free(rest, full);
            if first_free(rest, full) is Some {
                let i = choose|i: int| 0 <= i < rest.len() && rest[i] == first_free(rest, full)->0;
                assert(ids[i + 1] == rest[i]);
            } else {
                assert forall|i: int| 0 <= i < ids.len() implies full.contains(
                    #[trigger] ids[i],
                ) by {
                    if i > 0 {
                        assert(rest[i - 1] == ids[i]);
                    }
                }
            }
        } else {
            assert(ids.contains(ids[0]));
        }
    }
}

/// An unusable primary is replaced by the key that serves in its place.
pub proof fn law_failover_promotes(
    primary: Option<Seq<char>>,
    ids: Seq<Seq<char>>,
    full: Set<Seq<char>>,
)
    requires
        !in_office(primary, ids),
        chosen(primary, ids, full) is Some,
    ensures
        promoted(primary, ids, full) == chosen(primary, ids, full),
{
}

/// The first key with capacity is the first: every one ahead of it is full.
pub proof fn law_first_free_is_first(ids: Seq<Seq<char>>, full: Set<Seq<char>>)
    ensures
        first_free(ids, full) matches Some(id) ==> !full.contains(id) && exists|k: int|
            0 <= k < ids.len() && #[trigger] ids[k] == id && forall|j: int|
                0 <= j < k ==> full.contains(#[trigger] ids[j]),
        first_free(ids, full) is None <==> forall|j: int|
            0 <= j < ids.len() ==> full.contains(#[trigger] ids[j]),
    decreases ids.len(),
{
    lemma_first_free(ids, full);
    if ids.len() > 0 {
        if full.contains(ids[0]) {
            let rest = ids.drop_first();
            law_first_free_is_first(rest, full);
            if let Some(id) = first_free(rest, full) {
                let k = choose|k: int|
                    0 <= k < rest.len() && #[trigger] rest[k] == id && forall|j: int|
                        0 <= j < k ==> full.contains(#[trigger] rest[j]);
                assert(ids[k + 1] == id);
                assert forall|j: int| 0 <= j < k + 1 implies full.contains(#[trigger] ids[j]) by {
                    if j > 0 {
                        assert(rest[j - 1] == ids[j]);
                    }
                }
            }
        } else {
            assert(ids[0] == first_free(ids, full)->0);
        }
    }
}

/// Among distinct ids, those are full that are marked so.
pub proof fn law_marked_ids_are_full(ids: Seq<Seq<char>>, flags: Seq<bool>, i: int)
    requires
        ids.no_duplicates(),
        flags.len() == ids.len(),
        0 <= i < ids.len(),
    ensures
        flagged(ids, flags).contains(ids[i]) <==> flags[i],
        forall|id: Seq<char>| #[trigger] flagged(ids, flags).contains(id) ==> ids.contains(id),
{
}

} // verus!
