use vstd::prelude::*;

use crate::dictionary::EntryView;
use crate::error::RewriteError;
use crate::segment::{joined, lemma_segmentation_joined, lemma_single_letter_keys, segmentation};
use crate::semantics::{Action, Payload};

verus! {

/// What one matched subword becomes: its entry's replacement, if it has one,
/// else the subword itself.
pub open spec fn rewrite_piece<T, A>(d: Map<Seq<T>, EntryView<T, A>>, s: Seq<T>) -> Seq<T> {
    if d.contains_key(s) && d[s].replacement is Some {
        d[s].replacement->Some_0
    } else {
        s
    }
}

/// The rewritten subwords, concatenated in order.
pub open spec fn rewrite_all<T, A>(d: Map<Seq<T>, EntryView<T, A>>, segs: Seq<Seq<T>>) -> Seq<T>
    decreases segs.len(),
{
    if segs.len() == 0 {
        Seq::empty()
    } else {
        rewrite_all(d, segs.drop_last()) + rewrite_piece(d, segs.last())
    }
}

/// One rewrite step: segment `t` against the keys of `d`, then rewrite each
/// subword; fails where the segmentation fails.
pub open spec fn next_generation<T, A>(t: Seq<T>, d: Map<Seq<T>, EntryView<T, A>>) -> Result<
    Seq<T>,
    RewriteError,
> {
    match segmentation(t, d.dom()) {
        Ok(segs) => Ok(rewrite_all(d, segs)),
        Err(p) => Err(RewriteError::NoMatchAtPosition { position: p as usize }),
    }
}

/// The word after `k` rewrite steps from `start`.
pub open spec fn generation<T, A>(d: Map<Seq<T>, EntryView<T, A>>, start: Seq<T>, k: nat) -> Result<
    Seq<T>,
    RewriteError,
>
    decreases k,
{
    if k == 0 {
        Ok(start)
    } else {
        match generation(d, start, (k - 1) as nat) {
            Ok(w) => next_generation(w, d),
            Err(e) => Err(e),
        }
    }
}

/// The payload after the action of the entry of `s`, if it has one.
pub open spec fn perform<T, A: Action<T, P>, P: Payload>(
    d: Map<Seq<T>, EntryView<T, A>>,
    s: Seq<T>,
    p: P::V,
) -> P::V {
    if d.contains_key(s) && d[s].semantics is Some {
        d[s].semantics->Some_0.effect(s, p)
    } else {
        p
    }
}

/// The payload after the actions of `segs`, run from left to right.
pub open spec fn perform_all<T, A: Action<T, P>, P: Payload>(
    d: Map<Seq<T>, EntryView<T, A>>,
    segs: Seq<Seq<T>>,
    p: P::V,
) -> P::V
    decreases segs.len(),
{
    if segs.len() == 0 {
        p
    } else {
        perform::<T, A, P>(d, segs.last(), perform_all::<T, A, P>(d, segs.drop_last(), p))
    }
}


proof fn lemma_rewrite_all_identity<T, A>(d: Map<Seq<T>, EntryView<T, A>>, segs: Seq<Seq<T>>)
    requires
        forall|k: Seq<T>| #[trigger] d.contains_key(k) ==> d[k].replacement is None,
    ensures
        rewrite_all(d, segs) == joined(segs),
    decreases segs.len(),
{
    if segs.len() > 0 {
        lemma_rewrite_all_identity(d, segs.drop_last());
    }
}

/// A dictionary without replacements rewrites every word it can segment to
/// itself, and fails exactly where the segmentation fails.
pub proof fn lemma_identity_rewrite<T, A>(t: Seq<T>, d: Map<Seq<T>, EntryView<T, A>>)
    requires
        forall|k: Seq<T>| #[trigger] d.contains_key(k) ==> d[k].replacement is None,
    ensures
        next_generation(t, d) == match segmentation(t, d.dom()) {
            Ok(_) => Ok(t),
            Err(p) => Err(RewriteError::NoMatchAtPosition { position: p as usize }),
        },
{
    lemma_segmentation_joined(t, d.dom());
    if segmentation(t, d.dom()) is Ok {
        lemma_rewrite_all_identity(d, segmentation(t, d.dom())->Ok_0);
    }
}

/// Of two entries inserted under one key, only the second remains: the
/// dictionary is as if the first had never been inserted.
pub proof fn lemma_last_write_wins<T, A>(
    d: Map<Seq<T>, EntryView<T, A>>,
    key: Seq<T>,
    first: EntryView<T, A>,
    second: EntryView<T, A>,
)
    ensures
        d.insert(key, first).insert(key, second) == d.insert(key, second),
        d.insert(key, first).insert(key, second)[key] == second,
{
    assert(d.insert(key, first).insert(key, second) =~= d.insert(key, second));
}


/// How many letters of `t` are `f`.
pub open spec fn count_of<T>(t: Seq<T>, f: T) -> nat
    decreases t.len(),
{
    if t.len() == 0 {
        0
    } else {
        count_of(t.drop_last(), f) + if t.last() == f {
            1nat
        } else {
            0nat
        }
    }
}

proof fn lemma_rewrite_letters_len<T, A>(d: Map<Seq<T>, EntryView<T, A>>, t: Seq<T>, f: T, r: Seq<T>)
    requires
        d.contains_key(seq![f]),
        d[seq![f]].replacement == Some(r),
        forall|k: Seq<T>| #[trigger] d.contains_key(k) && k != seq![f] ==> d[k].replacement is None,
    ensures
        rewrite_all(d, t.map_values(|x: T| seq![x])).len() == r.len() * count_of(t, f) + (t.len()
            - count_of(t, f)),
        count_of(t, f) <= t.len(),
    decreases t.len(),
{
    if t.len() > 0 {
        let u = t.drop_last();
        lemma_rewrite_letters_len(d, u, f, r);
        let m = t.map_values(|x: T| seq![x]);
        assert(m.drop_last() =~= u.map_values(|x: T| seq![x]));
        assert(m.last() == seq![t.last()]);
        let c = count_of(u, f);
        let before = rewrite_all(d, u.map_values(|x: T| seq![x]));
        assert(rewrite_all(d, m) == before + rewrite_piece(d, seq![t.last()]));
        if t.last() == f {
            assert(rewrite_piece(d, seq![t.last()]) == r);
            assert(r.len() * (c + 1) == r.len() * c + r.len()) by (nonlinear_arith);
        } else {
            assert(seq![t.last()] != seq![f]) by {
                assert(seq![t.last()][0] != seq![f][0]);
            }
            assert(rewrite_piece(d, seq![t.last()]) == seq![t.last()]);
        }
    } else {
        assert(r.len() * 0 == 0) by (nonlinear_arith);
    }
}

/// Every letter of `t` is, as a word of one letter, a key of `d`.
pub open spec fn letters_are_keys<T, A>(t: Seq<T>, d: Map<Seq<T>, EntryView<T, A>>) -> bool {
    forall|i: int| 0 <= i < t.len() ==> d.contains_key(seq![t[i]])
}

proof fn lemma_rewrite_letters_keys<T, A>(d: Map<Seq<T>, EntryView<T, A>>, t: Seq<T>, f: T, r: Seq<T>)
    requires
        letters_are_keys(r, d),
        d.contains_key(seq![f]),
        d[seq![f]].replacement == Some(r),
        forall|k: Seq<T>| #[trigger] d.contains_key(k) && k != seq![f] ==> d[k].replacement is None,
        letters_are_keys(t, d),
    ensures
        letters_are_keys(rewrite_all(d, t.map_values(|x: T| seq![x])), d),
    decreases t.len(),
{
    if t.len() > 0 {
        let u = t.drop_last();
        lemma_rewrite_letters_keys(d, u, f, r);
        let m = t.map_values(|x: T| seq![x]);
        assert(m.drop_last() =~= u.map_values(|x: T| seq![x]));
        assert(m.last() == seq![t.last()]);
        let before = rewrite_all(d, u.map_values(|x: T| seq![x]));
        let piece = rewrite_piece(d, seq![t.last()]);
        assert(rewrite_all(d, m) == before + piece);
        assert(d.contains_key(seq![t[t.len() - 1]]));
        assert(letters_are_keys(piece, d)) by {
            if seq![t.last()] != seq![f] {
                assert(piece == seq![t.last()]);
            }
        }
        assert forall|i: int| 0 <= i < (before + piece).len() implies d.contains_key(
            seq![(before + piece)[i]],
        ) by {
            if i >= before.len() {
                assert((before + piece)[i] == piece[i - before.len()]);
            }
        }
    }
}

/// Growth under one context-free rule over every generation: where every key
/// is a single letter, only `f` has a replacement `r`, and the letters of the
/// starting word and of `r` are keys, every generation exists, and generation
/// `k + 1` has `|r|` letters for each `f` of generation `k` and one for every
/// other letter.
pub proof fn lemma_single_rule_generations<T, A>(
    d: Map<Seq<T>, EntryView<T, A>>,
    start: Seq<T>,
    f: T,
    r: Seq<T>,
    k: nat,
)
    requires
        forall|q: Seq<T>| #[trigger] d.contains_key(q) ==> q.len() == 1,
        letters_are_keys(start, d),
        letters_are_keys(r, d),
        d.contains_key(seq![f]),
        d[seq![f]].replacement == Some(r),
        forall|q: Seq<T>| #[trigger] d.contains_key(q) && q != seq![f] ==> d[q].replacement is None,
    ensures
        generation(d, start, k) is Ok,
        letters_are_keys(generation(d, start, k)->Ok_0, d),
        generation(d, start, k + 1) is Ok,
        generation(d, start, k + 1)->Ok_0.len() == r.len() * count_of(
            generation(d, start, k)->Ok_0,
            f,
        ) + (generation(d, start, k)->Ok_0.len() - count_of(generation(d, start, k)->Ok_0, f)),
    decreases k,
{
    if k > 0 {
        lemma_single_rule_generations(d, start, f, r, (k - 1) as nat);
        let prev = generation(d, start, (k - 1) as nat)->Ok_0;
        lemma_single_letter_keys(prev, d.dom());
        lemma_rewrite_letters_keys(d, prev, f, r);
    }
    let w = generation(d, start, k)->Ok_0;
    lemma_single_rule_growth(w, d, f, r);
    assert(generation(d, start, k + 1) == next_generation(w, d));
}

/// Growth under one context-free rule: where every key is a single letter,
/// every letter of `t` is a key, and only `f` has a replacement `r`, the next
/// generation has `|r|` letters for each `f` of `t` and one for every other
/// letter.
pub proof fn lemma_single_rule_growth<T, A>(
    t: Seq<T>,
    d: Map<Seq<T>, EntryView<T, A>>,
    f: T,
    r: Seq<T>,
)
    requires
        forall|k: Seq<T>| #[trigger] d.contains_key(k) ==> k.len() == 1,
        forall|i: int| 0 <= i < t.len() ==> d.contains_key(seq![t[i]]),
        d.contains_key(seq![f]),
        d[seq![f]].replacement == Some(r),
        forall|k: Seq<T>| #[trigger] d.contains_key(k) && k != seq![f] ==> d[k].replacement is None,
    ensures
        next_generation(t, d) is Ok,
        next_generation(t, d)->Ok_0.len() == r.len() * count_of(t, f) + (t.len() - count_of(t, f)),
{
    lemma_single_letter_keys(t, d.dom());
    lemma_rewrite_letters_len(d, t, f, r);
}

} // verus!
