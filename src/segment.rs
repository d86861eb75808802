use vstd::prelude::*;

verus! {

/// `p` is a prefix of `t`.
pub open spec fn is_prefix<T>(p: Seq<T>, t: Seq<T>) -> bool {
    p.len() <= t.len() && t.take(p.len() as int) == p
}

/// The greatest `m` with `1 <= m <= n` such that the first `m` letters of `t`
/// form a key, or 0 when there is none.
pub open spec fn match_len_upto<T>(t: Seq<T>, keys: Set<Seq<T>>, n: int) -> nat
    decreases n,
{
    if n <= 0 {
        0
    } else if keys.contains(t.take(n)) {
        n as nat
    } else {
        match_len_upto(t, keys, n - 1)
    }
}

/// Length of the longest non-empty key that is a prefix of `t` (0: no key matches).
pub open spec fn longest_match_len<T>(t: Seq<T>, keys: Set<Seq<T>>) -> nat {
    match_len_upto(t, keys, t.len() as int)
}

/// Maximal-munch decomposition of `t[p..]`: at each cursor the longest matching
/// key is taken, until the end of `t` or a cursor where no key matches.
pub open spec fn munch_from<T>(t: Seq<T>, keys: Set<Seq<T>>, p: int) -> Seq<Seq<T>>
    decreases t.len() - p,
    via munch_from_decreases::<T>
{
    if p < 0 || p >= t.len() {
        Seq::empty()
    } else {
        let n = longest_match_len(t.skip(p), keys);
        if n == 0 {
            Seq::empty()
        } else {
            seq![t.subrange(p, p + n)] + munch_from(t, keys, p + n)
        }
    }
}

#[via_fn]
proof fn munch_from_decreases<T>(t: Seq<T>, keys: Set<Seq<T>>, p: int) {
    if 0 <= p < t.len() {
        lemma_match_len_bounded(t.skip(p), keys, t.len() - p);
    }
}

/// Maximal-munch decomposition of the whole of `t`.
pub open spec fn munch<T>(t: Seq<T>, keys: Set<Seq<T>>) -> Seq<Seq<T>> {
    munch_from(t, keys, 0)
}

/// The concatenation of `segs`, in order.
pub open spec fn joined<T>(segs: Seq<Seq<T>>) -> Seq<T>
    decreases segs.len(),
{
    if segs.len() == 0 {
        Seq::empty()
    } else {
        joined(segs.drop_last()) + segs.last()
    }
}

/// Segmentation of `t` against `keys`: the maximal-munch decomposition when it
/// covers `t`, else the first cursor at which no key matches.
pub open spec fn segmentation<T>(t: Seq<T>, keys: Set<Seq<T>>) -> Result<Seq<Seq<T>>, nat> {
    let segs = munch(t, keys);
    if joined(segs).len() == t.len() {
        Ok(segs)
    } else {
        Err(joined(segs).len())
    }
}

pub proof fn lemma_match_len_bounded<T>(t: Seq<T>, keys: Set<Seq<T>>, n: int)
    requires
        n <= t.len(),
    ensures
        match_len_upto(t, keys, n) <= if n < 0 { 0 } else { n },
        match_len_upto(t, keys, n) > 0 ==> keys.contains(t.take(match_len_upto(t, keys, n) as int)),
    decreases n,
{
    if n > 0 && !keys.contains(t.take(n)) {
        lemma_match_len_bounded(t, keys, n - 1);
    }
}

proof fn lemma_match_len_maximal<T>(t: Seq<T>, keys: Set<Seq<T>>, n: int, k: Seq<T>)
    requires
        n <= t.len(),
        keys.contains(k),
        0 < k.len() <= n,
        is_prefix(k, t),
    ensures
        k.len() <= match_len_upto(t, keys, n),
    decreases n,
{
    if !keys.contains(t.take(n)) {
        if k.len() == n {
            assert(t.take(n) == k);
        } else {
            lemma_match_len_maximal(t, keys, n - 1, k);
        }
    }
}

/// The longest match is a key that prefixes `t`, and no longer key does; it is 0
/// exactly when no non-empty key prefixes `t`.
pub proof fn lemma_longest_match<T>(t: Seq<T>, keys: Set<Seq<T>>)
    ensures
        longest_match_len(t, keys) <= t.len(),
        longest_match_len(t, keys) > 0 ==> keys.contains(t.take(longest_match_len(t, keys) as int)),
        forall|k: Seq<T>|
            keys.contains(k) && k.len() > 0 && is_prefix(k, t) ==> k.len() <= longest_match_len(t, keys),
{
    lemma_match_len_bounded(t, keys, t.len() as int);
    assert forall|k: Seq<T>| keys.contains(k) && k.len() > 0 && is_prefix(k, t) implies k.len()
        <= longest_match_len(t, keys) by {
        lemma_match_len_maximal(t, keys, t.len() as int, k);
    }
}


/// Concatenation distributes over appending sequences of subwords.
pub proof fn lemma_joined_concat<T>(a: Seq<Seq<T>>, b: Seq<Seq<T>>)
    ensures
        joined(a + b) == joined(a) + joined(b),
    decreases b.len(),
{
    if b.len() == 0 {
        assert(a + b =~= a);
        assert(joined(a) + joined(b) =~= joined(a));
    } else {
        assert((a + b).drop_last() =~= a + b.drop_last());
        lemma_joined_concat(a, b.drop_last());
        assert(joined(a + b) =~= joined(a) + joined(b));
    }
}

proof fn lemma_joined_single<T>(x: Seq<T>)
    ensures
        joined(seq![x]) == x,
{
    assert(seq![x].drop_last() =~= Seq::<Seq<T>>::empty());
    assert(joined(Seq::<Seq<T>>::empty()) == Seq::<T>::empty());
    assert(Seq::<T>::empty() + x =~= x);
}

/// The subwords taken from position `p` on are, end to end, the letters of `t`
/// from `p` up to where the decomposition stopped.
pub proof fn lemma_munch_from_joined<T>(t: Seq<T>, keys: Set<Seq<T>>, p: int)
    requires
        0 <= p <= t.len(),
    ensures
        p + joined(munch_from(t, keys, p)).len() <= t.len(),
        joined(munch_from(t, keys, p)) == t.subrange(p, p + joined(munch_from(t, keys, p)).len()),
    decreases t.len() - p,
{
    let m = munch_from(t, keys, p);
    if p < t.len() {
        let n = longest_match_len(t.skip(p), keys);
        lemma_longest_match(t.skip(p), keys);
        if n > 0 {
            let piece = t.subrange(p, p + n);
            let rest = munch_from(t, keys, p + n);
            lemma_munch_from_joined(t, keys, p + n);
            lemma_joined_concat(seq![piece], rest);
            lemma_joined_single(piece);
            assert(joined(m) =~= t.subrange(p, p + joined(m).len()));
        } else {
            assert(joined(m) =~= t.subrange(p, p));
        }
    } else {
        assert(joined(m) =~= t.subrange(p, p));
    }
}

/// A successful segmentation reproduces the segmented word exactly.
pub proof fn lemma_segmentation_joined<T>(t: Seq<T>, keys: Set<Seq<T>>)
    ensures
        segmentation(t, keys) is Ok ==> joined(segmentation(t, keys)->Ok_0) == t,
        segmentation(t, keys) is Err ==> segmentation(t, keys)->Err_0 < t.len(),
{
    lemma_munch_from_joined(t, keys, 0);
    assert(t.subrange(0, t.len() as int) =~= t);
}

/// Maximal munch at every step: each subword taken from position `p` on is a
/// key that prefixes the rest of `t` where it starts, and no longer key does.
#[verifier::rlimit(50)]
pub proof fn lemma_munch_from_longest<T>(t: Seq<T>, keys: Set<Seq<T>>, p: int)
    requires
        0 <= p <= t.len(),
    ensures
        forall|i: int|
            #![trigger munch_from(t, keys, p)[i]]
            0 <= i < munch_from(t, keys, p).len() ==> {
                let segs = munch_from(t, keys, p);
                let off = p + joined(segs.take(i)).len();
                &&& segs[i].len() > 0
                &&& keys.contains(segs[i])
                &&& 0 <= off <= t.len()
                &&& is_prefix(segs[i], t.skip(off))
                &&& forall|k: Seq<T>|
                    keys.contains(k) && k.len() > 0 && is_prefix(k, t.skip(off)) ==> k.len()
                        <= segs[i].len()
            },
    decreases t.len() - p,
{
    let segs = munch_from(t, keys, p);
    if p < t.len() {
        let n = longest_match_len(t.skip(p), keys);
        lemma_longest_match(t.skip(p), keys);
        if n > 0 {
            let piece = t.subrange(p, p + n);
            let rest = munch_from(t, keys, p + n);
            lemma_munch_from_longest(t, keys, p + n);
            assert forall|i: int|
                #![trigger munch_from(t, keys, p)[i]]
                0 <= i < segs.len() implies {
                let off = p + joined(segs.take(i)).len();
                &&& segs[i].len() > 0
                &&& keys.contains(segs[i])
                &&& 0 <= off <= t.len()
                &&& is_prefix(segs[i], t.skip(off))
                &&& forall|k: Seq<T>|
                    keys.contains(k) && k.len() > 0 && is_prefix(k, t.skip(off)) ==> k.len()
                        <= segs[i].len()
            } by {
                if i == 0 {
                    assert(segs.take(0) =~= Seq::<Seq<T>>::empty());
                    assert(piece =~= t.skip(p).take(n as int));
                } else {
                    assert(segs[i] == rest[i - 1]);
                    assert(segs.take(i) =~= seq![piece] + rest.take(i - 1));
                    lemma_joined_concat(seq![piece], rest.take(i - 1));
                    lemma_joined_single(piece);
                }
            }
        }
    }
}

/// Each subword of the maximal-munch decomposition of `t` is the longest key
/// that prefixes `t` at the subword's start; no shorter key is chosen where a
/// longer one matches.
pub proof fn lemma_longest_match_property<T>(t: Seq<T>, keys: Set<Seq<T>>)
    ensures
        forall|i: int|
            #![trigger munch(t, keys)[i]]
            0 <= i < munch(t, keys).len() ==> {
                let segs = munch(t, keys);
                let off = joined(segs.take(i)).len() as int;
                &&& segs[i].len() > 0
                &&& keys.contains(segs[i])
                &&& off <= t.len()
                &&& is_prefix(segs[i], t.skip(off))
                &&& forall|k: Seq<T>|
                    keys.contains(k) && k.len() > 0 && is_prefix(k, t.skip(off)) ==> k.len()
                        <= segs[i].len()
            },
{
    lemma_munch_from_longest(t, keys, 0);
}

/// Where every letter of `t` is itself a key, segmentation succeeds and its
/// subwords, end to end, are `t`.
pub proof fn lemma_coverage<T>(t: Seq<T>, keys: Set<Seq<T>>)
    requires
        forall|i: int| 0 <= i < t.len() ==> keys.contains(seq![t[i]]),
    ensures
        segmentation(t, keys) is Ok,
        joined(segmentation(t, keys)->Ok_0) == t,
{
    lemma_munch_covers(t, keys, 0);
    lemma_segmentation_joined(t, keys);
}

proof fn lemma_munch_covers<T>(t: Seq<T>, keys: Set<Seq<T>>, p: int)
    requires
        0 <= p <= t.len(),
        forall|i: int| 0 <= i < t.len() ==> keys.contains(seq![t[i]]),
    ensures
        joined(munch_from(t, keys, p)).len() == t.len() - p,
    decreases t.len() - p,
{
    let m = munch_from(t, keys, p);
    if p < t.len() {
        let s = t.skip(p);
        lemma_longest_match(s, keys);
        assert(s.take(1) =~= seq![t[p]]);
        assert(is_prefix(seq![t[p]], s));
        let n = longest_match_len(s, keys);
        assert(n >= 1);
        let piece = t.subrange(p, p + n);
        lemma_munch_covers(t, keys, p + n);
        lemma_joined_concat(seq![piece], munch_from(t, keys, p + n));
        lemma_joined_single(piece);
    } else {
        assert(m.len() == 0);
    }
}


/// Where every key is a single letter and every letter of `t` is a key,
/// segmentation takes `t` letter by letter.
pub proof fn lemma_single_letter_keys<T>(t: Seq<T>, keys: Set<Seq<T>>)
    requires
        forall|k: Seq<T>| #[trigger] keys.contains(k) ==> k.len() == 1,
        forall|i: int| 0 <= i < t.len() ==> keys.contains(seq![t[i]]),
    ensures
        segmentation(t, keys) == Ok::<Seq<Seq<T>>, nat>(t.map_values(|x: T| seq![x])),
{
    lemma_munch_single_letters(t, keys, 0);
    assert(t.skip(0) =~= t);
    lemma_coverage(t, keys);
}

proof fn lemma_munch_single_letters<T>(t: Seq<T>, keys: Set<Seq<T>>, p: int)
    requires
        0 <= p <= t.len(),
        forall|k: Seq<T>| #[trigger] keys.contains(k) ==> k.len() == 1,
        forall|i: int| 0 <= i < t.len() ==> keys.contains(seq![t[i]]),
    ensures
        munch_from(t, keys, p) == t.skip(p).map_values(|x: T| seq![x]),
    decreases t.len() - p,
{
    if p < t.len() {
        let s = t.skip(p);
        lemma_longest_match(s, keys);
        assert(s.take(1) =~= seq![t[p]]);
        let n = longest_match_len(s, keys);
        assert(n >= 1);
        assert(keys.contains(s.take(n as int)));
        assert(n == 1);
        lemma_munch_single_letters(t, keys, p + 1);
        assert(t.subrange(p, p + 1) =~= seq![t[p]]);
        assert(t.skip(p).map_values(|x: T| seq![x]) =~= seq![seq![t[p]]] + t.skip(p + 1).map_values(
            |x: T| seq![x],
        ));
    } else {
        assert(t.skip(p).map_values(|x: T| seq![x]) =~= Seq::<Seq<T>>::empty());
    }
}

} // verus!
