//! The "most recently mentioned last" list: a stream of mentions is folded
//! into a list without duplicates, where mentioning an item again moves it
//! to the end. This module defines that fold and proves what it keeps.

use vstd::prelude::*;

verus! {

/// `s` with every occurrence of `x` taken out.
pub open spec fn without<A>(s: Seq<A>, x: A) -> Seq<A>
    decreases s.len(),
{
    if s.len() == 0 {
        s
    } else if s.last() == x {
        without(s.drop_last(), x)
    } else {
        without(s.drop_last(), x).push(s.last())
    }
}

/// One mention of `x`: it leaves its old place, if any, and goes last.
pub open spec fn move_to_end<A>(s: Seq<A>, x: A) -> Seq<A> {
    without(s, x).push(x)
}

/// `acc` after the mentions `xs`, taken in order.
pub open spec fn absorb<A>(acc: Seq<A>, xs: Seq<A>) -> Seq<A>
    decreases xs.len(),
{
    if xs.len() == 0 {
        acc
    } else {
        move_to_end(absorb(acc, xs.drop_last()), xs.last())
    }
}

/// The distinct items of `xs`, ordered by their last mention.
pub open spec fn latest_mentions<A>(xs: Seq<A>) -> Seq<A> {
    absorb(Seq::empty(), xs)
}

/// The index of the last occurrence of `x` in `xs`, or `-1`.
pub open spec fn last_position<A>(xs: Seq<A>, x: A) -> int
    decreases xs.len(),
{
    if xs.len() == 0 {
        -1
    } else if xs.last() == x {
        xs.len() - 1
    } else {
        last_position(xs.drop_last(), x)
    }
}

/// Every pair of positions in `s` is in increasing `key` order.
pub open spec fn ordered_by<A>(s: Seq<A>, key: spec_fn(A) -> int) -> bool {
    forall|i: int, j: int| 0 <= i < j < s.len() ==> key(#[trigger] s[i]) < key(#[trigger] s[j])
}

// ---------------------------------------------------------------------------
// Facts about `without`
pub proof fn lemma_without_contains<A>(s: Seq<A>, x: A, z: A)
    ensures
        without(s, x).contains(z) <==> (s.contains(z) && z != x),
    decreases s.len(),
{
    if s.len() > 0 {
        let t = s.drop_last();
        let y = s.last();
        lemma_without_contains(t, x, z);
        assert(s =~= t.push(y));
        lemma_push_contains(t, y, z);
        if y != x {
            lemma_push_contains(without(t, x), y, z);
        }
    }
}

/// What a sequence holds after one more item.
pub proof fn lemma_push_contains<A>(t: Seq<A>, y: A, z: A)
    ensures
        t.push(y).contains(z) <==> (t.contains(z) || z == y),
{
    if t.contains(z) {
        let k = choose|k: int| 0 <= k < t.len() && t[k] == z;
        assert(t.push(y)[k] == z);
    }
    if z == y {
        assert(t.push(y)[t.len() as int] == z);
    }
    if t.push(y).contains(z) && z != y {
        let k = choose|k: int| 0 <= k < t.push(y).len() && t.push(y)[k] == z;
        assert(t[k] == z);
    }
}

pub proof fn lemma_without_no_duplicates<A>(s: Seq<A>, x: A)
    requires
        s.no_duplicates(),
    ensures
        without(s, x).no_duplicates(),
    decreases s.len(),
{
    if s.len() > 0 {
        let t = s.drop_last();
        assert(t.no_duplicates());
        lemma_without_no_duplicates(t, x);
        if s.last() != x {
            lemma_without_contains(t, x, s.last());
            if t.contains(s.last()) {
                let k = choose|k: int| 0 <= k < t.len() && t[k] == s.last();
                assert(s[k] == s[s.len() - 1]);
            }
            let w = without(t, x);
            assert forall|i: int, j: int|
                0 <= i < w.len() + 1 && 0 <= j < w.len() + 1 && i != j implies w.push(
                s.last(),
            )[i] != w.push(s.last())[j] by {
                if i == w.len() {
                    assert(w[j] == w.push(s.last())[j]);
                } else if j == w.len() {
                    assert(w[i] == w.push(s.last())[i]);
                }
            }
        }
    }
}

pub proof fn lemma_without_absent<A>(s: Seq<A>, x: A)
    requires
        !s.contains(x),
    ensures
        without(s, x) == s,
    decreases s.len(),
{
    if s.len() > 0 {
        let t = s.drop_last();
        assert(!t.contains(x)) by {
            if t.contains(x) {
                let k = choose|k: int| 0 <= k < t.len() && t[k] == x;
                assert(s[k] == x);
            }
        }
        assert(s.last() != x) by {
            assert(s[s.len() - 1] == s.last());
        }
        lemma_without_absent(t, x);
        assert(t.push(s.last()) =~= s);
    }
}

pub proof fn lemma_without_twice<A>(s: Seq<A>, x: A)
    ensures
        without(without(s, x), x) == without(s, x),
{
    lemma_without_contains(s, x, x);
    lemma_without_absent(without(s, x), x);
}

pub proof fn lemma_without_commutes<A>(s: Seq<A>, x: A, y: A)
    ensures
        without(without(s, x), y) == without(without(s, y), x),
    decreases s.len(),
{
    if s.len() > 0 {
        let t = s.drop_last();
        lemma_without_commutes(t, x, y);
        let z = s.last();
        if z != x {
            assert(without(t, x).push(z).drop_last() =~= without(t, x));
        }
        if z != y {
            assert(without(t, y).push(z).drop_last() =~= without(t, y));
        }
    }
}

/// In a list without duplicates, taking out the item at `i` is taking out
/// its value.
pub proof fn lemma_remove_is_without<A>(s: Seq<A>, i: int)
    requires
        s.no_duplicates(),
        0 <= i < s.len(),
    ensures
        s.remove(i) == without(s, s[i]),
    decreases s.len(),
{
    let t = s.drop_last();
    assert(t.no_duplicates());
    if i == s.len() - 1 {
        assert(!t.contains(s[i])) by {
            if t.contains(s[i]) {
                let k = choose|k: int| 0 <= k < t.len() && t[k] == s[i];
                assert(s[k] == s[i]);
            }
        }
        lemma_without_absent(t, s[i]);
        assert(s.remove(i) =~= t);
    } else {
        assert(s[s.len() - 1] != s[i]);
        assert(t[i] == s[i]);
        lemma_remove_is_without(t, i);
        assert(s.remove(i) =~= t.remove(i).push(s.last()));
    }
}

/// Taking `x` out keeps the remaining items in `key` order.
pub proof fn lemma_without_ordered<A>(s: Seq<A>, x: A, key: spec_fn(A) -> int)
    requires
        ordered_by(s, key),
    ensures
        ordered_by(without(s, x), key),
    decreases s.len(),
{
    if s.len() > 0 {
        let t = s.drop_last();
        assert(ordered_by(t, key)) by {
            assert forall|i: int, j: int| 0 <= i < j < t.len() implies key(#[trigger] t[i]) < key(
                #[trigger] t[j],
            ) by {
                assert(t[i] == s[i] && t[j] == s[j]);
            }
        }
        lemma_without_ordered(t, x, key);
        let y = s.last();
        if y != x {
            let w = without(t, x);
            assert forall|i: int, j: int| 0 <= i < j < w.len() + 1 implies key(
                #[trigger] w.push(y)[i],
            ) < key(#[trigger] w.push(y)[j]) by {
                if j == w.len() {
                    lemma_without_contains(t, x, w[i]);
                    assert(w.contains(w[i]));
                    let k = choose|k: int| 0 <= k < t.len() && t[k] == w[i];
                    assert(s[k] == t[k]);
                    assert(s[s.len() - 1] == y);
                } else {
                    assert(w.push(y)[i] == w[i] && w.push(y)[j] == w[j]);
                }
            }
        }
    }
}

// ---------------------------------------------------------------------------
// Facts about `absorb`
pub proof fn lemma_absorb_concat<A>(acc: Seq<A>, u: Seq<A>, v: Seq<A>)
    ensures
        absorb(acc, u + v) == absorb(absorb(acc, u), v),
    decreases v.len(),
{
    if v.len() == 0 {
        assert(u + v =~= u);
    } else {
        lemma_absorb_concat(acc, u, v.drop_last());
        assert((u + v).drop_last() =~= u + v.drop_last());
        assert((u + v).last() == v.last());
    }
}

pub proof fn lemma_absorb_push<A>(acc: Seq<A>, v: Seq<A>, x: A)
    ensures
        absorb(acc, v.push(x)) == move_to_end(absorb(acc, v), x),
{
    assert(v.push(x).drop_last() =~= v);
}

/// Mentions of `x` earlier in the stream leave no trace once `x` is taken
/// out of the result.
proof fn lemma_absorb_without<A>(acc: Seq<A>, v: Seq<A>, x: A)
    ensures
        without(absorb(acc, without(v, x)), x) == without(absorb(acc, v), x),
    decreases v.len(),
{
    if v.len() > 0 {
        let v1 = v.drop_last();
        let y = v.last();
        lemma_absorb_without(acc, v1, x);
        let c1 = absorb(acc, without(v1, x));
        let c2 = absorb(acc, v1);
        if y == x {
            lemma_without_twice(without(c2, x).push(x).drop_last(), x);
            assert(without(c2, x).push(x).drop_last() =~= without(c2, x));
            lemma_without_twice(c2, x);
        } else {
            lemma_absorb_push(acc, without(v1, x), y);
            lemma_without_commutes(c1, x, y);
            lemma_without_commutes(c2, x, y);
            assert(without(c1, y).push(y).drop_last() =~= without(c1, y));
            assert(without(c2, y).push(y).drop_last() =~= without(c2, y));
        }
    }
}

/// Folding the already folded mentions of `c` gives what folding `c` does.
pub proof fn lemma_absorb_latest<A>(acc: Seq<A>, c: Seq<A>)
    ensures
        absorb(acc, latest_mentions(c)) == absorb(acc, c),
    decreases c.len(),
{
    if c.len() > 0 {
        let c1 = c.drop_last();
        let x = c.last();
        let d = latest_mentions(c1);
        lemma_absorb_latest(acc, c1);
        lemma_absorb_push(acc, without(d, x), x);
        lemma_absorb_without(acc, d, x);
    }
}

pub proof fn lemma_absorb_no_duplicates<A>(acc: Seq<A>, xs: Seq<A>)
    requires
        acc.no_duplicates(),
    ensures
        absorb(acc, xs).no_duplicates(),
    decreases xs.len(),
{
    if xs.len() > 0 {
        let r = absorb(acc, xs.drop_last());
        let x = xs.last();
        lemma_absorb_no_duplicates(acc, xs.drop_last());
        lemma_without_no_duplicates(r, x);
        lemma_without_contains(r, x, x);
        let w = without(r, x);
        assert forall|i: int, j: int|
            0 <= i < w.len() + 1 && 0 <= j < w.len() + 1 && i != j implies w.push(x)[i] != w.push(
            x,
        )[j] by {
            if i == w.len() {
                assert(w[j] == w.push(x)[j]);
            } else if j == w.len() {
                assert(w[i] == w.push(x)[i]);
            }
        }
    }
}

pub proof fn lemma_absorb_contains<A>(acc: Seq<A>, xs: Seq<A>, z: A)
    ensures
        absorb(acc, xs).contains(z) <==> (acc.contains(z) || xs.contains(z)),
    decreases xs.len(),
{
    if xs.len() > 0 {
        let t = xs.drop_last();
        let x = xs.last();
        let r = absorb(acc, t);
        lemma_absorb_contains(acc, t, z);
        lemma_without_contains(r, x, z);
        let w = without(r, x);
        if w.contains(z) {
            let k = choose|k: int| 0 <= k < w.len() && w[k] == z;
            assert(w.push(x)[k] == z);
        }
        if w.push(x).contains(z) && z != x {
            let k = choose|k: int| 0 <= k < w.push(x).len() && w.push(x)[k] == z;
            assert(w[k] == z);
        }
        if z == x {
            assert(w.push(x)[w.len() as int] == z);
            assert(xs[xs.len() - 1] == z);
        }
        if t.contains(z) {
            let k = choose|k: int| 0 <= k < t.len() && t[k] == z;
            assert(xs[k] == z);
        }
        if xs.contains(z) && z != x {
            let k = choose|k: int| 0 <= k < xs.len() && xs[k] == z;
            assert(k != xs.len() - 1);
            assert(t[k] == z);
        }
    }
}

proof fn lemma_last_position_bounds<A>(xs: Seq<A>, r: A)
    ensures
        xs.contains(r) ==> 0 <= last_position(xs, r) < xs.len() && xs[last_position(xs, r)] == r,
        !xs.contains(r) ==> last_position(xs, r) == -1,
    decreases xs.len(),
{
    if xs.len() > 0 {
        let t = xs.drop_last();
        lemma_last_position_bounds(t, r);
        if xs.last() != r {
            if xs.contains(r) {
                let k = choose|k: int| 0 <= k < xs.len() && xs[k] == r;
                assert(k != xs.len() - 1);
                assert(t[k] == r);
            }
            if t.contains(r) {
                let k = choose|k: int| 0 <= k < t.len() && t[k] == r;
                assert(xs[k] == r);
            }
        } else {
            assert(xs[xs.len() - 1] == r);
        }
    }
}

/// A mention keeps a list free of duplicates.
pub proof fn lemma_move_to_end_no_duplicates<A>(s: Seq<A>, x: A)
    requires
        s.no_duplicates(),
    ensures
        move_to_end(s, x).no_duplicates(),
{
    let one = seq![x];
    assert(one.drop_last() =~= Seq::<A>::empty());
    assert(one.last() == x);
    assert(absorb(s, one.drop_last()) == s);
    assert(absorb(s, one) == move_to_end(s, x));
    lemma_absorb_no_duplicates(s, one);
}

// ---------------------------------------------------------------------------
// Laws of the fold
/// Folding mentions never leaves an item twice in the list.
pub proof fn law_latest_mentions_no_duplicates<A>(xs: Seq<A>)
    ensures
        latest_mentions(xs).no_duplicates(),
{
    lemma_absorb_no_duplicates(Seq::<A>::empty(), xs);
}

/// An item is in the folded list exactly when it was mentioned.
pub proof fn law_latest_mentions_contains<A>(xs: Seq<A>, r: A)
    ensures
        latest_mentions(xs).contains(r) <==> xs.contains(r),
{
    lemma_absorb_contains(Seq::<A>::empty(), xs, r);
}

/// The last item of the folded list is the last one mentioned.
pub proof fn law_latest_mentions_last<A>(xs: Seq<A>)
    requires
        xs.len() > 0,
    ensures
        latest_mentions(xs).len() > 0,
        latest_mentions(xs).last() == xs.last(),
{
}

/// Items appear in the order of their last mention: an item stands before
/// another exactly when it was last mentioned earlier.
pub proof fn law_latest_mentions_ordered<A>(xs: Seq<A>)
    ensures
        forall|i: int, j: int|
            0 <= i < j < latest_mentions(xs).len() ==> last_position(
                xs,
                #[trigger] latest_mentions(xs)[i],
            ) < last_position(xs, #[trigger] latest_mentions(xs)[j]),
    decreases xs.len(),
{
    if xs.len() > 0 {
        let t = xs.drop_last();
        let x = xs.last();
        let d1 = latest_mentions(t);
        law_latest_mentions_ordered(t);
        let key = |r: A| last_position(t, r);
        assert(ordered_by(d1, key));
        lemma_without_ordered(d1, x, key);
        let w = without(d1, x);
        let d = latest_mentions(xs);
        assert(d == w.push(x));
        assert forall|i: int, j: int| 0 <= i < j < d.len() implies last_position(
            xs,
            #[trigger] d[i],
        ) < last_position(xs, #[trigger] d[j]) by {
            lemma_without_contains(d1, x, d[i]);
            assert(w.contains(d[i])) by {
                assert(w[i] == d[i]);
            }
            law_latest_mentions_contains(t, d[i]);
            lemma_last_position_bounds(t, d[i]);
            if j == d.len() - 1 {
                assert(d[j] == x);
            } else {
                assert(w[j] == d[j] && w[i] == d[i]);
                lemma_without_contains(d1, x, d[j]);
                assert(w.contains(d[j]));
                assert(key(w[i]) < key(w[j]));
            }
        }
    }
}

/// Folding a folded list again changes nothing.
pub proof fn law_latest_mentions_idempotent<A>(xs: Seq<A>)
    ensures
        latest_mentions(latest_mentions(xs)) == latest_mentions(xs),
{
    lemma_absorb_latest(Seq::<A>::empty(), xs);
}

/// Folding each part of a stream on its own and then folding the parts'
/// results in turn gives the fold of the whole stream.
pub proof fn law_latest_mentions_in_parts<A>(a: Seq<A>, b: Seq<A>)
    ensures
        absorb(latest_mentions(a), latest_mentions(b)) == latest_mentions(a + b),
{
    lemma_absorb_latest(latest_mentions(a), b);
    lemma_absorb_concat(Seq::<A>::empty(), a, b);
}

} // verus!
