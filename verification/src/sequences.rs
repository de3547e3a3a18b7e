//! Facts about sequences.

use vstd::prelude::*;

verus! {

/// At most the first `n` elements.
pub open spec fn first<A>(s: Seq<A>, n: nat) -> Seq<A> {
    if s.len() > n {
        s.take(n as int)
    } else {
        s
    }
}

/// Filtering after a push.
pub proof fn filter_push<A>(s: Seq<A>, a: A, p: spec_fn(A) -> bool)
    ensures
        s.push(a).filter(p) == (if p(a) {
            s.filter(p).push(a)
        } else {
            s.filter(p)
        }),
{
    reveal(Seq::filter);
    assert(s.push(a).drop_last() =~= s);
}

/// Filtering one element more of a sequence.
pub proof fn filter_take<A>(s: Seq<A>, i: int, p: spec_fn(A) -> bool)
    requires
        0 <= i < s.len(),
    ensures
        s.take(i + 1).filter(p) == (if p(s[i]) {
            s.take(i).filter(p).push(s[i])
        } else {
            s.take(i).filter(p)
        }),
{
    assert(s.take(i + 1) =~= s.take(i).push(s[i]));
    filter_push(s.take(i), s[i], p);
}

/// Nothing is left where nothing is accepted.
pub proof fn filter_none<A>(s: Seq<A>, p: spec_fn(A) -> bool)
    requires
        forall|i: int| 0 <= i < s.len() ==> !p(#[trigger] s[i]),
    ensures
        s.filter(p) == Seq::<A>::empty(),
    decreases s.len(),
{
    reveal(Seq::filter);
    if s.len() > 0 {
        assert forall|i: int| 0 <= i < s.drop_last().len() implies !p(
            #[trigger] s.drop_last()[i],
        ) by {
            assert(s.drop_last()[i] == s[i]);
        }
        filter_none(s.drop_last(), p);
    } else {
        assert(s =~= Seq::<A>::empty());
    }
}

/// The parts one after the other.
pub open spec fn flat<A>(parts: Seq<Seq<A>>) -> Seq<A>
    decreases parts.len(),
{
    if parts.len() == 0 {
        Seq::empty()
    } else {
        flat(parts.drop_last()) + parts.last()
    }
}

/// One part more.
pub proof fn flat_take<A>(parts: Seq<Seq<A>>, i: int)
    requires
        0 <= i < parts.len(),
    ensures
        flat(parts.take(i + 1)) == flat(parts.take(i)) + parts[i],
{
    assert(parts.take(i + 1).drop_last() =~= parts.take(i));
}

/// Parts of one element each are the sequence of those elements.
pub proof fn flat_singles<A>(parts: Seq<Seq<A>>)
    requires
        forall|i: int| 0 <= i < parts.len() ==> (#[trigger] parts[i]).len() == 1,
    ensures
        flat(parts).len() == parts.len(),
        forall|i: int| 0 <= i < parts.len() ==> #[trigger] flat(parts)[i] == parts[i][0],
    decreases parts.len(),
{
    if parts.len() > 0 {
        let rest = parts.drop_last();
        assert forall|i: int| 0 <= i < rest.len() implies (#[trigger] rest[i]).len() == 1 by {
            assert(rest[i] == parts[i]);
        }
        flat_singles(rest);
        let n = parts.len() - 1;
        assert(parts[n].len() == 1);
        assert forall|i: int| 0 <= i < parts.len() implies #[trigger] flat(parts)[i]
            == parts[i][0] by {
            if i < n {
                assert(flat(rest)[i] == rest[i][0]);
            }
        }
    }
}

proof fn flat_join<A>(a: Seq<Seq<A>>, b: Seq<Seq<A>>)
    ensures
        flat(a + b) == flat(a) + flat(b),
    decreases b.len(),
{
    if b.len() == 0 {
        assert(a + b =~= a);
        assert(flat(a) + flat(b) =~= flat(a));
    } else {
        assert((a + b).drop_last() =~= a + b.drop_last());
        flat_join(a, b.drop_last());
        assert((a + b).last() == b.last());
        assert(flat(a) + flat(b) =~= (flat(a) + flat(b.drop_last())) + b.last());
    }
}

/// What stands before a part, the part, and what stands after it.
pub proof fn flat_split<A>(parts: Seq<Seq<A>>, k: int)
    requires
        0 <= k < parts.len(),
    ensures
        flat(parts) == flat(parts.take(k)) + parts[k] + flat(parts.skip(k + 1)),
{
    assert(parts =~= parts.take(k + 1) + parts.skip(k + 1));
    flat_join(parts.take(k + 1), parts.skip(k + 1));
    flat_take(parts, k);
}

/// The part that the element at a position comes from.
pub proof fn flat_locate<A>(parts: Seq<Seq<A>>, idx: int) -> (k: int)
    requires
        0 <= idx < flat(parts).len(),
    ensures
        0 <= k < parts.len(),
        flat(parts.take(k)).len() <= idx < flat(parts.take(k)).len() + parts[k].len(),
        flat(parts)[idx] == parts[k][idx - flat(parts.take(k)).len()],
    decreases parts.len(),
{
    let rest = parts.drop_last();
    let n = parts.len() - 1;
    if idx < flat(rest).len() {
        let k = flat_locate(rest, idx);
        assert(rest.take(k) =~= parts.take(k));
        k
    } else {
        assert(parts.take(n) =~= rest);
        n
    }
}

/// The first elements are a beginning of the sequence, as many as are asked for
/// if there are so many.
pub proof fn first_is_a_beginning<A>(s: Seq<A>, n: nat)
    ensures
        first(s, n).is_prefix_of(s),
        first(s, n).len() == (if s.len() <= n {
            s.len()
        } else {
            n
        }),
{
}

/// Predicates that agree on a sequence keep the same of it.
pub proof fn filter_agree<A>(s: Seq<A>, p: spec_fn(A) -> bool, q: spec_fn(A) -> bool)
    requires
        forall|i: int| 0 <= i < s.len() ==> p(#[trigger] s[i]) == q(s[i]),
    ensures
        s.filter(p) == s.filter(q),
    decreases s.len(),
{
    reveal(Seq::filter);
    if s.len() > 0 {
        let front = s.drop_last();
        assert forall|i: int| 0 <= i < front.len() implies p(#[trigger] front[i]) == q(
            front[i],
        ) by {
            assert(front[i] == s[i]);
        }
        filter_agree(front, p, q);
        assert(p(s[s.len() - 1]) == q(s[s.len() - 1]));
    }
}

/// What two predicates keep one after the other, they keep together.
pub proof fn filter_both<A>(s: Seq<A>, p: spec_fn(A) -> bool, q: spec_fn(A) -> bool)
    ensures
        s.filter(p).filter(q) == s.filter(|a: A| p(a) && q(a)),
    decreases s.len(),
{
    let both = |a: A| p(a) && q(a);
    reveal(Seq::filter);
    if s.len() > 0 {
        let front = s.drop_last();
        let last = s.last();
        filter_both(front, p, q);
        if p(last) {
            filter_push(front.filter(p), last, q);
        }
    }
}

/// What is kept of two sequences is kept of both.
pub proof fn filter_concat<A>(a: Seq<A>, b: Seq<A>, p: spec_fn(A) -> bool)
    ensures
        (a + b).filter(p) == a.filter(p) + b.filter(p),
    decreases b.len(),
{
    reveal(Seq::filter);
    if b.len() == 0 {
        assert(a + b =~= a);
        assert(a.filter(p) + b.filter(p) =~= a.filter(p));
    } else {
        assert((a + b).drop_last() =~= a + b.drop_last());
        filter_concat(a, b.drop_last(), p);
        assert((a + b).last() == b.last());
        assert((a + b).filter(p) =~= a.filter(p) + b.filter(p));
    }
}

/// The more parts, the longer they are one after the other.
pub proof fn flat_grows<A>(parts: Seq<Seq<A>>, a: int, b: int)
    requires
        0 <= a <= b <= parts.len(),
    ensures
        flat(parts.take(a)).len() <= flat(parts.take(b)).len(),
    decreases b - a,
{
    if a < b {
        flat_grows(parts, a, b - 1);
        flat_take(parts, b - 1);
    }
}

} // verus!
