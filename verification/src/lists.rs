//! Facts about lists that were picked from others.

use vstd::prelude::*;

verus! {

/// One more on the list is the only one more.
pub proof fn lemma_push_contains<A>(s: Seq<A>, x: A, y: A)
    ensures
        s.push(x).contains(y) <==> s.contains(y) || y == x,
{
    if s.contains(y) {
        assert(s.push(x)[s.index_of(y)] == y);
    }
    if y == x {
        assert(s.push(x)[s.len() as int] == y);
    }
}

/// A filter keeps those it is meant to keep and no others, and repeats nothing.
pub proof fn lemma_filter<A>(s: Seq<A>, p: spec_fn(A) -> bool)
    ensures
        forall|x: A| #[trigger] s.filter(p).contains(x) <==> s.contains(x) && p(x),
        s.no_duplicates() ==> s.filter(p).no_duplicates(),
    decreases s.len(),
{
    reveal(Seq::filter);
    if s.len() > 0 {
        let rest = s.drop_last();
        let last = s.last();
        let kept = rest.filter(p);
        lemma_filter(rest, p);
        assert(s =~= rest.push(last));
        assert forall|x: A| #[trigger] s.filter(p).contains(x) <==> s.contains(x) && p(x) by {
            assert(kept.contains(x) <==> rest.contains(x) && p(x));
            lemma_push_contains(rest, last, x);
            lemma_push_contains(kept, last, x);
        }
        if s.no_duplicates() {
            assert(!rest.contains(last));
            assert(!kept.contains(last));
        }
    }
}

/// What a partial map makes of a list is what it makes of the members it is defined on.
pub proof fn lemma_filter_map<A, B>(s: Seq<A>, f: spec_fn(A) -> Option<B>)
    ensures
        forall|x: A| #[trigger] s.contains(x) && f(x) is Some ==> s.filter_map(f).contains(f(x)->0),
        forall|y: B| #[trigger]
            s.filter_map(f).contains(y) ==> exists|x: A| #[trigger]
                s.contains(x) && f(x) == Some(y),
        s.filter_map(f).len() == s.filter(|x: A| f(x) is Some).len(),
    decreases s.len(),
{
    reveal(Seq::filter);
    if s.len() > 0 {
        let rest = s.drop_last();
        let last = s.last();
        let made = rest.filter_map(f);
        lemma_filter_map(rest, f);
        assert(s =~= rest.push(last));
        assert forall|x: A| #[trigger] s.contains(x) && f(x) is Some implies s.filter_map(
            f,
        ).contains(f(x)->0) by {
            lemma_push_contains(rest, last, x);
            if f(last) is Some {
                assert(made + seq![f(last)->0] =~= made.push(f(last)->0));
                lemma_push_contains(made, f(last)->0, f(x)->0);
            }
        }
        assert forall|y: B| #[trigger] s.filter_map(f).contains(y) implies exists|x: A| #[trigger]
            s.contains(x) && f(x) == Some(y) by {
            if made.contains(y) {
                let x = choose|x: A| #[trigger] rest.contains(x) && f(x) == Some(y);
                lemma_push_contains(rest, last, x);
                assert(s.contains(x));
            } else {
                assert(made + seq![f(last)->0] =~= made.push(f(last)->0));
                lemma_push_contains(made, f(last)->0, y);
                assert(s.contains(last)) by {
                    assert(s[s.len() - 1] == last);
                }
            }
        }
    }
}

/// What the members of a list are each turned into, one after the other, holds what each of them
/// is turned into, and nothing else.
pub proof fn lemma_flat_map<A, B>(s: Seq<A>, f: spec_fn(A) -> Seq<B>)
    ensures
        forall|x: A, y: B|
            #![trigger s.contains(x), f(x).contains(y)]
            s.contains(x) && f(x).contains(y) ==> s.flat_map(f).contains(y),
        forall|y: B| #[trigger]
            s.flat_map(f).contains(y) ==> exists|x: A| #[trigger]
                s.contains(x) && f(x).contains(y),
    decreases s.len(),
{
    if s.len() == 0 {
        assert(s.flat_map(f) =~= Seq::empty());
    } else {
        let rest = s.drop_last();
        let last = s.last();
        lemma_flat_map(rest, f);
        rest.lemma_flat_map_push(f, last);
        assert(s =~= rest.push(last));
        let made = rest.flat_map(f);
        assert(s.flat_map(f) == made + f(last));
        assert forall|x: A, y: B|
            #![trigger s.contains(x), f(x).contains(y)]
            s.contains(x) && f(x).contains(y) implies s.flat_map(f).contains(y) by {
            lemma_push_contains(rest, last, x);
            if rest.contains(x) {
                assert((made + f(last))[made.index_of(y)] == y);
            } else {
                assert((made + f(last))[made.len() + f(last).index_of(y)] == y);
            }
        }
        assert forall|y: B| #[trigger] s.flat_map(f).contains(y) implies exists|x: A| #[trigger]
            s.contains(x) && f(x).contains(y) by {
            if made.contains(y) {
                let x = choose|x: A| #[trigger] rest.contains(x) && f(x).contains(y);
                lemma_push_contains(rest, last, x);
                assert(s.contains(x));
            } else {
                let k = (made + f(last)).index_of(y);
                if k < made.len() {
                    assert(made[k] == y);
                }
                assert(f(last)[k - made.len()] == y);
                assert(s.contains(last)) by {
                    assert(s[s.len() - 1] == last);
                }
            }
        }
    }
}

/// Lists that share nothing and repeat nothing, one after the other, repeat nothing.
pub proof fn lemma_flat_map_no_duplicates<A, B>(s: Seq<A>, f: spec_fn(A) -> Seq<B>)
    requires
        s.no_duplicates(),
        forall|x: A| #[trigger] s.contains(x) ==> f(x).no_duplicates(),
        forall|x: A, y: A, z: B|
            s.contains(x) && s.contains(y) && #[trigger] f(x).contains(z)
                && #[trigger] f(y).contains(z) ==> x == y,
    ensures
        s.flat_map(f).no_duplicates(),
    decreases s.len(),
{
    if s.len() == 0 {
        assert(s.flat_map(f) =~= Seq::empty());
    } else {
        let rest = s.drop_last();
        let last = s.last();
        assert(s =~= rest.push(last));
        assert forall|x: A| #[trigger] rest.contains(x) implies s.contains(x) && x != last by {
            lemma_push_contains(rest, last, x);
            let k = rest.index_of(x);
            assert(s[k] == x && s[s.len() - 1] == last);
        }
        assert(s.contains(last)) by {
            assert(s[s.len() - 1] == last);
        }
        lemma_flat_map_no_duplicates(rest, f);
        lemma_flat_map(rest, f);
        rest.lemma_flat_map_push(f, last);
        let made = rest.flat_map(f);
        assert(s.flat_map(f) == made + f(last));
        assert forall|i: int, j: int|
            #![trigger made[i], f(last)[j]]
            0 <= i < made.len() && 0 <= j < f(last).len() implies made[i] != f(last)[j] by {
            if made[i] == f(last)[j] {
                let z = made[i];
                assert(made.contains(z) && f(last).contains(z));
                let x = choose|x: A| #[trigger] rest.contains(x) && f(x).contains(z);
                assert(s.contains(x));
            }
        }
        let whole = made + f(last);
        assert forall|i: int, j: int|
            #![trigger whole[i], whole[j]]
            0 <= i < whole.len() && 0 <= j < whole.len() && i != j implies whole[i] != whole[j] by {
            if i < made.len() && j < made.len() {
                assert(made[i] != made[j]);
            } else if i >= made.len() && j >= made.len() {
                assert(f(last)[i - made.len()] != f(last)[j - made.len()]);
            } else if i < made.len() {
                assert(made[i] != f(last)[j - made.len()]);
            } else {
                assert(made[j] != f(last)[i - made.len()]);
            }
        }
    }
}

} // verus!
