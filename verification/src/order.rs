//! Lexicographic order on sequences, over any strict total order of the items.

use vstd::prelude::*;

verus! {

/// `a` comes before `b` in dictionary order: at the first place where they
/// differ `a` has the lesser item, or `a` is a proper prefix of `b`.
pub open spec fn lex_less<A>(a: Seq<A>, b: Seq<A>, less: spec_fn(A, A) -> bool) -> bool
    decreases a.len(),
{
    if b.len() == 0 {
        false
    } else if a.len() == 0 {
        true
    } else if a[0] == b[0] {
        lex_less(a.drop_first(), b.drop_first(), less)
    } else {
        less(a[0], b[0])
    }
}

/// `less` is a strict total order.
pub open spec fn strict_total<A>(less: spec_fn(A, A) -> bool) -> bool {
    &&& forall|x: A| !#[trigger] less(x, x)
    &&& forall|x: A, y: A, z: A|
        #![trigger less(x, y), less(y, z)]
        less(x, y) && less(y, z) ==> less(x, z)
    &&& forall|x: A, y: A| #![trigger less(x, y)] less(x, y) || x == y || less(y, x)
}

/// No sequence comes before itself.
pub proof fn lemma_lex_irreflexive<A>(a: Seq<A>, less: spec_fn(A, A) -> bool)
    ensures
        !lex_less(a, a, less),
    decreases a.len(),
{
    if a.len() > 0 {
        lemma_lex_irreflexive(a.drop_first(), less);
    }
}

/// Of two different sequences exactly one comes before the other.
pub proof fn lemma_lex_trichotomy<A>(a: Seq<A>, b: Seq<A>, less: spec_fn(A, A) -> bool)
    requires
        strict_total(less),
    ensures
        a == b <==> !lex_less(a, b, less) && !lex_less(b, a, less),
        !(lex_less(a, b, less) && lex_less(b, a, less)),
    decreases a.len(),
{
    if a.len() > 0 && b.len() > 0 {
        if a[0] == b[0] {
            lemma_lex_trichotomy(a.drop_first(), b.drop_first(), less);
            assert(a =~= seq![a[0]] + a.drop_first());
            assert(b =~= seq![b[0]] + b.drop_first());
        } else if less(a[0], b[0]) {
            if less(b[0], a[0]) {
                assert(less(a[0], a[0]));
            }
        }
    } else if a.len() == 0 && b.len() == 0 {
        assert(a =~= b);
    }
}

/// Dictionary order is transitive.
pub proof fn lemma_lex_transitive<A>(
    a: Seq<A>,
    b: Seq<A>,
    c: Seq<A>,
    less: spec_fn(A, A) -> bool,
)
    requires
        strict_total(less),
        lex_less(a, b, less),
        lex_less(b, c, less),
    ensures
        lex_less(a, c, less),
    decreases a.len(),
{
    if a.len() > 0 {
        if a[0] == b[0] && b[0] == c[0] {
            lemma_lex_transitive(a.drop_first(), b.drop_first(), c.drop_first(), less);
        } else if a[0] != b[0] && b[0] != c[0] {
            assert(less(a[0], b[0]) && less(b[0], c[0]));
            assert(less(a[0], c[0]));
        }
    }
}

/// A proper prefix comes before what it is a prefix of.
pub proof fn lemma_lex_prefix<A>(a: Seq<A>, b: Seq<A>, less: spec_fn(A, A) -> bool)
    requires
        a.len() < b.len(),
        a == b.take(a.len() as int),
    ensures
        lex_less(a, b, less),
    decreases a.len(),
{
    if a.len() > 0 {
        assert(a[0] == b[0]);
        assert(a.drop_first() =~= b.drop_first().take(a.len() - 1));
        lemma_lex_prefix(a.drop_first(), b.drop_first(), less);
    }
}

/// The first place where two sequences differ decides.
pub proof fn lemma_lex_at<A>(a: Seq<A>, b: Seq<A>, i: int, less: spec_fn(A, A) -> bool)
    requires
        0 <= i <= a.len(),
        i <= b.len(),
        a.take(i) == b.take(i),
        i < a.len() && i < b.len() ==> a[i] != b[i],
    ensures
        lex_less(a, b, less) <==> i < b.len() && (i == a.len() || less(a[i], b[i])),
    decreases i,
{
    if i > 0 {
        assert(a[0] == a.take(i)[0]);
        assert(b[0] == b.take(i)[0]);
        let x = a.drop_first();
        let y = b.drop_first();
        assert(x.take(i - 1) =~= a.take(i).drop_first());
        assert(y.take(i - 1) =~= b.take(i).drop_first());
        lemma_lex_at(x, y, i - 1, less);
    }
}

} // verus!
