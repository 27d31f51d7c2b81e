//! Insertion-ordered, duplicate-free collections of token sequences.
//!
//! Membership goes by structural equality of the stored sequences, never by
//! where a value came from. The first occurrence of a value wins its
//! position; inserting it again changes nothing. Union and difference keep
//! the running set's order.

use vstd::prelude::*;

use crate::tokens::TokView;
use crate::tokens::Tokens;
use crate::tokens::tokens_eq;

verus! {

/// An insertion-ordered, duplicate-free collection of token sequences.
pub struct TokenSet {
    pub items: Vec<Tokens>,
}

impl View for TokenSet {
    type V = Seq<Seq<TokView>>;

    open spec fn view(&self) -> Seq<Seq<TokView>> {
        Seq::new(self.items@.len(), |i: int| self.items@[i]@)
    }
}

/// Inserting into an ordered set: a value already present keeps its original
/// position; a new value goes to the end.
pub open spec fn set_insert(s: Seq<Seq<TokView>>, x: Seq<TokView>) -> Seq<Seq<TokView>> {
    if s.contains(x) {
        s
    } else {
        s.push(x)
    }
}

/// Ordered-set union: the second operand's elements are inserted in order
/// after the first's.
pub open spec fn set_union(a: Seq<Seq<TokView>>, b: Seq<Seq<TokView>>) -> Seq<Seq<TokView>>
    decreases b.len(),
{
    if b.len() == 0 {
        a
    } else {
        set_insert(set_union(a, b.drop_last()), b.last())
    }
}

/// Ordered-set difference: the first operand's elements that are equal to
/// none of the second's, in their original order.
pub open spec fn set_diff(a: Seq<Seq<TokView>>, b: Seq<Seq<TokView>>) -> Seq<Seq<TokView>>
    decreases a.len(),
{
    if a.len() == 0 {
        a
    } else {
        let rest = set_diff(a.drop_last(), b);
        if b.contains(a.last()) {
            rest
        } else {
            rest.push(a.last())
        }
    }
}

/// No two elements of the sequence are structurally equal.
pub open spec fn set_distinct(s: Seq<Seq<TokView>>) -> bool {
    forall|i: int, j: int| 0 <= i < j < s.len() ==> s[i] != s[j]
}

impl TokenSet {
    /// The empty set.
    pub fn new() -> (r: TokenSet)
        ensures
            r@ == Seq::<Seq<TokView>>::empty(),
    {
        let r = TokenSet { items: Vec::new() };
        assert(r@ =~= Seq::<Seq<TokView>>::empty());
        r
    }

    /// Whether the set holds a sequence structurally equal to `x`.
    pub fn contains_tokens(&self, x: &Tokens) -> (r: bool)
        ensures
            r == self@.contains(x@),
    {
        let mut i: usize = 0;
        while i < self.items.len()
            invariant
                i <= self.items.len(),
                forall|j: int| 0 <= j < i ==> self@[j] != x@,
            decreases self.items.len() - i,
        {
            if tokens_eq(&self.items[i], x) {
                assert(self@[i as int] == x@);
                return true;
            }
            i += 1;
        }
        assert(!self@.contains(x@));
        false
    }

    /// Inserts a sequence; a value already present keeps its position.
    pub fn insert(&mut self, x: Tokens)
        ensures
            final(self)@ == set_insert(old(self)@, x@),
    {
        if !self.contains_tokens(&x) {
            let ghost before = self@;
            let ghost xv = x@;
            self.items.push(x);
            assert(self@ =~= before.push(xv));
        }
    }

    /// Extends the set with every element of `other`, in order, deduplicating
    /// by structural equality.
    pub fn union_with(&mut self, other: &TokenSet)
        ensures
            final(self)@ == set_union(old(self)@, other@),
    {
        let mut i: usize = 0;
        while i < other.items.len()
            invariant
                i <= other.items.len(),
                self@ == set_union(old(self)@, other@.subrange(0, i as int)),
            decreases other.items.len() - i,
        {
            proof {
                let pre = other@.subrange(0, i + 1);
                assert(pre.drop_last() =~= other@.subrange(0, i as int));
                assert(pre.last() == other@[i as int]);
            }
            self.insert(other.items[i].clone());
            i += 1;
        }
        assert(other@.subrange(0, other.items@.len() as int) =~= other@);
    }

    /// The set of this set's elements that `other` does not hold, in their
    /// original order.
    pub fn difference(&self, other: &TokenSet) -> (r: TokenSet)
        ensures
            r@ == set_diff(self@, other@),
    {
        let mut out = TokenSet { items: Vec::new() };
        let mut i: usize = 0;
        while i < self.items.len()
            invariant
                i <= self.items.len(),
                out@ == set_diff(self@.subrange(0, i as int), other@),
            decreases self.items.len() - i,
        {
            proof {
                let pre = self@.subrange(0, i + 1);
                assert(pre.drop_last() =~= self@.subrange(0, i as int));
                assert(pre.last() == self@[i as int]);
            }
            if !other.contains_tokens(&self.items[i]) {
                let ghost before = out@;
                out.items.push(self.items[i].clone());
                assert(out@ =~= before.push(self@[i as int]));
            }
            i += 1;
        }
        assert(self@.subrange(0, self.items@.len() as int) =~= self@);
        out
    }
}

impl Clone for TokenSet {
    fn clone(&self) -> (r: TokenSet)
        ensures
            r@ == self@,
    {
        let mut items: Vec<Tokens> = Vec::new();
        let mut i: usize = 0;
        while i < self.items.len()
            invariant
                i <= self.items.len(),
                items@.len() == i as int,
                forall|j: int| 0 <= j < i ==> items@[j]@ == self.items@[j]@,
            decreases self.items.len() - i,
        {
            items.push(self.items[i].clone());
            i += 1;
        }
        let r = TokenSet { items };
        assert(r@ =~= self@);
        r
    }
}

/// Ordered-set union is order-preserving and duplicate-free: the first
/// operand's elements keep their positions, membership is exactly membership
/// in either operand, and a distinct first operand yields a distinct union.
pub proof fn lemma_set_union_ordered_dedup(a: Seq<Seq<TokView>>, b: Seq<Seq<TokView>>)
    ensures
        a.len() <= set_union(a, b).len(),
        forall|i: int| 0 <= i < a.len() ==> set_union(a, b)[i] == a[i],
        forall|x: Seq<TokView>| set_union(a, b).contains(x) <==> (a.contains(x) || b.contains(x)),
        set_distinct(a) ==> set_distinct(set_union(a, b)),
    decreases b.len(),
{
    broadcast use vstd::seq_lib::lemma_seq_contains_after_push;

    if b.len() == 0 {
    } else {
        lemma_set_union_ordered_dedup(a, b.drop_last());
        let u = set_union(a, b.drop_last());
        assert(b =~= b.drop_last().push(b.last()));
        if u.contains(b.last()) {
        } else {
            assert forall|i: int| 0 <= i < a.len() implies set_union(a, b)[i] == a[i] by {
                assert(u.push(b.last())[i] == u[i]);
            }
            if set_distinct(a) {
                assert forall|i: int, j: int|
                    0 <= i < j < set_union(a, b).len() implies set_union(a, b)[i] != set_union(
                    a,
                    b,
                )[j] by {
                    if j < u.len() {
                    } else {
                        assert(set_union(a, b)[j] == b.last());
                        assert(set_union(a, b)[i] == u[i]);
                        assert(u.contains(u[i]));
                    }
                }
            }
        }
    }
}

/// Ordered-set difference removes exactly the elements structurally equal to
/// one of the second operand's, keeps the remaining elements in their
/// original order, preserves distinctness, and is a no-op when nothing
/// matches.
pub proof fn lemma_set_diff_ordered(a: Seq<Seq<TokView>>, b: Seq<Seq<TokView>>)
    ensures
        forall|x: Seq<TokView>| set_diff(a, b).contains(x) <==> (a.contains(x) && !b.contains(x)),
        set_diff(a, b) == a.filter(|x: Seq<TokView>| !b.contains(x)),
        set_distinct(a) ==> set_distinct(set_diff(a, b)),
        (forall|x: Seq<TokView>| a.contains(x) ==> !b.contains(x)) ==> set_diff(a, b) == a,
    decreases a.len(),
{
    broadcast use vstd::seq_lib::lemma_seq_contains_after_push;

    reveal(Seq::filter);
    if a.len() == 0 {
        assert(set_diff(a, b) =~= a.filter(|x: Seq<TokView>| !b.contains(x)));
    } else {
        lemma_set_diff_ordered(a.drop_last(), b);
        let rest = set_diff(a.drop_last(), b);
        assert(a =~= a.drop_last().push(a.last()));
        if !b.contains(a.last()) {
            if set_distinct(a) {
                assert forall|i: int, j: int|
                    0 <= i < j < set_diff(a, b).len() implies set_diff(a, b)[i] != set_diff(
                    a,
                    b,
                )[j] by {
                    if j < rest.len() {
                    } else {
                        assert(set_diff(a, b)[j] == a.last());
                        assert(rest.contains(rest[i]));
                        assert(a.drop_last().contains(rest[i]));
                        let k = choose|k: int|
                            0 <= k < a.drop_last().len() && a.drop_last()[k] == rest[i];
                        assert(a[k] == rest[i]);
                        assert(a[a.len() - 1] == a.last());
                    }
                }
            }
            if forall|x: Seq<TokView>| a.contains(x) ==> !b.contains(x) {
                assert(a.contains(a.last()));
                assert(set_diff(a, b) =~= a);
            }
        } else {
            if forall|x: Seq<TokView>| a.contains(x) ==> !b.contains(x) {
                assert(a.contains(a.last()));
            }
        }
    }
}

} // verus!
