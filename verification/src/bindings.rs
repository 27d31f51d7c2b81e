//! Name-to-value environments.
//!
//! An environment is an append-only list of named entries; a later entry for
//! the same name shadows an earlier one. Its mathematical model is the map
//! obtained by inserting the entries in order. One instantiation stores the
//! ordered sets bound by `let` declarations; the other stores the single
//! token sequence bound to each loop variable of one iteration.

use vstd::prelude::*;

use crate::sets::TokenSet;
use crate::tokens::Tokens;

verus! {

/// An append-only association of names with values; later entries shadow
/// earlier ones.
pub struct Env<T> {
    pub entries: Vec<(String, T)>,
}

/// Named results of `let` declarations, in declaration order.
pub type LetBindings = Env<TokenSet>;

/// One fully-resolved assignment of loop variables for one iteration.
pub type ForBindings = Env<Tokens>;

/// The map described by an entry list: entries inserted in order, so the
/// last entry for a name wins.
pub open spec fn map_of<T: View>(s: Seq<(String, T)>) -> Map<Seq<char>, T::V>
    decreases s.len(),
{
    if s.len() == 0 {
        Map::empty()
    } else {
        map_of(s.drop_last()).insert(s.last().0@, s.last().1@)
    }
}

/// The value the entry list associates with a name: the last matching entry.
pub open spec fn lookup<T: View>(s: Seq<(String, T)>, n: Seq<char>) -> Option<T::V>
    decreases s.len(),
{
    if s.len() == 0 {
        Option::None
    } else if s.last().0@ == n {
        Option::Some(s.last().1@)
    } else {
        lookup(s.drop_last(), n)
    }
}

/// `lookup` agrees with the map model.
pub proof fn lemma_lookup_map_of<T: View>(s: Seq<(String, T)>, n: Seq<char>)
    ensures
        match lookup(s, n) {
            Option::Some(v) => map_of(s).dom().contains(n) && map_of(s)[n] == v,
            Option::None => !map_of(s).dom().contains(n),
        },
    decreases s.len(),
{
    if s.len() > 0 {
        lemma_lookup_map_of(s.drop_last(), n);
    }
}

impl<T: View> View for Env<T> {
    type V = Map<Seq<char>, T::V>;

    open spec fn view(&self) -> Map<Seq<char>, T::V> {
        map_of(self.entries@)
    }
}

impl<T: View> Env<T> {
    /// The empty environment.
    pub fn new() -> (r: Env<T>)
        ensures
            r@ == Map::<Seq<char>, T::V>::empty(),
    {
        Env { entries: Vec::new() }
    }

    /// Binds a name to a value, shadowing any earlier entry for that name.
    pub fn insert(&mut self, name: String, value: T)
        ensures
            final(self)@ == old(self)@.insert(name@, value@),
    {
        let ghost old_entries = self.entries@;
        let ghost n = name@;
        let ghost v = value@;
        self.entries.push((name, value));
        proof {
            assert(self.entries@.drop_last() =~= old_entries);
            assert(self.entries@.last().0@ == n);
            assert(self.entries@.last().1@ == v);
        }
    }

    /// Looks a name up; the most recent entry for it wins.
    pub fn get(&self, name: &String) -> (r: Option<&T>)
        ensures
            match r {
                Option::Some(t) => self@.dom().contains(name@) && t@ == self@[name@],
                Option::None => !self@.dom().contains(name@),
            },
    {
        let mut i: usize = self.entries.len();
        proof {
            assert(self.entries@.subrange(0, self.entries@.len() as int) =~= self.entries@);
        }
        while i > 0
            invariant
                i <= self.entries.len(),
                lookup(self.entries@, name@) == lookup(
                    self.entries@.subrange(0, i as int),
                    name@,
                ),
            decreases i,
        {
            i -= 1;
            let hit = self.entries[i].0 == *name;
            proof {
                let pre = self.entries@.subrange(0, i + 1);
                assert(pre.drop_last() =~= self.entries@.subrange(0, i as int));
                assert(pre.last() == self.entries@[i as int]);
            }
            if hit {
                proof {
                    lemma_lookup_map_of(self.entries@, name@);
                }
                return Option::Some(&self.entries[i].1);
            }
        }
        proof {
            assert(self.entries@.subrange(0, 0) =~= Seq::<(String, T)>::empty());
            lemma_lookup_map_of(self.entries@, name@);
        }
        Option::None
    }
}

/// Copies a loop-iteration environment, keeping its model.
pub fn clone_for_bindings(e: &ForBindings) -> (r: ForBindings)
    ensures
        r@ == e@,
{
    let mut entries: Vec<(String, Tokens)> = Vec::new();
    let mut i: usize = 0;
    proof {
        assert(e.entries@.subrange(0, 0) =~= Seq::<(String, Tokens)>::empty());
    }
    while i < e.entries.len()
        invariant
            i <= e.entries.len(),
            map_of(entries@) == map_of(e.entries@.subrange(0, i as int)),
        decreases e.entries.len() - i,
    {
        let ghost before = entries@;
        let name = e.entries[i].0.clone();
        let value = e.entries[i].1.clone();
        entries.push((name, value));
        proof {
            assert(entries@.drop_last() =~= before);
            let pre = e.entries@.subrange(0, i + 1);
            assert(pre.drop_last() =~= e.entries@.subrange(0, i as int));
            assert(pre.last() == e.entries@[i as int]);
        }
        i += 1;
    }
    proof {
        assert(e.entries@.subrange(0, e.entries@.len() as int) =~= e.entries@);
    }
    Env { entries }
}

} // verus!
