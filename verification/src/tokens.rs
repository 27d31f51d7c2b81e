//! Token sequences: the engine's unit of value.
//!
//! A token is either an atom (an identifier, a literal or a punctuation
//! character, carrying its textual value) or a delimited group owning a
//! nested sequence. Structural equality recurses into groups; it is the
//! identity used by the ordered sets and by substitution.

use vstd::prelude::*;

verus! {

/// Delimiter kind of a group token.
#[derive(Clone, Copy, PartialEq, Eq, Structural, Debug, Hash)]
pub enum Delim {
    Paren,
    Brace,
    Bracket,
    Invisible,
}

/// One lexical unit: an identifier, a literal, a punctuation character, or a
/// group owning a nested token sequence. Only `Ident` tokens are candidates
/// for substitution.
#[derive(Debug)]
pub enum Tok {
    Ident { text: String },
    Literal { text: String },
    Punct { ch: char },
    Group { delim: Delim, body: Vec<Tok> },
}

/// Mathematical shape of a token: the structural identity, with textual
/// values as character sequences.
pub enum TokView {
    Ident { text: Seq<char> },
    Literal { text: Seq<char> },
    Punct { ch: char },
    Group { delim: Delim, body: Seq<TokView> },
}

impl Tok {
    /// The structural identity of this token.
    pub open spec fn view(self) -> TokView
        decreases self,
    {
        match self {
            Tok::Ident { text } => TokView::Ident { text: text@ },
            Tok::Literal { text } => TokView::Literal { text: text@ },
            Tok::Punct { ch } => TokView::Punct { ch },
            Tok::Group { delim, body } => TokView::Group { delim, body: seq_view(body@) },
        }
    }
}

/// The structural identity of a run of tokens.
pub open spec fn seq_view(v: Seq<Tok>) -> Seq<TokView>
    decreases v,
{
    Seq::new(
        v.len(),
        |i: int|
            if 0 <= i < v.len() {
                v[i]@
            } else {
                TokView::Punct { ch: ' ' }
            },
    )
}

impl Clone for Tok {
    fn clone(&self) -> (r: Tok)
        ensures
            r@ == self@,
        decreases self,
    {
        match self {
            Tok::Ident { text } => Tok::Ident { text: text.clone() },
            Tok::Literal { text } => Tok::Literal { text: text.clone() },
            Tok::Punct { ch } => Tok::Punct { ch: *ch },
            Tok::Group { delim, body } => Tok::Group { delim: *delim, body: clone_tok_vec(body) },
        }
    }
}

/// Copies a run of tokens, keeping its structural identity.
pub fn clone_tok_vec(v: &Vec<Tok>) -> (r: Vec<Tok>)
    ensures
        seq_view(r@) == seq_view(v@),
    decreases v,
{
    let mut out: Vec<Tok> = Vec::new();
    let mut i: usize = 0;
    while i < v.len()
        invariant
            i <= v.len(),
            out@.len() == i as int,
            forall|j: int| 0 <= j < i ==> out@[j]@ == v@[j]@,
        decreases v.len() - i,
    {
        out.push(v[i].clone());
        i += 1;
    }
    assert(seq_view(out@) =~= seq_view(v@));
    out
}

/// An ordered run of tokens: the engine's unit of value.
#[derive(Debug)]
pub struct Tokens {
    pub toks: Vec<Tok>,
}

impl View for Tokens {
    type V = Seq<TokView>;

    open spec fn view(&self) -> Seq<TokView> {
        seq_view(self.toks@)
    }
}

impl Clone for Tokens {
    fn clone(&self) -> (r: Tokens)
        ensures
            r@ == self@,
    {
        Tokens { toks: clone_tok_vec(&self.toks) }
    }
}

impl Tokens {
    /// The empty token sequence.
    pub fn new() -> (r: Tokens)
        ensures
            r@ == Seq::<TokView>::empty(),
    {
        let r = Tokens { toks: Vec::new() };
        assert(r@ =~= Seq::<TokView>::empty());
        r
    }
}

/// Structural equality of two tokens.
pub fn tok_eq(a: &Tok, b: &Tok) -> (r: bool)
    ensures
        r == (a@ == b@),
    decreases a,
{
    match (a, b) {
        (Tok::Ident { text: ta }, Tok::Ident { text: tb }) => *ta == *tb,
        (Tok::Literal { text: ta }, Tok::Literal { text: tb }) => *ta == *tb,
        (Tok::Punct { ch: ca }, Tok::Punct { ch: cb }) => *ca == *cb,
        (Tok::Group { delim: da, body: ba }, Tok::Group { delim: db, body: bb }) => {
            *da == *db && tok_vec_eq(ba, bb)
        }
        _ => false,
    }
}

/// Structural equality of two token runs.
pub fn tok_vec_eq(a: &Vec<Tok>, b: &Vec<Tok>) -> (r: bool)
    ensures
        r == (seq_view(a@) == seq_view(b@)),
    decreases a,
{
    if a.len() != b.len() {
        assert(seq_view(a@).len() != seq_view(b@).len());
        return false;
    }
    let mut i: usize = 0;
    while i < a.len()
        invariant
            i <= a.len(),
            a@.len() == b@.len(),
            forall|j: int| 0 <= j < i ==> a@[j]@ == b@[j]@,
        decreases a.len() - i,
    {
        if !tok_eq(&a[i], &b[i]) {
            assert(seq_view(a@)[i as int] != seq_view(b@)[i as int]);
            return false;
        }
        i += 1;
    }
    assert(seq_view(a@) =~= seq_view(b@));
    true
}

/// Structural equality of two token sequences.
pub fn tokens_eq(a: &Tokens, b: &Tokens) -> (r: bool)
    ensures
        r == (a@ == b@),
{
    tok_vec_eq(&a.toks, &b.toks)
}

} // verus!
