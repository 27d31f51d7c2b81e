//! The substitution engine.
//!
//! Given one iteration's bindings, every identifier token bound in them is
//! replaced by its bound token sequence, spliced into the output stream.
//! Substitution descends into groups to unbounded depth, keeping each
//! group's delimiter kind; every other token is kept unchanged.

use vstd::prelude::*;

use crate::bindings::ForBindings;
use crate::tokens::Tok;
use crate::tokens::TokView;
use crate::tokens::Tokens;
use crate::tokens::clone_tok_vec;
use crate::tokens::seq_view;

verus! {

/// What one token becomes under the bindings: a bound identifier becomes its
/// bound sequence, a group keeps its delimiter around its substituted body,
/// and any other token stays.
pub open spec fn spec_replace_tok(t: TokView, m: Map<Seq<char>, Seq<TokView>>) -> Seq<TokView>
    decreases t,
{
    match t {
        TokView::Ident { text } => if m.dom().contains(text) {
            m[text]
        } else {
            seq![t]
        },
        TokView::Literal { text } => seq![t],
        TokView::Punct { ch } => seq![t],
        TokView::Group { delim, body } => seq![
            TokView::Group { delim, body: spec_replace_seq(body, m) },
        ],
    }
}

/// What a token sequence becomes under the bindings: each token's
/// replacement, spliced in order.
pub open spec fn spec_replace_seq(s: Seq<TokView>, m: Map<Seq<char>, Seq<TokView>>) -> Seq<
    TokView,
>
    decreases s,
{
    if s.len() == 0 {
        Seq::empty()
    } else {
        spec_replace_seq(s.subrange(0, s.len() - 1), m) + spec_replace_tok(s[s.len() - 1], m)
    }
}

/// What one token becomes under the bindings.
fn replace_tok(t: &Tok, m: &ForBindings) -> (r: Vec<Tok>)
    ensures
        seq_view(r@) == spec_replace_tok(t@, m@),
    decreases t,
{
    match t {
        Tok::Ident { text } => {
            match m.get(text) {
                Option::Some(rep) => {
                    let r = clone_tok_vec(&rep.toks);
                    r
                }
                Option::None => {
                    let mut out: Vec<Tok> = Vec::new();
                    out.push(t.clone());
                    assert(seq_view(out@) =~= seq![t@]);
                    out
                }
            }
        }
        Tok::Group { delim, body } => {
            let nb = replace_tok_vec(body, m);
            let mut out: Vec<Tok> = Vec::new();
            out.push(Tok::Group { delim: *delim, body: nb });
            assert(seq_view(out@) =~= spec_replace_tok(t@, m@));
            out
        }
        _ => {
            let mut out: Vec<Tok> = Vec::new();
            out.push(t.clone());
            assert(seq_view(out@) =~= seq![t@]);
            out
        }
    }
}

/// What a run of tokens becomes under the bindings.
pub fn replace_tok_vec(v: &Vec<Tok>, m: &ForBindings) -> (r: Vec<Tok>)
    ensures
        seq_view(r@) == spec_replace_seq(seq_view(v@), m@),
    decreases v,
{
    let mut out: Vec<Tok> = Vec::new();
    let mut i: usize = 0;
    assert(seq_view(v@).subrange(0, 0) =~= Seq::<TokView>::empty());
    while i < v.len()
        invariant
            i <= v.len(),
            seq_view(out@) == spec_replace_seq(seq_view(v@).subrange(0, i as int), m@),
        decreases v.len() - i,
    {
        let ghost out_pre = seq_view(out@);
        let mut piece = replace_tok(&v[i], m);
        let ghost piece_v = seq_view(piece@);
        out.append(&mut piece);
        proof {
            assert(seq_view(out@) =~= out_pre + piece_v);
            let pre = seq_view(v@).subrange(0, i + 1);
            assert(pre.subrange(0, pre.len() - 1) =~= seq_view(v@).subrange(0, i as int));
            assert(pre[pre.len() - 1] == v@[i as int]@);
        }
        i += 1;
    }
    assert(seq_view(v@).subrange(0, v@.len() as int) =~= seq_view(v@));
    out
}

impl Tokens {
    /// The sequence with every bound identifier replaced by its bound
    /// sequence, recursing through groups.
    pub fn replace(&self, replacements: &ForBindings) -> (r: Tokens)
        ensures
            r@ == spec_replace_seq(self@, replacements@),
    {
        Tokens { toks: replace_tok_vec(&self.toks, replacements) }
    }
}

/// How substitution treats each token shape: a group keeps its delimiter
/// kind exactly and its body is substituted recursively; a bound identifier
/// is spliced; every other token is left alone.
pub proof fn lemma_replace_structure(t: TokView, m: Map<Seq<char>, Seq<TokView>>)
    ensures
        t matches TokView::Group { delim, body } ==> spec_replace_tok(t, m) == seq![
            TokView::Group { delim, body: spec_replace_seq(body, m) },
        ],
        t matches TokView::Ident { text } ==> (m.dom().contains(text) ==> spec_replace_tok(t, m)
            == m[text]),
        (t matches TokView::Ident { text } ==> !m.dom().contains(text)) && !(t is Group)
            ==> spec_replace_tok(t, m) == seq![t],
{
}

} // verus!
