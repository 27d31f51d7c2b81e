//! The parsed script consumed by the evaluator.
//!
//! A script is a sequence of items: static passthrough text, `let`
//! declarations binding a name to a set expression, and `for` blocks holding
//! repetition bindings and a body template. The surface parser that produces
//! this structure is outside the engine; the evaluator only consumes it.

use vstd::prelude::*;

use crate::tokens::TokView;
use crate::tokens::Tokens;

verus! {

/// The identity of a list of token sequences.
pub open spec fn tokens_seq_view(v: Seq<Tokens>) -> Seq<Seq<TokView>> {
    Seq::new(v.len(), |i: int| v[i]@)
}

/// The identity of a list of names.
pub open spec fn strings_view(v: Seq<String>) -> Seq<Seq<char>> {
    Seq::new(v.len(), |i: int| v[i]@)
}

/// Whether a follow-up term extends or shrinks the running set.
#[derive(Clone, Copy, PartialEq, Eq, Structural, Debug)]
pub enum AddOrSub {
    Add,
    Sub,
}

/// A term of a binding declaration: a reference to an earlier `let` binding,
/// or a literal comma-separated list of token sequences.
#[derive(Debug)]
pub enum BindingTerm {
    Ident { name: String, loc: u64 },
    List { entries: Vec<Tokens> },
}

/// Mathematical shape of a binding term.
pub enum TermView {
    Ident { name: Seq<char>, loc: u64 },
    List { entries: Seq<Seq<TokView>> },
}

impl View for BindingTerm {
    type V = TermView;

    open spec fn view(&self) -> TermView {
        match self {
            BindingTerm::Ident { name, loc } => TermView::Ident { name: name@, loc: *loc },
            BindingTerm::List { entries } => TermView::List {
                entries: tokens_seq_view(entries@),
            },
        }
    }
}

/// A follow-up term and the set operation applying it.
#[derive(Debug)]
pub struct RestTerm {
    pub operation: AddOrSub,
    pub term: BindingTerm,
}

/// Mathematical shape of a follow-up term.
pub struct RestTermView {
    pub operation: AddOrSub,
    pub term: TermView,
}

impl View for RestTerm {
    type V = RestTermView;

    open spec fn view(&self) -> RestTermView {
        RestTermView { operation: self.operation, term: self.term@ }
    }
}

/// The identity of a list of follow-up terms.
pub open spec fn rest_terms_view(v: Seq<RestTerm>) -> Seq<RestTermView> {
    Seq::new(v.len(), |i: int| v[i]@)
}

/// Target of one repetition binding: a single name, or a tuple of names
/// destructuring a parenthesized value.
#[derive(Debug)]
pub enum ForBindingTarget {
    Ident { name: String, loc: u64 },
    Tuple { names: Vec<String>, loc: u64 },
}

/// Mathematical shape of a binding target.
pub enum TargetView {
    Ident { name: Seq<char>, loc: u64 },
    Tuple { names: Seq<Seq<char>>, loc: u64 },
}

impl View for ForBindingTarget {
    type V = TargetView;

    open spec fn view(&self) -> TargetView {
        match self {
            ForBindingTarget::Ident { name, loc } => TargetView::Ident { name: name@, loc: *loc },
            ForBindingTarget::Tuple { names, loc } => TargetView::Tuple {
                names: strings_view(names@),
                loc: *loc,
            },
        }
    }
}

/// One repetition binding: its target and its set expression.
#[derive(Debug)]
pub struct ForBinding {
    pub target: ForBindingTarget,
    pub first_term: BindingTerm,
    pub rest_terms: Vec<RestTerm>,
}

/// Mathematical shape of a repetition binding.
pub struct ForBindingView {
    pub target: TargetView,
    pub first_term: TermView,
    pub rest_terms: Seq<RestTermView>,
}

impl View for ForBinding {
    type V = ForBindingView;

    open spec fn view(&self) -> ForBindingView {
        ForBindingView {
            target: self.target@,
            first_term: self.first_term@,
            rest_terms: rest_terms_view(self.rest_terms@),
        }
    }
}

/// A `for` block: its chained bindings and its body template.
#[derive(Debug)]
pub struct DoopItem {
    pub for_bindings: Vec<ForBinding>,
    pub body: Tokens,
}

/// Mathematical shape of a `for` block.
pub struct DoopItemView {
    pub for_bindings: Seq<ForBindingView>,
    pub body: Seq<TokView>,
}

/// The identity of a list of repetition bindings.
pub open spec fn for_bindings_view(v: Seq<ForBinding>) -> Seq<ForBindingView> {
    Seq::new(v.len(), |i: int| v[i]@)
}

impl View for DoopItem {
    type V = DoopItemView;

    open spec fn view(&self) -> DoopItemView {
        DoopItemView { for_bindings: for_bindings_view(self.for_bindings@), body: self.body@ }
    }
}

/// One item of a parsed script.
#[derive(Debug)]
pub enum DoopBlockItem {
    Static { body: Tokens },
    Let { ident: String, first_term: BindingTerm, rest_terms: Vec<RestTerm> },
    For { item: DoopItem },
}

/// Mathematical shape of a script item.
pub enum ItemView {
    Static { body: Seq<TokView> },
    Let { ident: Seq<char>, first_term: TermView, rest_terms: Seq<RestTermView> },
    For { item: DoopItemView },
}

impl View for DoopBlockItem {
    type V = ItemView;

    open spec fn view(&self) -> ItemView {
        match self {
            DoopBlockItem::Static { body } => ItemView::Static { body: body@ },
            DoopBlockItem::Let { ident, first_term, rest_terms } => ItemView::Let {
                ident: ident@,
                first_term: first_term@,
                rest_terms: rest_terms_view(rest_terms@),
            },
            DoopBlockItem::For { item } => ItemView::For { item: item@ },
        }
    }
}

/// A parsed script: its items in declaration order.
#[derive(Debug)]
pub struct DoopBlock {
    pub items: Vec<DoopBlockItem>,
}

/// Mathematical shape of a parsed script.
pub struct DoopBlockView {
    pub items: Seq<ItemView>,
}

/// The identity of a list of script items.
pub open spec fn items_view(v: Seq<DoopBlockItem>) -> Seq<ItemView> {
    Seq::new(v.len(), |i: int| v[i]@)
}

impl View for DoopBlock {
    type V = DoopBlockView;

    open spec fn view(&self) -> DoopBlockView {
        DoopBlockView { items: items_view(self.items@) }
    }
}

/// Why an evaluation failed. Every error carries the source location of the
/// offending term, and an evaluation that fails produces no output.
#[derive(Debug)]
pub enum EvalError {
    UndefinedBinding { name: String, loc: u64 },
    ArityMismatch { expected: usize, actual: usize, loc: u64 },
    MalformedTupleTarget { loc: u64 },
}

/// Mathematical shape of an evaluation error.
pub enum ErrView {
    UndefinedBinding { name: Seq<char>, loc: u64 },
    ArityMismatch { expected: nat, actual: nat, loc: u64 },
    MalformedTupleTarget { loc: u64 },
}

impl View for EvalError {
    type V = ErrView;

    open spec fn view(&self) -> ErrView {
        match self {
            EvalError::UndefinedBinding { name, loc } => ErrView::UndefinedBinding {
                name: name@,
                loc: *loc,
            },
            EvalError::ArityMismatch { expected, actual, loc } => ErrView::ArityMismatch {
                expected: *expected as nat,
                actual: *actual as nat,
                loc: *loc,
            },
            EvalError::MalformedTupleTarget { loc } => ErrView::MalformedTupleTarget { loc: *loc },
        }
    }
}

} // verus!
