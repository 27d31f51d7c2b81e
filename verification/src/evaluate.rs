//! The script evaluator.
//!
//! Walks the parsed script's items in declaration order: static text passes
//! through verbatim, `let` declarations bind set-expression results in an
//! append-only store, and `for` blocks expand to the cross-product of their
//! bindings' resolved sets, each combination substituted into the body.
//! Evaluation is a pure function of the script: it either produces the whole
//! output or fails with the first error and produces nothing.

use vstd::prelude::*;

use crate::bindings::Env;
use crate::bindings::ForBindings;
use crate::bindings::LetBindings;
use crate::bindings::clone_for_bindings;
use crate::script::AddOrSub;
use crate::script::BindingTerm;
use crate::script::DoopBlock;
use crate::script::DoopBlockItem;
use crate::script::DoopItem;
use crate::script::DoopItemView;
use crate::script::ErrView;
use crate::script::EvalError;
use crate::script::ForBinding;
use crate::script::ForBindingTarget;
use crate::script::ForBindingView;
use crate::script::DoopBlockView;
use crate::script::ItemView;
use crate::script::RestTerm;
use crate::script::RestTermView;
use crate::script::TargetView;
use crate::script::TermView;
use crate::script::for_bindings_view;
use crate::script::items_view;
use crate::script::rest_terms_view;
use crate::script::strings_view;
use crate::script::tokens_seq_view;
use crate::sets::TokenSet;
use crate::sets::set_diff;
use crate::sets::set_insert;
use crate::sets::set_union;
use crate::subst::spec_replace_seq;
use crate::subst::replace_tok_vec;
use crate::tokens::Delim;
use crate::tokens::Tok;
use crate::tokens::TokView;
use crate::tokens::Tokens;
use crate::tokens::clone_tok_vec;
use crate::tokens::seq_view;

verus! {

/// The bindings visible to a term: none outside a `for` block, or the
/// combination grown so far inside one.
pub open spec fn opt_comb_view(o: Option<&ForBindings>) -> Option<Map<Seq<char>, Seq<TokView>>> {
    match o {
        Option::Some(b) => Option::Some(b@),
        Option::None => Option::None,
    }
}

/// A sequence substituted under the active combination, if there is one.
pub open spec fn subst_in_comb(s: Seq<TokView>, m: Option<Map<Seq<char>, Seq<TokView>>>) -> Seq<
    TokView,
> {
    match m {
        Option::Some(c) => spec_replace_seq(s, c),
        Option::None => s,
    }
}

/// The ordered set described by a literal list term: its entries in source
/// order, each first substituted under the active combination, duplicates
/// dropped.
pub open spec fn spec_list_set(
    entries: Seq<Seq<TokView>>,
    m: Option<Map<Seq<char>, Seq<TokView>>>,
) -> Seq<Seq<TokView>>
    decreases entries.len(),
{
    if entries.len() == 0 {
        Seq::empty()
    } else {
        set_insert(spec_list_set(entries.drop_last(), m), subst_in_comb(entries.last(), m))
    }
}

/// What one term resolves to: a name reference yields the set stored for it,
/// or fails if the name is unbound; a literal list yields its entries as an
/// ordered set.
pub open spec fn spec_eval_term(
    t: TermView,
    lets: Map<Seq<char>, Seq<Seq<TokView>>>,
    m: Option<Map<Seq<char>, Seq<TokView>>>,
) -> Result<Seq<Seq<TokView>>, ErrView> {
    match t {
        TermView::Ident { name, loc } => if lets.dom().contains(name) {
            Result::Ok(lets[name])
        } else {
            Result::Err(ErrView::UndefinedBinding { name, loc })
        },
        TermView::List { entries } => Result::Ok(spec_list_set(entries, m)),
    }
}

/// What a term chain resolves to: the first term's set, then each follow-up
/// term applied left to right by ordered-set union or difference; the first
/// failing term's error wins.
pub open spec fn spec_eval_terms(
    first: TermView,
    rest: Seq<RestTermView>,
    lets: Map<Seq<char>, Seq<Seq<TokView>>>,
    m: Option<Map<Seq<char>, Seq<TokView>>>,
) -> Result<Seq<Seq<TokView>>, ErrView>
    decreases rest.len(),
{
    if rest.len() == 0 {
        spec_eval_term(first, lets, m)
    } else {
        match spec_eval_terms(first, rest.drop_last(), lets, m) {
            Result::Err(e) => Result::Err(e),
            Result::Ok(acc) => match spec_eval_term(rest.last().term, lets, m) {
                Result::Err(e) => Result::Err(e),
                Result::Ok(s) => match rest.last().operation {
                    AddOrSub::Add => Result::Ok(set_union(acc, s)),
                    AddOrSub::Sub => Result::Ok(set_diff(acc, s)),
                },
            },
        }
    }
}

/// Whether a token is a top-level comma separator.
pub open spec fn spec_is_comma(t: TokView) -> bool {
    t matches TokView::Punct { ch } && ch == ','
}

/// A sequence split on its top-level commas: always one part more than there
/// are commas, so the empty sequence has one empty part and a trailing comma
/// yields a trailing empty part. Commas inside nested groups do not count.
pub open spec fn spec_split_commas(s: Seq<TokView>) -> Seq<Seq<TokView>>
    decreases s.len(),
{
    if s.len() == 0 {
        seq![Seq::<TokView>::empty()]
    } else {
        let p = spec_split_commas(s.drop_last());
        if spec_is_comma(s.last()) {
            p.push(Seq::empty())
        } else {
            p.update(p.len() - 1, p.last().push(s.last()))
        }
    }
}

/// The combination extended by binding each name to its part, in order.
pub open spec fn spec_insert_names(
    comb: Map<Seq<char>, Seq<TokView>>,
    names: Seq<Seq<char>>,
    parts: Seq<Seq<TokView>>,
) -> Map<Seq<char>, Seq<TokView>>
    decreases names.len(),
{
    if names.len() == 0 {
        comb
    } else {
        spec_insert_names(comb, names.drop_last(), parts.drop_last()).insert(
            names.last(),
            parts.last(),
        )
    }
}

/// The combination extended by binding a target to one resolved value. A
/// single name binds the value itself. A tuple target requires the value to
/// be exactly one parenthesized group; its body is split on top-level commas
/// into exactly one part per name, else the binding fails.
pub open spec fn spec_bind_target(
    target: TargetView,
    value: Seq<TokView>,
    comb: Map<Seq<char>, Seq<TokView>>,
) -> Result<Map<Seq<char>, Seq<TokView>>, ErrView> {
    match target {
        TargetView::Ident { name, loc } => Result::Ok(comb.insert(name, value)),
        TargetView::Tuple { names, loc } => {
            if value.len() != 1 {
                Result::Err(ErrView::MalformedTupleTarget { loc })
            } else {
                match value[0] {
                    TokView::Group { delim, body } => {
                        if delim != Delim::Paren {
                            Result::Err(ErrView::MalformedTupleTarget { loc })
                        } else {
                            let parts = spec_split_commas(body);
                            if parts.len() != names.len() {
                                Result::Err(
                                    ErrView::ArityMismatch {
                                        expected: names.len(),
                                        actual: parts.len(),
                                        loc,
                                    },
                                )
                            } else {
                                Result::Ok(spec_insert_names(comb, names, parts))
                            }
                        }
                    }
                    _ => Result::Err(ErrView::MalformedTupleTarget { loc }),
                }
            }
        }
    }
}

/// One combination branched over a resolved set: each value is substituted
/// under the combination, then bound to the target, in order.
pub open spec fn spec_bind_values(
    target: TargetView,
    values: Seq<Seq<TokView>>,
    comb: Map<Seq<char>, Seq<TokView>>,
) -> Result<Seq<Map<Seq<char>, Seq<TokView>>>, ErrView>
    decreases values.len(),
{
    if values.len() == 0 {
        Result::Ok(Seq::empty())
    } else {
        match spec_bind_values(target, values.drop_last(), comb) {
            Result::Err(e) => Result::Err(e),
            Result::Ok(combs) => match spec_bind_target(
                target,
                spec_replace_seq(values.last(), comb),
                comb,
            ) {
                Result::Err(e) => Result::Err(e),
                Result::Ok(c) => Result::Ok(combs.push(c)),
            },
        }
    }
}

/// One binding applied to one existing combination: its term chain is
/// evaluated under that combination, and the combination branches once per
/// resolved value.
pub open spec fn spec_expand_one(
    b: ForBindingView,
    comb: Map<Seq<char>, Seq<TokView>>,
    lets: Map<Seq<char>, Seq<Seq<TokView>>>,
) -> Result<Seq<Map<Seq<char>, Seq<TokView>>>, ErrView> {
    match spec_eval_terms(b.first_term, b.rest_terms, lets, Option::Some(comb)) {
        Result::Err(e) => Result::Err(e),
        Result::Ok(values) => spec_bind_values(b.target, values, comb),
    }
}

/// One binding applied to every existing combination, in order.
pub open spec fn spec_expand_all(
    b: ForBindingView,
    combs: Seq<Map<Seq<char>, Seq<TokView>>>,
    lets: Map<Seq<char>, Seq<Seq<TokView>>>,
) -> Result<Seq<Map<Seq<char>, Seq<TokView>>>, ErrView>
    decreases combs.len(),
{
    if combs.len() == 0 {
        Result::Ok(Seq::empty())
    } else {
        match spec_expand_all(b, combs.drop_last(), lets) {
            Result::Err(e) => Result::Err(e),
            Result::Ok(acc) => match spec_expand_one(b, combs.last(), lets) {
                Result::Err(e) => Result::Err(e),
                Result::Ok(new) => Result::Ok(acc + new),
            },
        }
    }
}

/// A binding chain applied in declaration order, starting from the given
/// working list of combinations: the cross-product grows one binding at a
/// time, the outermost binding varying slowest.
pub open spec fn spec_expand_bindings(
    bs: Seq<ForBindingView>,
    combs: Seq<Map<Seq<char>, Seq<TokView>>>,
    lets: Map<Seq<char>, Seq<Seq<TokView>>>,
) -> Result<Seq<Map<Seq<char>, Seq<TokView>>>, ErrView>
    decreases bs.len(),
{
    if bs.len() == 0 {
        Result::Ok(combs)
    } else {
        match spec_expand_bindings(bs.drop_last(), combs, lets) {
            Result::Err(e) => Result::Err(e),
            Result::Ok(cs) => spec_expand_all(bs.last(), cs, lets),
        }
    }
}

/// The body substituted under every combination, concatenated in the order
/// the combinations were produced.
pub open spec fn spec_outputs(
    combs: Seq<Map<Seq<char>, Seq<TokView>>>,
    body: Seq<TokView>,
) -> Seq<TokView>
    decreases combs.len(),
{
    if combs.len() == 0 {
        Seq::empty()
    } else {
        spec_outputs(combs.drop_last(), body) + spec_replace_seq(body, combs.last())
    }
}

/// What a `for` block expands to: the cross-product of its bindings grown
/// from one empty combination, the body substituted under each combination.
pub open spec fn spec_eval_for(
    item: DoopItemView,
    lets: Map<Seq<char>, Seq<Seq<TokView>>>,
) -> Result<Seq<TokView>, ErrView> {
    match spec_expand_bindings(
        item.for_bindings,
        seq![Map::<Seq<char>, Seq<TokView>>::empty()],
        lets,
    ) {
        Result::Err(e) => Result::Err(e),
        Result::Ok(cs) => Result::Ok(spec_outputs(cs, item.body)),
    }
}

/// One script item evaluated under the store: the output it appends, and the
/// store visible to the items after it.
pub open spec fn spec_eval_item(
    item: ItemView,
    lets: Map<Seq<char>, Seq<Seq<TokView>>>,
) -> Result<(Seq<TokView>, Map<Seq<char>, Seq<Seq<TokView>>>), ErrView> {
    match item {
        ItemView::Static { body } => Result::Ok((body, lets)),
        ItemView::Let { ident, first_term, rest_terms } => {
            match spec_eval_terms(first_term, rest_terms, lets, Option::None) {
                Result::Err(e) => Result::Err(e),
                Result::Ok(s) => Result::Ok((Seq::empty(), lets.insert(ident, s))),
            }
        }
        ItemView::For { item } => match spec_eval_for(item, lets) {
            Result::Err(e) => Result::Err(e),
            Result::Ok(out) => Result::Ok((out, lets)),
        },
    }
}

/// A run of script items evaluated in order, threading the store and
/// concatenating the outputs; the first failing item's error wins.
pub open spec fn spec_eval_items(
    items: Seq<ItemView>,
    lets: Map<Seq<char>, Seq<Seq<TokView>>>,
) -> Result<(Seq<TokView>, Map<Seq<char>, Seq<Seq<TokView>>>), ErrView>
    decreases items.len(),
{
    if items.len() == 0 {
        Result::Ok((Seq::empty(), lets))
    } else {
        match spec_eval_items(items.drop_last(), lets) {
            Result::Err(e) => Result::Err(e),
            Result::Ok((out, lets2)) => match spec_eval_item(items.last(), lets2) {
                Result::Err(e) => Result::Err(e),
                Result::Ok((out2, lets3)) => Result::Ok((out + out2, lets3)),
            },
        }
    }
}

/// What a whole script evaluates to: its items in order, starting from an
/// empty store.
pub open spec fn spec_evaluate(block: DoopBlockView) -> Result<
    Seq<TokView>,
    ErrView,
> {
    match spec_eval_items(block.items, Map::empty()) {
        Result::Err(e) => Result::Err(e),
        Result::Ok((out, lets)) => Result::Ok(out),
    }
}

/// Resolves one term against the store: a name reference yields a copy of
/// the set bound to it, or fails if it is unbound; a literal list yields its
/// entries in source order, each substituted under the active combination,
/// duplicates dropped.
fn evaluate_binding_term(
    term: &BindingTerm,
    lets: &LetBindings,
    for_bindings: Option<&ForBindings>,
) -> (r: Result<TokenSet, EvalError>)
    ensures
        match r {
            Result::Ok(s) => spec_eval_term(term@, lets@, opt_comb_view(for_bindings))
                matches Result::Ok(v) && s@ == v,
            Result::Err(e) => spec_eval_term(term@, lets@, opt_comb_view(for_bindings))
                matches Result::Err(ev) && e@ == ev,
        },
{
    match term {
        BindingTerm::Ident { name, loc } => {
            match lets.get(name) {
                Option::Some(set) => Result::Ok(set.clone()),
                Option::None => Result::Err(
                    EvalError::UndefinedBinding { name: name.clone(), loc: *loc },
                ),
            }
        }
        BindingTerm::List { entries } => {
            let ghost m = opt_comb_view(for_bindings);
            let mut out = TokenSet::new();
            let mut i: usize = 0;
            proof {
                assert(tokens_seq_view(entries@).subrange(0, 0) =~= Seq::<Seq<TokView>>::empty());
            }
            while i < entries.len()
                invariant
                    i <= entries.len(),
                    m == opt_comb_view(for_bindings),
                    out@ == spec_list_set(tokens_seq_view(entries@).subrange(0, i as int), m),
                decreases entries.len() - i,
            {
                let mut value = entries[i].clone();
                match for_bindings {
                    Option::Some(fb) => {
                        value = value.replace(fb);
                    }
                    Option::None => {}
                }
                proof {
                    let evs = tokens_seq_view(entries@);
                    let pre = evs.subrange(0, i + 1);
                    assert(pre.drop_last() =~= evs.subrange(0, i as int));
                    assert(pre.last() == entries@[i as int]@);
                    assert(value@ == subst_in_comb(entries@[i as int]@, m));
                }
                out.insert(value);
                i += 1;
            }
            proof {
                let evs = tokens_seq_view(entries@);
                assert(evs.subrange(0, entries@.len() as int) =~= evs);
            }
            Result::Ok(out)
        }
    }
}

/// Resolves a term chain: the first term's set, then each follow-up term
/// applied left to right by ordered-set union or difference.
fn evaluate_binding_terms(
    first: &BindingTerm,
    rest: &Vec<RestTerm>,
    lets: &LetBindings,
    for_bindings: Option<&ForBindings>,
) -> (r: Result<TokenSet, EvalError>)
    ensures
        match r {
            Result::Ok(s) => spec_eval_terms(
                first@,
                rest_terms_view(rest@),
                lets@,
                opt_comb_view(for_bindings),
            ) matches Result::Ok(v) && s@ == v,
            Result::Err(e) => spec_eval_terms(
                first@,
                rest_terms_view(rest@),
                lets@,
                opt_comb_view(for_bindings),
            ) matches Result::Err(ev) && e@ == ev,
        },
{
    let ghost m = opt_comb_view(for_bindings);
    let ghost rv = rest_terms_view(rest@);
    let mut acc = match evaluate_binding_term(first, lets, for_bindings) {
        Result::Ok(s) => s,
        Result::Err(e) => {
            proof {
                lemma_eval_terms_err_persists(first@, rv, lets@, m, 0);
                assert(rv.subrange(0, 0) =~= Seq::<RestTermView>::empty());
            }
            return Result::Err(e);
        }
    };
    let mut i: usize = 0;
    proof {
        assert(rv.subrange(0, 0) =~= Seq::<RestTermView>::empty());
    }
    while i < rest.len()
        invariant
            i <= rest.len(),
            m == opt_comb_view(for_bindings),
            rv == rest_terms_view(rest@),
            spec_eval_terms(first@, rv.subrange(0, i as int), lets@, m) matches Result::Ok(v)
                && acc@ == v,
        decreases rest.len() - i,
    {
        proof {
            let pre = rv.subrange(0, i + 1);
            assert(pre.drop_last() =~= rv.subrange(0, i as int));
            assert(pre.last() == rest@[i as int]@);
        }
        match evaluate_binding_term(&rest[i].term, lets, for_bindings) {
            Result::Err(e) => {
                proof {
                    lemma_eval_terms_err_persists(first@, rv, lets@, m, i + 1);
                }
                return Result::Err(e);
            }
            Result::Ok(s) => {
                match rest[i].operation {
                    AddOrSub::Add => {
                        acc.union_with(&s);
                    }
                    AddOrSub::Sub => {
                        acc = acc.difference(&s);
                    }
                }
            }
        }
        i += 1;
    }
    proof {
        assert(rv.subrange(0, rest@.len() as int) =~= rv);
    }
    Result::Ok(acc)
}

/// The models of a list of combinations.
pub open spec fn envs_view(v: Seq<ForBindings>) -> Seq<Map<Seq<char>, Seq<TokView>>> {
    Seq::new(v.len(), |i: int| v[i]@)
}

/// Splits a run of tokens on its top-level commas.
fn split_commas(v: &Vec<Tok>) -> (r: Vec<Tokens>)
    ensures
        tokens_seq_view(r@) == spec_split_commas(seq_view(v@)),
{
    let mut parts: Vec<Tokens> = Vec::new();
    let mut cur: Vec<Tok> = Vec::new();
    let mut i: usize = 0;
    proof {
        assert(seq_view(v@).subrange(0, 0) =~= Seq::<TokView>::empty());
        assert(seq_view(cur@) =~= Seq::<TokView>::empty());
        assert(tokens_seq_view(parts@).push(seq_view(cur@)) =~= seq![Seq::<TokView>::empty()]);
    }
    while i < v.len()
        invariant
            i <= v.len(),
            tokens_seq_view(parts@).push(seq_view(cur@)) == spec_split_commas(
                seq_view(v@).subrange(0, i as int),
            ),
        decreases v.len() - i,
    {
        proof {
            let sv = seq_view(v@);
            let pre = sv.subrange(0, i + 1);
            assert(pre.drop_last() =~= sv.subrange(0, i as int));
            assert(pre.last() == v@[i as int]@);
        }
        let at_comma = match &v[i] {
            Tok::Punct { ch } => *ch == ',',
            _ => false,
        };
        let ghost pv = tokens_seq_view(parts@);
        let ghost cv = seq_view(cur@);
        if at_comma {
            parts.push(Tokens { toks: cur });
            cur = Vec::new();
            proof {
                assert(tokens_seq_view(parts@) =~= pv.push(cv));
                assert(seq_view(cur@) =~= Seq::<TokView>::empty());
                assert(tokens_seq_view(parts@).push(seq_view(cur@)) =~= pv.push(cv).push(
                    Seq::<TokView>::empty(),
                ));
            }
        } else {
            cur.push(v[i].clone());
            proof {
                assert(seq_view(cur@) =~= cv.push(v@[i as int]@));
                assert(pv.push(cv).update(pv.len() as int, cv.push(v@[i as int]@)) =~= pv.push(
                    cv.push(v@[i as int]@),
                ));
                assert(tokens_seq_view(parts@).push(seq_view(cur@)) =~= pv.push(
                    cv.push(v@[i as int]@),
                ));
            }
        }
        i += 1;
    }
    proof {
        assert(seq_view(v@).subrange(0, v@.len() as int) =~= seq_view(v@));
    }
    let ghost pv = tokens_seq_view(parts@);
    let ghost cv = seq_view(cur@);
    parts.push(Tokens { toks: cur });
    proof {
        assert(tokens_seq_view(parts@) =~= pv.push(cv));
    }
    parts
}

/// Extends a combination by binding a target to one resolved value.
fn bind_target(target: &ForBindingTarget, value: Tokens, comb: &ForBindings) -> (r: Result<
    ForBindings,
    EvalError,
>)
    ensures
        match r {
            Result::Ok(c) => spec_bind_target(target@, value@, comb@) matches Result::Ok(cv)
                && c@ == cv,
            Result::Err(e) => spec_bind_target(target@, value@, comb@) matches Result::Err(ev)
                && e@ == ev,
        },
{
    match target {
        ForBindingTarget::Ident { name, loc } => {
            let mut out = clone_for_bindings(comb);
            out.insert(name.clone(), value);
            Result::Ok(out)
        }
        ForBindingTarget::Tuple { names, loc } => {
            if value.toks.len() != 1 {
                assert(value@.len() != 1);
                return Result::Err(EvalError::MalformedTupleTarget { loc: *loc });
            }
            assert(value@[0] == value.toks@[0]@);
            match &value.toks[0] {
                Tok::Group { delim, body } => {
                    if *delim != Delim::Paren {
                        return Result::Err(EvalError::MalformedTupleTarget { loc: *loc });
                    }
                    let parts = split_commas(body);
                    assert(tokens_seq_view(parts@).len() == parts@.len());
                    if parts.len() != names.len() {
                        return Result::Err(
                            EvalError::ArityMismatch {
                                expected: names.len(),
                                actual: parts.len(),
                                loc: *loc,
                            },
                        );
                    }
                    let mut out = clone_for_bindings(comb);
                    let mut i: usize = 0;
                    proof {
                        assert(strings_view(names@).subrange(0, 0) =~= Seq::<Seq<char>>::empty());
                        assert(tokens_seq_view(parts@).subrange(0, 0) =~= Seq::<
                            Seq<TokView>,
                        >::empty());
                    }
                    while i < names.len()
                        invariant
                            i <= names.len(),
                            names@.len() == parts@.len(),
                            out@ == spec_insert_names(
                                comb@,
                                strings_view(names@).subrange(0, i as int),
                                tokens_seq_view(parts@).subrange(0, i as int),
                            ),
                        decreases names.len() - i,
                    {
                        proof {
                            let nv = strings_view(names@);
                            let psv = tokens_seq_view(parts@);
                            let pre_n = nv.subrange(0, i + 1);
                            let pre_p = psv.subrange(0, i + 1);
                            assert(pre_n.drop_last() =~= nv.subrange(0, i as int));
                            assert(pre_p.drop_last() =~= psv.subrange(0, i as int));
                            assert(pre_n.last() == names@[i as int]@);
                            assert(pre_p.last() == parts@[i as int]@);
                        }
                        out.insert(names[i].clone(), parts[i].clone());
                        i += 1;
                    }
                    proof {
                        assert(strings_view(names@).subrange(0, names@.len() as int)
                            =~= strings_view(names@));
                        assert(tokens_seq_view(parts@).subrange(0, parts@.len() as int)
                            =~= tokens_seq_view(parts@));
                    }
                    Result::Ok(out)
                }
                _ => Result::Err(EvalError::MalformedTupleTarget { loc: *loc }),
            }
        }
    }
}

/// A failing prefix of the values decides the branching's result.
proof fn lemma_bind_values_err_persists(
    target: TargetView,
    values: Seq<Seq<TokView>>,
    comb: Map<Seq<char>, Seq<TokView>>,
    k: int,
)
    requires
        0 <= k <= values.len(),
        spec_bind_values(target, values.subrange(0, k), comb) is Err,
    ensures
        spec_bind_values(target, values, comb) == spec_bind_values(
            target,
            values.subrange(0, k),
            comb,
        ),
    decreases values.len() - k,
{
    if k == values.len() {
        assert(values.subrange(0, k) =~= values);
    } else {
        let pre = values.subrange(0, k + 1);
        assert(pre.drop_last() =~= values.subrange(0, k));
        lemma_bind_values_err_persists(target, values, comb, k + 1);
    }
}

/// A failing prefix of the working list decides the expansion's result.
proof fn lemma_expand_all_err_persists(
    b: ForBindingView,
    combs: Seq<Map<Seq<char>, Seq<TokView>>>,
    lets: Map<Seq<char>, Seq<Seq<TokView>>>,
    k: int,
)
    requires
        0 <= k <= combs.len(),
        spec_expand_all(b, combs.subrange(0, k), lets) is Err,
    ensures
        spec_expand_all(b, combs, lets) == spec_expand_all(b, combs.subrange(0, k), lets),
    decreases combs.len() - k,
{
    if k == combs.len() {
        assert(combs.subrange(0, k) =~= combs);
    } else {
        let pre = combs.subrange(0, k + 1);
        assert(pre.drop_last() =~= combs.subrange(0, k));
        lemma_expand_all_err_persists(b, combs, lets, k + 1);
    }
}

/// A failing prefix of the binding chain decides the chain's result.
proof fn lemma_expand_bindings_err_persists(
    bs: Seq<ForBindingView>,
    combs: Seq<Map<Seq<char>, Seq<TokView>>>,
    lets: Map<Seq<char>, Seq<Seq<TokView>>>,
    k: int,
)
    requires
        0 <= k <= bs.len(),
        spec_expand_bindings(bs.subrange(0, k), combs, lets) is Err,
    ensures
        spec_expand_bindings(bs, combs, lets) == spec_expand_bindings(
            bs.subrange(0, k),
            combs,
            lets,
        ),
    decreases bs.len() - k,
{
    if k == bs.len() {
        assert(bs.subrange(0, k) =~= bs);
    } else {
        let pre = bs.subrange(0, k + 1);
        assert(pre.drop_last() =~= bs.subrange(0, k));
        lemma_expand_bindings_err_persists(bs, combs, lets, k + 1);
    }
}

/// A failing prefix of the script decides the script's result.
proof fn lemma_eval_items_err_persists(
    items: Seq<ItemView>,
    lets: Map<Seq<char>, Seq<Seq<TokView>>>,
    k: int,
)
    requires
        0 <= k <= items.len(),
        spec_eval_items(items.subrange(0, k), lets) is Err,
    ensures
        spec_eval_items(items, lets) == spec_eval_items(items.subrange(0, k), lets),
    decreases items.len() - k,
{
    if k == items.len() {
        assert(items.subrange(0, k) =~= items);
    } else {
        let pre = items.subrange(0, k + 1);
        assert(pre.drop_last() =~= items.subrange(0, k));
        lemma_eval_items_err_persists(items, lets, k + 1);
    }
}

/// Expands one `for` block: grows the cross-product of its bindings from a
/// single empty combination, then substitutes the body under every
/// combination, in the order the combinations were produced. The working
/// list holds one combination per branch, so memory is proportional to the
/// product of the bindings' resolved set sizes.
fn evaluate_for(item: &DoopItem, lets: &LetBindings) -> (r: Result<Tokens, EvalError>)
    ensures
        match r {
            Result::Ok(out) => spec_eval_for(item@, lets@) matches Result::Ok(v) && out@ == v,
            Result::Err(e) => spec_eval_for(item@, lets@) matches Result::Err(ev) && e@ == ev,
        },
{
    let ghost fbv = for_bindings_view(item.for_bindings@);
    let ghost init = seq![Map::<Seq<char>, Seq<TokView>>::empty()];
    let mut combs: Vec<ForBindings> = Vec::new();
    combs.push(Env::new());
    proof {
        assert(envs_view(combs@) =~= init);
        assert(fbv.subrange(0, 0) =~= Seq::<ForBindingView>::empty());
    }
    let mut bi: usize = 0;
    while bi < item.for_bindings.len()
        invariant
            bi <= item.for_bindings.len(),
            fbv == for_bindings_view(item.for_bindings@),
            init == seq![Map::<Seq<char>, Seq<TokView>>::empty()],
            spec_expand_bindings(fbv.subrange(0, bi as int), init, lets@) matches Result::Ok(cs)
                && cs == envs_view(combs@),
        decreases item.for_bindings.len() - bi,
    {
        let binding = &item.for_bindings[bi];
        let ghost bv = binding@;
        let ghost cur_combs = envs_view(combs@);
        proof {
            assert(bv == fbv[bi as int]);
        }
        let mut new_combs: Vec<ForBindings> = Vec::new();
        let mut ci: usize = 0;
        proof {
            assert(cur_combs.subrange(0, 0) =~= Seq::<Map<Seq<char>, Seq<TokView>>>::empty());
            assert(envs_view(new_combs@) =~= Seq::<Map<Seq<char>, Seq<TokView>>>::empty());
        }
        while ci < combs.len()
            invariant
                ci <= combs.len(),
                bv == binding@,
                bv == fbv[bi as int],
                0 <= bi < fbv.len(),
                fbv == for_bindings_view(item.for_bindings@),
                init == seq![Map::<Seq<char>, Seq<TokView>>::empty()],
                cur_combs == envs_view(combs@),
                spec_expand_bindings(fbv.subrange(0, bi as int), init, lets@) matches Result::Ok(
                    cs,
                ) && cs == cur_combs,
                spec_expand_all(bv, cur_combs.subrange(0, ci as int), lets@) matches Result::Ok(nc)
                    && nc == envs_view(new_combs@),
            decreases combs.len() - ci,
        {
            proof {
                let pre = cur_combs.subrange(0, ci + 1);
                assert(pre.drop_last() =~= cur_combs.subrange(0, ci as int));
                assert(pre.last() == combs@[ci as int]@);
            }
            let ghost combv = combs@[ci as int]@;
            let set = match evaluate_binding_terms(
                &binding.first_term,
                &binding.rest_terms,
                lets,
                Option::Some(&combs[ci]),
            ) {
                Result::Ok(s) => s,
                Result::Err(e) => {
                    proof {
                        lemma_expand_all_err_persists(bv, cur_combs, lets@, ci + 1);
                        let pre_b = fbv.subrange(0, bi + 1);
                        assert(pre_b.drop_last() =~= fbv.subrange(0, bi as int));
                        assert(pre_b.last() == fbv[bi as int]);
                        lemma_expand_bindings_err_persists(fbv, init, lets@, bi + 1);
                    }
                    return Result::Err(e);
                }
            };
            let ghost acc = envs_view(new_combs@);
            let mut ti: usize = 0;
            proof {
                assert(set@.subrange(0, 0) =~= Seq::<Seq<TokView>>::empty());
            }
            while ti < set.items.len()
                invariant
                    ti <= set.items.len(),
                    bv == binding@,
                    bv == fbv[bi as int],
                    0 <= bi < fbv.len(),
                    0 <= ci < combs@.len(),
                    fbv == for_bindings_view(item.for_bindings@),
                    init == seq![Map::<Seq<char>, Seq<TokView>>::empty()],
                    cur_combs == envs_view(combs@),
                    combv == combs@[ci as int]@,
                    spec_expand_bindings(fbv.subrange(0, bi as int), init, lets@)
                        matches Result::Ok(cs) && cs == cur_combs,
                    spec_expand_all(bv, cur_combs.subrange(0, ci as int), lets@)
                        matches Result::Ok(nc) && nc == acc,
                    spec_eval_terms(bv.first_term, bv.rest_terms, lets@, Option::Some(combv))
                        matches Result::Ok(vv) && vv == set@,
                    spec_bind_values(bv.target, set@.subrange(0, ti as int), combv)
                        matches Result::Ok(bc) && envs_view(new_combs@) == acc + bc,
                decreases set.items.len() - ti,
            {
                proof {
                    let pre = set@.subrange(0, ti + 1);
                    assert(pre.drop_last() =~= set@.subrange(0, ti as int));
                    assert(pre.last() == set.items@[ti as int]@);
                }
                let replaced = set.items[ti].replace(&combs[ci]);
                match bind_target(&binding.target, replaced, &combs[ci]) {
                    Result::Ok(c) => {
                        let ghost before = envs_view(new_combs@);
                        let ghost cvv = c@;
                        new_combs.push(c);
                        proof {
                            assert(envs_view(new_combs@) =~= before.push(cvv));
                        }
                    }
                    Result::Err(e) => {
                        proof {
                            lemma_bind_values_err_persists(bv.target, set@, combv, ti + 1);
                            let pre_c = cur_combs.subrange(0, ci + 1);
                            assert(pre_c.drop_last() =~= cur_combs.subrange(0, ci as int));
                            assert(pre_c.last() == cur_combs[ci as int]);
                            lemma_expand_all_err_persists(bv, cur_combs, lets@, ci + 1);
                            let pre_b = fbv.subrange(0, bi + 1);
                            assert(pre_b.drop_last() =~= fbv.subrange(0, bi as int));
                            assert(pre_b.last() == fbv[bi as int]);
                            lemma_expand_bindings_err_persists(fbv, init, lets@, bi + 1);
                        }
                        return Result::Err(e);
                    }
                }
                ti += 1;
            }
            proof {
                assert(set@.subrange(0, set.items@.len() as int) =~= set@);
            }
            ci += 1;
        }
        proof {
            assert(cur_combs.subrange(0, combs@.len() as int) =~= cur_combs);
            let pre_b = fbv.subrange(0, bi + 1);
            assert(pre_b.drop_last() =~= fbv.subrange(0, bi as int));
            assert(pre_b.last() == fbv[bi as int]);
        }
        combs = new_combs;
        bi += 1;
    }
    proof {
        assert(fbv.subrange(0, item.for_bindings@.len() as int) =~= fbv);
    }
    let ghost final_combs = envs_view(combs@);
    let mut out_toks: Vec<Tok> = Vec::new();
    let mut oi: usize = 0;
    proof {
        assert(final_combs.subrange(0, 0) =~= Seq::<Map<Seq<char>, Seq<TokView>>>::empty());
        assert(seq_view(out_toks@) =~= Seq::<TokView>::empty());
    }
    while oi < combs.len()
        invariant
            oi <= combs.len(),
            final_combs == envs_view(combs@),
            seq_view(out_toks@) == spec_outputs(final_combs.subrange(0, oi as int), item.body@),
        decreases combs.len() - oi,
    {
        proof {
            let pre = final_combs.subrange(0, oi + 1);
            assert(pre.drop_last() =~= final_combs.subrange(0, oi as int));
            assert(pre.last() == combs@[oi as int]@);
        }
        let ghost before = seq_view(out_toks@);
        let mut piece = replace_tok_vec(&item.body.toks, &combs[oi]);
        let ghost piecev = seq_view(piece@);
        out_toks.append(&mut piece);
        proof {
            assert(seq_view(out_toks@) =~= before + piecev);
        }
        oi += 1;
    }
    proof {
        assert(final_combs.subrange(0, combs@.len() as int) =~= final_combs);
    }
    Result::Ok(Tokens { toks: out_toks })
}

/// Evaluates a parsed script: static text passes through verbatim, `let`
/// declarations bind their set-expression results for all later items, and
/// `for` blocks append their full expansion, all in declaration order. The
/// result is the whole output, or the first error with no output.
pub fn evaluate(input: &DoopBlock) -> (r: Result<Tokens, EvalError>)
    ensures
        match r {
            Result::Ok(out) => spec_evaluate(input@) matches Result::Ok(v) && out@ == v,
            Result::Err(e) => spec_evaluate(input@) matches Result::Err(ev) && e@ == ev,
        },
{
    let ghost iv = items_view(input.items@);
    let mut output: Vec<Tok> = Vec::new();
    let mut lets: LetBindings = Env::new();
    let mut i: usize = 0;
    proof {
        assert(iv.subrange(0, 0) =~= Seq::<ItemView>::empty());
        assert(seq_view(output@) =~= Seq::<TokView>::empty());
    }
    while i < input.items.len()
        invariant
            i <= input.items.len(),
            iv == items_view(input.items@),
            spec_eval_items(iv.subrange(0, i as int), Map::empty()) matches Result::Ok(ol)
                && ol.0 == seq_view(output@) && ol.1 == lets@,
        decreases input.items.len() - i,
    {
        proof {
            let pre = iv.subrange(0, i + 1);
            assert(pre.drop_last() =~= iv.subrange(0, i as int));
            assert(pre.last() == input.items@[i as int]@);
        }
        match &input.items[i] {
            DoopBlockItem::Static { body } => {
                let ghost before = seq_view(output@);
                let mut piece = clone_tok_vec(&body.toks);
                let ghost piecev = seq_view(piece@);
                output.append(&mut piece);
                proof {
                    assert(seq_view(output@) =~= before + piecev);
                }
            }
            DoopBlockItem::Let { ident, first_term, rest_terms } => {
                match evaluate_binding_terms(first_term, rest_terms, &lets, Option::None) {
                    Result::Ok(set) => {
                        lets.insert(ident.clone(), set);
                        proof {
                            assert(seq_view(output@) + Seq::<TokView>::empty() =~= seq_view(
                                output@,
                            ));
                        }
                    }
                    Result::Err(e) => {
                        proof {
                            lemma_eval_items_err_persists(iv, Map::empty(), i + 1);
                        }
                        return Result::Err(e);
                    }
                }
            }
            DoopBlockItem::For { item } => {
                match evaluate_for(item, &lets) {
                    Result::Ok(t) => {
                        let ghost before = seq_view(output@);
                        let ghost tv = t@;
                        let mut tt = t;
                        output.append(&mut tt.toks);
                        proof {
                            assert(seq_view(output@) =~= before + tv);
                        }
                    }
                    Result::Err(e) => {
                        proof {
                            lemma_eval_items_err_persists(iv, Map::empty(), i + 1);
                        }
                        return Result::Err(e);
                    }
                }
            }
        }
        i += 1;
    }
    proof {
        assert(iv.subrange(0, input.items@.len() as int) =~= iv);
    }
    Result::Ok(Tokens { toks: output })
}

/// Whether a term is a plain reference to a `let` binding, so that its
/// resolution cannot depend on the active combination.
pub open spec fn term_is_ref(t: TermView) -> bool {
    t is Ident
}

/// Whether every term of a binding's chain is a plain reference.
pub open spec fn binding_is_ref_only(b: ForBindingView) -> bool {
    term_is_ref(b.first_term) && forall|i: int|
        0 <= i < b.rest_terms.len() ==> term_is_ref(#[trigger] b.rest_terms[i].term)
}

/// A reference-only term chain resolves the same under every combination.
proof fn lemma_ref_only_independent(
    first: TermView,
    rest: Seq<RestTermView>,
    lets: Map<Seq<char>, Seq<Seq<TokView>>>,
    m1: Option<Map<Seq<char>, Seq<TokView>>>,
    m2: Option<Map<Seq<char>, Seq<TokView>>>,
)
    requires
        term_is_ref(first),
        forall|i: int| 0 <= i < rest.len() ==> term_is_ref(#[trigger] rest[i].term),
    ensures
        spec_eval_terms(first, rest, lets, m1) == spec_eval_terms(first, rest, lets, m2),
    decreases rest.len(),
{
    if rest.len() > 0 {
        assert(forall|i: int|
            0 <= i < rest.drop_last().len() ==> term_is_ref(#[trigger] rest.drop_last()[i].term));
        lemma_ref_only_independent(first, rest.drop_last(), lets, m1, m2);
        assert(term_is_ref(rest.last().term));
    }
}

/// Binding a single-name target never fails and yields one combination per
/// resolved value.
proof fn lemma_bind_values_count(
    target: TargetView,
    values: Seq<Seq<TokView>>,
    comb: Map<Seq<char>, Seq<TokView>>,
)
    requires
        target is Ident,
    ensures
        spec_bind_values(target, values, comb) matches Result::Ok(cs) && cs.len() == values.len(),
    decreases values.len(),
{
    if values.len() > 0 {
        lemma_bind_values_count(target, values.drop_last(), comb);
    }
}

/// One reference-only binding with a single-name target multiplies the
/// working list's size by its resolved set's size.
proof fn lemma_expand_all_count(
    b: ForBindingView,
    combs: Seq<Map<Seq<char>, Seq<TokView>>>,
    lets: Map<Seq<char>, Seq<Seq<TokView>>>,
    s: Seq<Seq<TokView>>,
)
    requires
        binding_is_ref_only(b),
        b.target is Ident,
        spec_eval_terms(b.first_term, b.rest_terms, lets, Option::Some(Map::empty()))
            == Result::<Seq<Seq<TokView>>, ErrView>::Ok(s),
    ensures
        spec_expand_all(b, combs, lets) matches Result::Ok(cs) && cs.len() == combs.len()
            * s.len(),
    decreases combs.len(),
{
    if combs.len() == 0 {
    } else {
        lemma_expand_all_count(b, combs.drop_last(), lets, s);
        lemma_ref_only_independent(
            b.first_term,
            b.rest_terms,
            lets,
            Option::Some(combs.last()),
            Option::Some(Map::empty()),
        );
        lemma_bind_values_count(b.target, s, combs.last());
        let n = combs.len() as int;
        let m = s.len() as int;
        assert((n - 1) * m + m == n * m) by (nonlinear_arith);
    }
}

/// Cross-product cardinality: a repetition over two reference-only bindings
/// with single-name targets, whose sets resolve to sizes m and n, produces
/// exactly m times n combinations, grown outermost-first.
pub proof fn lemma_cross_product_cardinality(
    b1: ForBindingView,
    b2: ForBindingView,
    lets: Map<Seq<char>, Seq<Seq<TokView>>>,
    s1: Seq<Seq<TokView>>,
    s2: Seq<Seq<TokView>>,
)
    requires
        binding_is_ref_only(b1),
        b1.target is Ident,
        binding_is_ref_only(b2),
        b2.target is Ident,
        spec_eval_terms(b1.first_term, b1.rest_terms, lets, Option::Some(Map::empty()))
            == Result::<Seq<Seq<TokView>>, ErrView>::Ok(s1),
        spec_eval_terms(b2.first_term, b2.rest_terms, lets, Option::Some(Map::empty()))
            == Result::<Seq<Seq<TokView>>, ErrView>::Ok(s2),
    ensures
        spec_expand_bindings(seq![b1, b2], seq![Map::<Seq<char>, Seq<TokView>>::empty()], lets)
            matches Result::Ok(cs) && cs.len() == s1.len() * s2.len(),
{
    let init = seq![Map::<Seq<char>, Seq<TokView>>::empty()];
    let bs = seq![b1, b2];
    assert(bs.drop_last() =~= seq![b1]);
    assert(seq![b1].drop_last() =~= Seq::<ForBindingView>::empty());
    assert(bs.last() == b2);
    assert(seq![b1].last() == b1);
    assert(spec_expand_bindings(Seq::<ForBindingView>::empty(), init, lets)
        == Result::<Seq<Map<Seq<char>, Seq<TokView>>>, ErrView>::Ok(init));
    lemma_expand_all_count(b1, init, lets, s1);
    let cs1 = match spec_expand_all(b1, init, lets) {
        Result::Ok(cs) => cs,
        Result::Err(e) => Seq::empty(),
    };
    assert(spec_expand_bindings(seq![b1], init, lets) == spec_expand_all(b1, init, lets));
    assert(spec_expand_bindings(bs, init, lets) == spec_expand_all(b2, cs1, lets));
    lemma_expand_all_count(b2, cs1, lets, s2);
    assert((1int) * (s1.len() as int) == s1.len() as int) by (nonlinear_arith);
}

/// Tuple destructuring arity: a value that is not exactly one parenthesized
/// group is rejected as a malformed tuple value; a parenthesized value whose
/// top-level comma parts do not number the target's names fails with an
/// arity mismatch naming both counts; otherwise each name binds its part in
/// order.
pub proof fn lemma_tuple_binding(
    names: Seq<Seq<char>>,
    tloc: u64,
    value: Seq<TokView>,
    comb: Map<Seq<char>, Seq<TokView>>,
)
    ensures
        !(value.len() == 1 && value[0] is Group && value[0]->delim == Delim::Paren)
            ==> spec_bind_target(TargetView::Tuple { names, loc: tloc }, value, comb)
            == Result::<Map<Seq<char>, Seq<TokView>>, ErrView>::Err(
            (ErrView::MalformedTupleTarget { loc: tloc }),
        ),
        (value.len() == 1 && value[0] is Group && value[0]->delim == Delim::Paren) ==> {
            let parts = spec_split_commas(value[0]->body);
            if parts.len() != names.len() {
                spec_bind_target(TargetView::Tuple { names, loc: tloc }, value, comb)
                    == Result::<Map<Seq<char>, Seq<TokView>>, ErrView>::Err(
                    (ErrView::ArityMismatch {
                        expected: names.len(),
                        actual: parts.len(),
                        loc: tloc,
                    }),
                )
            } else {
                spec_bind_target(TargetView::Tuple { names, loc: tloc }, value, comb)
                    == Result::<Map<Seq<char>, Seq<TokView>>, ErrView>::Ok(
                    spec_insert_names(comb, names, parts),
                )
            }
        },
{
}

/// Re-evaluating the same parsed script yields the same output: evaluation
/// is a pure function of the script, with no hidden state.
pub proof fn lemma_evaluate_deterministic(
    block: DoopBlockView,
    r1: Seq<TokView>,
    r2: Seq<TokView>,
)
    requires
        spec_evaluate(block) == Result::<Seq<TokView>, ErrView>::Ok(r1),
        spec_evaluate(block) == Result::<Seq<TokView>, ErrView>::Ok(r2),
    ensures
        r1 == r2,
{
}

/// A failing prefix of a term chain decides the chain's result.
proof fn lemma_eval_terms_err_persists(
    first: TermView,
    rest: Seq<RestTermView>,
    lets: Map<Seq<char>, Seq<Seq<TokView>>>,
    m: Option<Map<Seq<char>, Seq<TokView>>>,
    k: int,
)
    requires
        0 <= k <= rest.len(),
        spec_eval_terms(first, rest.subrange(0, k), lets, m) is Err,
    ensures
        spec_eval_terms(first, rest, lets, m) == spec_eval_terms(
            first,
            rest.subrange(0, k),
            lets,
            m,
        ),
    decreases rest.len() - k,
{
    if k == rest.len() {
        assert(rest.subrange(0, k) =~= rest);
    } else {
        let pre = rest.subrange(0, k + 1);
        assert(pre.drop_last() =~= rest.subrange(0, k));
        lemma_eval_terms_err_persists(first, rest, lets, m, k + 1);
    }
}

} // verus!
