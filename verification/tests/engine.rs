use doop::evaluate;
use doop::tokens_eq;
use doop::AddOrSub;
use doop::BindingTerm;
use doop::Delim;
use doop::DoopBlock;
use doop::DoopBlockItem;
use doop::DoopItem;
use doop::EvalError;
use doop::ForBinding;
use doop::ForBindingTarget;
use doop::RestTerm;
use doop::Tok;
use doop::Tokens;

fn ident(s: &str) -> Tok {
    Tok::Ident { text: s.to_string() }
}

fn lit(s: &str) -> Tok {
    Tok::Literal { text: s.to_string() }
}

fn punct(c: char) -> Tok {
    Tok::Punct { ch: c }
}

fn group(d: Delim, body: Vec<Tok>) -> Tok {
    Tok::Group { delim: d, body }
}

fn toks(v: Vec<Tok>) -> Tokens {
    Tokens { toks: v }
}

fn list(entries: Vec<Vec<Tok>>) -> BindingTerm {
    BindingTerm::List { entries: entries.into_iter().map(toks).collect() }
}

fn name_ref(n: &str) -> BindingTerm {
    BindingTerm::Ident { name: n.to_string(), loc: 0 }
}

fn let_item(name: &str, first: BindingTerm) -> DoopBlockItem {
    DoopBlockItem::Let { ident: name.to_string(), first_term: first, rest_terms: vec![] }
}

fn let_item_ops(name: &str, first: BindingTerm, rest: Vec<RestTerm>) -> DoopBlockItem {
    DoopBlockItem::Let { ident: name.to_string(), first_term: first, rest_terms: rest }
}

fn single_binding(var: &str, term: BindingTerm) -> ForBinding {
    ForBinding {
        target: ForBindingTarget::Ident { name: var.to_string(), loc: 0 },
        first_term: term,
        rest_terms: vec![],
    }
}

fn tuple_binding(vars: &[&str], term: BindingTerm) -> ForBinding {
    ForBinding {
        target: ForBindingTarget::Tuple {
            names: vars.iter().map(|v| v.to_string()).collect(),
            loc: 0,
        },
        first_term: term,
        rest_terms: vec![],
    }
}

fn for_item(bindings: Vec<ForBinding>, body: Vec<Tok>) -> DoopBlockItem {
    DoopBlockItem::For { item: DoopItem { for_bindings: bindings, body: toks(body) } }
}

fn run(items: Vec<DoopBlockItem>) -> Result<Tokens, EvalError> {
    evaluate(&DoopBlock { items })
}

fn assert_output(items: Vec<DoopBlockItem>, expected: Vec<Tok>) {
    let out = run(items).expect("evaluation should succeed");
    assert!(tokens_eq(&out, &toks(expected)));
}

fn path2(a: &str, b: &str) -> Vec<Tok> {
    vec![ident(a), punct(':'), punct(':'), ident(b)]
}

fn ok_from(value_path: Vec<Tok>) -> Vec<Tok> {
    let mut v = vec![ident("Ok")];
    let mut inner = value_path;
    inner.push(group(Delim::Paren, vec![ident("value")]));
    v.push(group(Delim::Paren, inner));
    v
}

fn ok_checked() -> Vec<Tok> {
    ok_from(path2("CheckedInt", "from"))
}

fn entry(
    a: Vec<Tok>,
    b: Vec<Tok>,
    c: Vec<Tok>,
    d: Vec<Tok>,
    e: Vec<Tok>,
    f: Vec<Tok>,
) -> Vec<Tok> {
    let mut inner = a;
    inner.push(punct(','));
    inner.extend(b);
    inner.push(punct(','));
    inner.extend(c);
    inner.push(punct(','));
    inner.extend(d);
    inner.push(punct(','));
    inner.extend(e);
    inner.push(punct(','));
    inner.extend(f);
    vec![group(Delim::Paren, inner)]
}

fn count_ident_in(v: &[Tok], name: &str) -> usize {
    let mut n = 0;
    for t in v {
        match t {
            Tok::Ident { text } => {
                if text == name {
                    n += 1;
                }
            }
            Tok::Group { body, .. } => {
                n += count_ident_in(body, name);
            }
            _ => {}
        }
    }
    n
}

#[test]
fn main() {
    // First block: a `let` of the five error modes, and a loop declaring a
    // unit struct and a trait impl for each of them.
    let modes = ["Infer", "Panicking", "Checked", "Saturating", "Wrapping"];
    let derive_attr = vec![
        punct('#'),
        group(
            Delim::Bracket,
            vec![
                ident("derive"),
                group(
                    Delim::Paren,
                    vec![
                        ident("Debug"),
                        punct(','),
                        ident("Copy"),
                        punct(','),
                        ident("Clone"),
                        punct(','),
                        ident("PartialEq"),
                        punct(','),
                        ident("Eq"),
                        punct(','),
                        ident("Default"),
                        punct(','),
                        ident("Hash"),
                        punct(','),
                        ident("Ord"),
                        punct(','),
                        ident("PartialOrd"),
                    ],
                ),
            ],
        ),
    ];
    let mut body = derive_attr;
    body.extend(vec![
        ident("pub"),
        ident("struct"),
        ident("ERROR_MODE"),
        punct(';'),
        ident("impl"),
        ident("ErrorMode"),
        ident("for"),
        ident("ERROR_MODE"),
        group(Delim::Brace, vec![]),
    ]);
    let body_len = body.len();
    let out = run(vec![
        let_item("ERROR_MODES", list(modes.iter().map(|m| vec![ident(m)]).collect())),
        for_item(vec![single_binding("ERROR_MODE", name_ref("ERROR_MODES"))], body),
    ])
    .expect("mode declarations should expand");
    assert_eq!(out.toks.len(), 5 * body_len);
    for m in &modes {
        assert_eq!(count_ident_in(&out.toks, m), 2);
    }
    assert_eq!(count_ident_in(&out.toks, "ERROR_MODE"), 0);

    // Second block: a tuple-destructuring loop declaring one `Add` impl per
    // combination of operand types.
    let entries = vec![
        entry(
            vec![ident("CheckedInt")],
            vec![ident("CheckedInt")],
            vec![ident("CheckedIntResult")],
            vec![ident("self")],
            vec![ident("rhs")],
            ok_checked(),
        ),
        entry(
            vec![ident("CheckedInt")],
            vec![ident("i128")],
            vec![ident("CheckedIntResult")],
            vec![ident("self")],
            {
                let mut v = path2("CheckedInt", "from");
                v.push(group(Delim::Paren, vec![ident("rhs")]));
                v
            },
            ok_checked(),
        ),
        entry(
            vec![ident("i128")],
            vec![ident("CheckedInt")],
            vec![ident("CheckedIntResult")],
            {
                let mut v = path2("CheckedInt", "from");
                v.push(group(Delim::Paren, vec![ident("self")]));
                v
            },
            vec![ident("rhs")],
            ok_checked(),
        ),
        entry(
            vec![ident("CheckedIntResult")],
            vec![ident("CheckedInt")],
            vec![ident("CheckedIntResult")],
            vec![ident("self"), punct('?')],
            vec![ident("rhs")],
            ok_checked(),
        ),
        entry(
            vec![ident("CheckedInt")],
            vec![ident("CheckedIntResult")],
            vec![ident("CheckedIntResult")],
            vec![ident("self")],
            vec![ident("rhs"), punct('?')],
            ok_checked(),
        ),
    ];
    let impl_body = vec![
        ident("impl"),
        ident("Add"),
        punct('<'),
        ident("OtherType"),
        punct('>'),
        ident("for"),
        ident("SelfType"),
        group(
            Delim::Brace,
            vec![
                ident("type"),
                ident("Output"),
                punct('='),
                ident("ResultType"),
                punct(';'),
                ident("fn"),
                ident("add"),
                group(
                    Delim::Paren,
                    vec![
                        ident("self"),
                        punct(','),
                        ident("rhs"),
                        punct(':'),
                        ident("OtherType"),
                    ],
                ),
                punct('-'),
                punct('>'),
                ident("ResultType"),
                group(
                    Delim::Brace,
                    vec![
                        ident("match"),
                        ident("self_value"),
                        punct('.'),
                        ident("value"),
                        punct('.'),
                        ident("checked_add"),
                        group(
                            Delim::Paren,
                            vec![ident("other_value"), punct('.'), ident("value")],
                        ),
                        group(
                            Delim::Brace,
                            vec![
                                ident("Some"),
                                group(Delim::Paren, vec![ident("value")]),
                                punct('='),
                                punct('>'),
                                ident("result_value"),
                                punct(','),
                                ident("None"),
                                punct('='),
                                punct('>'),
                                ident("Err"),
                                group(
                                    Delim::Paren,
                                    vec![
                                        ident("IntError"),
                                        punct(':'),
                                        punct(':'),
                                        ident("overflow"),
                                        group(Delim::Paren, vec![]),
                                    ],
                                ),
                                punct(','),
                            ],
                        ),
                    ],
                ),
            ],
        ),
    ];
    let out2 = run(vec![for_item(
        vec![tuple_binding(
            &[
                "SelfType",
                "OtherType",
                "ResultType",
                "self_value",
                "other_value",
                "result_value",
            ],
            list(entries),
        )],
        impl_body,
    )])
    .expect("the Add impls should expand");
    assert_eq!(count_ident_in(&out2.toks, "impl"), 5);
    assert_eq!(count_ident_in(&out2.toks, "SelfType"), 0);
    assert_eq!(count_ident_in(&out2.toks, "checked_add"), 5);
}

#[test]
fn union_is_duplicate_free_and_order_preserving() {
    // A = [x, y]; B = A + [y, z]; iterating B yields x, y, z in first-seen
    // order, with y not duplicated.
    let items = vec![
        let_item("A", list(vec![vec![ident("x")], vec![ident("y")]])),
        let_item_ops(
            "B",
            name_ref("A"),
            vec![RestTerm {
                operation: AddOrSub::Add,
                term: list(vec![vec![ident("y")], vec![ident("z")]]),
            }],
        ),
        for_item(
            vec![single_binding("V", name_ref("B"))],
            vec![ident("V"), punct(',')],
        ),
    ];
    assert_output(
        items,
        vec![ident("x"), punct(','), ident("y"), punct(','), ident("z"), punct(',')],
    );
}

#[test]
fn difference_removes_by_structural_equality() {
    // A = [x, y, z]; C = A - [y]; iterating C yields x, z.
    let items = vec![
        let_item(
            "A",
            list(vec![vec![ident("x")], vec![ident("y")], vec![ident("z")]]),
        ),
        let_item_ops(
            "C",
            name_ref("A"),
            vec![RestTerm { operation: AddOrSub::Sub, term: list(vec![vec![ident("y")]]) }],
        ),
        for_item(
            vec![single_binding("V", name_ref("C"))],
            vec![ident("V"), punct(',')],
        ),
    ];
    assert_output(
        items,
        vec![ident("x"), punct(','), ident("z"), punct(',')],
    );
}

#[test]
fn difference_with_absent_value_is_noop() {
    let items = vec![
        let_item(
            "A",
            list(vec![vec![ident("x")], vec![ident("y")], vec![ident("z")]]),
        ),
        let_item_ops(
            "C",
            name_ref("A"),
            vec![RestTerm { operation: AddOrSub::Sub, term: list(vec![vec![ident("w")]]) }],
        ),
        for_item(
            vec![single_binding("V", name_ref("C"))],
            vec![ident("V"), punct(',')],
        ),
    ];
    assert_output(
        items,
        vec![ident("x"), punct(','), ident("y"), punct(','), ident("z"), punct(',')],
    );
}

#[test]
fn set_operations_apply_left_to_right() {
    // A = [x, y, z]; C = A - [y] + [y]: the removal runs first, so y is
    // re-added at the end.
    let items = vec![
        let_item(
            "A",
            list(vec![vec![ident("x")], vec![ident("y")], vec![ident("z")]]),
        ),
        let_item_ops(
            "C",
            name_ref("A"),
            vec![
                RestTerm { operation: AddOrSub::Sub, term: list(vec![vec![ident("y")]]) },
                RestTerm { operation: AddOrSub::Add, term: list(vec![vec![ident("y")]]) },
            ],
        ),
        for_item(
            vec![single_binding("V", name_ref("C"))],
            vec![ident("V"), punct(',')],
        ),
    ];
    assert_output(
        items,
        vec![ident("x"), punct(','), ident("z"), punct(','), ident("y"), punct(',')],
    );
}

#[test]
fn for_binding_may_use_set_algebra() {
    // A loop may iterate a set expression, not only a plain reference.
    let items = vec![
        let_item("A", list(vec![vec![ident("x")]])),
        DoopBlockItem::For {
            item: DoopItem {
                for_bindings: vec![ForBinding {
                    target: ForBindingTarget::Ident { name: "V".to_string(), loc: 0 },
                    first_term: name_ref("A"),
                    rest_terms: vec![RestTerm {
                        operation: AddOrSub::Add,
                        term: list(vec![vec![ident("w")]]),
                    }],
                }],
                body: toks(vec![ident("V"), punct(';')]),
            },
        },
    ];
    assert_output(
        items,
        vec![ident("x"), punct(';'), ident("w"), punct(';')],
    );
}

#[test]
fn cross_product_order_and_cardinality() {
    // Two chained bindings of sizes 2 and 3 yield all 6 combinations, the
    // outermost binding varying slowest.
    let items = vec![
        let_item("M", list(vec![vec![ident("a")], vec![ident("b")]])),
        let_item(
            "N",
            list(vec![vec![ident("c")], vec![ident("d")], vec![ident("e")]]),
        ),
        for_item(
            vec![
                single_binding("X", name_ref("M")),
                single_binding("Y", name_ref("N")),
            ],
            vec![group(Delim::Paren, vec![ident("X"), ident("Y")])],
        ),
    ];
    assert_output(
        items,
        vec![
            group(Delim::Paren, vec![ident("a"), ident("c")]),
            group(Delim::Paren, vec![ident("a"), ident("d")]),
            group(Delim::Paren, vec![ident("a"), ident("e")]),
            group(Delim::Paren, vec![ident("b"), ident("c")]),
            group(Delim::Paren, vec![ident("b"), ident("d")]),
            group(Delim::Paren, vec![ident("b"), ident("e")]),
        ],
    );
}

#[test]
fn substitution_recurses_through_nesting() {
    // Substituting a -> 1 into (a, [a, a]) yields (1, [1, 1]); parentheses
    // stay parentheses and brackets stay brackets.
    let items = vec![for_item(
        vec![single_binding("a", list(vec![vec![lit("1")]]))],
        vec![group(
            Delim::Paren,
            vec![
                ident("a"),
                punct(','),
                group(Delim::Bracket, vec![ident("a"), punct(','), ident("a")]),
            ],
        )],
    )];
    assert_output(
        items,
        vec![group(
            Delim::Paren,
            vec![
                lit("1"),
                punct(','),
                group(Delim::Bracket, vec![lit("1"), punct(','), lit("1")]),
            ],
        )],
    );
}

#[test]
fn tuple_destructuring_binds_positionally() {
    // (a, b) bound to (1, 2) yields a = 1, b = 2.
    let items = vec![for_item(
        vec![tuple_binding(
            &["a", "b"],
            list(vec![vec![group(
                Delim::Paren,
                vec![lit("1"), punct(','), lit("2")],
            )]]),
        )],
        vec![ident("a"), ident("b")],
    )];
    assert_output(items, vec![lit("1"), lit("2")]);
}

#[test]
fn tuple_destructuring_arity_mismatch() {
    // (a, b) bound to (1, 2, 3) fails with an arity mismatch of 2 vs 3.
    let items = vec![for_item(
        vec![tuple_binding(
            &["a", "b"],
            list(vec![vec![group(
                Delim::Paren,
                vec![lit("1"), punct(','), lit("2"), punct(','), lit("3")],
            )]]),
        )],
        vec![ident("a"), ident("b")],
    )];
    let err = run(items).expect_err("a three-part value must not bind two names");
    match err {
        EvalError::ArityMismatch { expected, actual, .. } => {
            assert_eq!(expected, 2);
            assert_eq!(actual, 3);
        }
        other => panic!("expected an arity mismatch, got {:?}", other),
    }
}

#[test]
fn tuple_destructuring_rejects_non_parenthesized_value() {
    // (a, b) bound to a bare identifier fails as a malformed tuple value.
    let items = vec![for_item(
        vec![tuple_binding(&["a", "b"], list(vec![vec![ident("x")]]))],
        vec![ident("a")],
    )];
    let err = run(items).expect_err("a bare value must not bind a tuple target");
    assert!(matches!(err, EvalError::MalformedTupleTarget { .. }));
}

#[test]
fn tuple_destructuring_rejects_bracket_group() {
    // A bracketed group is not a tuple value even with the right arity.
    let items = vec![for_item(
        vec![tuple_binding(
            &["a", "b"],
            list(vec![vec![group(
                Delim::Bracket,
                vec![lit("1"), punct(','), lit("2")],
            )]]),
        )],
        vec![ident("a")],
    )];
    let err = run(items).expect_err("a bracketed value must not bind a tuple target");
    assert!(matches!(err, EvalError::MalformedTupleTarget { .. }));
}

#[test]
fn tuple_destructuring_trailing_comma_gives_empty_part() {
    // (1,) splits into the part 1 and an empty part.
    let items = vec![for_item(
        vec![tuple_binding(
            &["a", "b"],
            list(vec![vec![group(Delim::Paren, vec![lit("1"), punct(',')])]]),
        )],
        vec![ident("a"), ident("b")],
    )];
    assert_output(items, vec![lit("1")]);
}

#[test]
fn tuple_destructuring_ignores_nested_commas() {
    // ((1, 2), 3) splits at the top level only: a = (1, 2), b = 3.
    let items = vec![for_item(
        vec![tuple_binding(
            &["a", "b"],
            list(vec![vec![group(
                Delim::Paren,
                vec![
                    group(Delim::Paren, vec![lit("1"), punct(','), lit("2")]),
                    punct(','),
                    lit("3"),
                ],
            )]]),
        )],
        vec![ident("a"), ident("b")],
    )];
    assert_output(
        items,
        vec![
            group(Delim::Paren, vec![lit("1"), punct(','), lit("2")]),
            lit("3"),
        ],
    );
}

#[test]
fn end_to_end_scenario() {
    // let T = [u8, u16]; for X in T { fn f() -> X {} } expands to the two
    // functions in declaration order.
    let items = vec![
        let_item("T", list(vec![vec![ident("u8")], vec![ident("u16")]])),
        for_item(
            vec![single_binding("X", name_ref("T"))],
            vec![
                ident("fn"),
                ident("f"),
                group(Delim::Paren, vec![]),
                punct('-'),
                punct('>'),
                ident("X"),
                group(Delim::Brace, vec![]),
            ],
        ),
    ];
    assert_output(
        items,
        vec![
            ident("fn"),
            ident("f"),
            group(Delim::Paren, vec![]),
            punct('-'),
            punct('>'),
            ident("u8"),
            group(Delim::Brace, vec![]),
            ident("fn"),
            ident("f"),
            group(Delim::Paren, vec![]),
            punct('-'),
            punct('>'),
            ident("u16"),
            group(Delim::Brace, vec![]),
        ],
    );
}

#[test]
fn undefined_reference_fails_with_no_output() {
    // for X in Unknown { X } with no prior let fails with UndefinedBinding.
    let items = vec![for_item(
        vec![single_binding("X", name_ref("Unknown"))],
        vec![ident("X")],
    )];
    let err = run(items).expect_err("an unbound name must be rejected");
    match err {
        EvalError::UndefinedBinding { name, .. } => assert_eq!(name, "Unknown"),
        other => panic!("expected an undefined binding, got {:?}", other),
    }
}

#[test]
fn undefined_reference_in_let_chain() {
    let items = vec![let_item_ops(
        "B",
        list(vec![vec![ident("x")]]),
        vec![RestTerm { operation: AddOrSub::Add, term: name_ref("Missing") }],
    )];
    let err = run(items).expect_err("an unbound follow-up term must be rejected");
    match err {
        EvalError::UndefinedBinding { name, .. } => assert_eq!(name, "Missing"),
        other => panic!("expected an undefined binding, got {:?}", other),
    }
}

#[test]
fn reevaluation_is_idempotent() {
    let items = vec![
        let_item("T", list(vec![vec![ident("u8")], vec![ident("u16")]])),
        for_item(
            vec![single_binding("X", name_ref("T"))],
            vec![ident("X"), punct(';')],
        ),
    ];
    let block = DoopBlock { items };
    let first = evaluate(&block).expect("evaluation should succeed");
    let second = evaluate(&block).expect("evaluation should succeed again");
    assert!(tokens_eq(&first, &second));
}

#[test]
fn redeclaration_affects_later_items_only() {
    let items = vec![
        let_item("A", list(vec![vec![ident("x")]])),
        for_item(
            vec![single_binding("V", name_ref("A"))],
            vec![ident("V"), punct(',')],
        ),
        let_item("A", list(vec![vec![ident("y")]])),
        for_item(
            vec![single_binding("V", name_ref("A"))],
            vec![ident("V"), punct(',')],
        ),
    ];
    assert_output(
        items,
        vec![ident("x"), punct(','), ident("y"), punct(',')],
    );
}

#[test]
fn empty_set_expands_to_nothing() {
    let items = vec![
        DoopBlockItem::Static { body: toks(vec![ident("before")]) },
        let_item("E", list(vec![])),
        for_item(vec![single_binding("V", name_ref("E"))], vec![ident("V")]),
        DoopBlockItem::Static { body: toks(vec![ident("after")]) },
    ];
    assert_output(items, vec![ident("before"), ident("after")]);
}

#[test]
fn literal_list_deduplicates_entries() {
    let items = vec![
        let_item(
            "A",
            list(vec![vec![ident("x")], vec![ident("x")], vec![ident("y")]]),
        ),
        for_item(
            vec![single_binding("V", name_ref("A"))],
            vec![ident("V"), punct(',')],
        ),
    ];
    assert_output(
        items,
        vec![ident("x"), punct(','), ident("y"), punct(',')],
    );
}

#[test]
fn later_binding_may_reference_earlier_loop_variable() {
    // The literal list of an inner binding is substituted under the outer
    // binding's current value before it is resolved.
    let items = vec![for_item(
        vec![
            single_binding("X", list(vec![vec![ident("a")], vec![ident("b")]])),
            single_binding("Y", list(vec![vec![ident("X"), ident("X")]])),
        ],
        vec![group(Delim::Paren, vec![ident("Y")])],
    )];
    assert_output(
        items,
        vec![
            group(Delim::Paren, vec![ident("a"), ident("a")]),
            group(Delim::Paren, vec![ident("b"), ident("b")]),
        ],
    );
}

#[test]
fn static_text_passes_through_verbatim() {
    let items = vec![DoopBlockItem::Static {
        body: toks(vec![ident("fn"), ident("g"), group(Delim::Paren, vec![]), group(Delim::Brace, vec![])]),
    }];
    assert_output(
        items,
        vec![ident("fn"), ident("g"), group(Delim::Paren, vec![]), group(Delim::Brace, vec![])],
    );
}

#[test]
fn atoms_of_different_kinds_are_distinct() {
    // An identifier `x` and a literal `x` are different values to the sets.
    let items = vec![
        let_item("A", list(vec![vec![ident("x")], vec![lit("x")]])),
        for_item(
            vec![single_binding("V", name_ref("A"))],
            vec![ident("V"), punct(',')],
        ),
    ];
    assert_output(
        items,
        vec![ident("x"), punct(','), lit("x"), punct(',')],
    );
}
