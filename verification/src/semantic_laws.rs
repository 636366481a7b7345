//! What the passes of semantic analysis owe one another: label and loop
//! resolution leave type checking as it was, and identifier resolution
//! leaves no use of a name that type checking would not find.
use vstd::prelude::*;

use crate::names::bump;
use crate::parser::{
    BlockItemView, DeclarationView, ExpressionView, FactorView, ForInitView, FuncDeclarationView,
    PrimaryView, StatementView, StorageClass, TypedExpressionView, VariableDeclarationView,
};
use crate::resolve_identifiers::{
    spec_resolve_identifiers_from,
    initial_resolver, new_scope, outer_scope, spec_declare_function, spec_declare_variable,
    spec_ident_arguments, spec_ident_declarations, spec_ident_expression, spec_ident_factor,
    spec_ident_for_init, spec_ident_function, spec_ident_item, spec_ident_items,
    spec_ident_local_declaration, spec_ident_optional, spec_ident_params, spec_ident_primary,
    spec_ident_statement, spec_ident_top_declaration, spec_ident_variable,
    InfoView, ResolverView, Scope,
};
use crate::resolve_labels::{
    defined_labels, defined_labels_items, goto_targets, goto_targets_items, gotos_resolved,
    law_resolved_gotos_stay_in_their_function,
    label_name, spec_collect_item, spec_collect_items, spec_collect_statement, spec_goto_item,
    spec_goto_items, spec_goto_statement, spec_labels_declaration, spec_labels_declarations,
    LabelState,
};
use crate::resolve_loops::{
    loop_start, spec_resolve_loops_from, LoopCounters,
    in_loop, loop_label, spec_loops_declaration, spec_loops_declarations,
    spec_loops_item, spec_loops_items, spec_loops_statement, switch_label,
    top_context, LoopContext, LoopState,
};
use crate::resolve_lvalues::spec_resolve_lvalues;
use crate::resolve_types::{
    init_expression, spec_block_scope_variable, spec_declare_params, spec_file_scope_variable,
    spec_function_declared, spec_types_arguments, spec_types_declarations, spec_types_expression,
    spec_types_factor, spec_types_function, spec_types_item, spec_types_items,
    spec_types_local_declaration, spec_types_local_variable, spec_types_optional,
    spec_types_primary, spec_types_statement, spec_types_top_declaration, IdentifierAttribute,
    SymbolMap, Type, TypesOutcome,
};
use crate::semantic_analysis::{spec_expression_value, spec_resolve_program_from, NameCounters};
use crate::codegen::{asm_jump_targets, asm_labels, law_assembly_jumps_land_on_labels, spec_to_assembly};
use crate::tacky::{
    spec_tacky_declarations, TackyCounters,
    jumps_closed, law_lowered_jumps_land_on_labels, ready_for_jumps, label_of, case_bits, case_label, case_places, case_places_items, constant_bits, default_label,
    items_well_enclosed, well_enclosed,
};

verus! {

proof fn lemma_loops_keep_types_statement(s: StatementView, ctx: LoopContext, st: LoopState)
    requires
        spec_loops_statement(s, ctx, st) is Ok,
    ensures
        forall|t: SymbolMap|
            #![trigger spec_types_statement(spec_loops_statement(s, ctx, st)->Ok_0.0, t)]
            #![trigger spec_types_statement(s, t)]
            spec_types_statement(spec_loops_statement(s, ctx, st)->Ok_0.0, t)
                == spec_types_statement(s, t),
    decreases s, 0nat,
{
    let out = spec_loops_statement(s, ctx, st)->Ok_0.0;
    match s {
        StatementView::Labeled(l, body) => {
            lemma_loops_keep_types_statement(*body, ctx, st);
            let b2 = spec_loops_statement(*body, ctx, st)->Ok_0.0;
            assert(out == StatementView::Labeled(l, Box::new(b2)));
            assert forall|t: SymbolMap| spec_types_statement(out, t) == spec_types_statement(s, t) by {
                assert(spec_types_statement(out, t) == spec_types_statement(b2, t));
                assert(spec_types_statement(s, t) == spec_types_statement(*body, t));
                assert(spec_types_statement(b2, t) == spec_types_statement(*body, t));
            }
        },
        StatementView::If { condition, then_branch, else_branch } => {
            lemma_loops_keep_types_statement(*then_branch, ctx, st);
            let (t2, st1) = spec_loops_statement(*then_branch, ctx, st)->Ok_0;
            match else_branch {
                Some(e) => {
                    lemma_loops_keep_types_statement(*e, ctx, st1);
                    let e2 = spec_loops_statement(*e, ctx, st1)->Ok_0.0;
                    assert(out == StatementView::If {
                        condition,
                        then_branch: Box::new(t2),
                        else_branch: Some(Box::new(e2)),
                    });
                    assert forall|t: SymbolMap| spec_types_statement(out, t) == spec_types_statement(s, t) by {
                        match spec_types_expression(condition, t) {
                            TypesOutcome::Checked(ta) => {
                                assert(spec_types_statement(t2, ta) == spec_types_statement(*then_branch, ta));
                                match spec_types_statement(*then_branch, ta) {
                                    TypesOutcome::Checked(tb) => {
                                        assert(spec_types_statement(e2, tb) == spec_types_statement(*e, tb));
                                    },
                                    _ => {},
                                }
                            },
                            _ => {},
                        }
                    }
                },
                None => {
                    assert(out == StatementView::If {
                        condition,
                        then_branch: Box::new(t2),
                        else_branch: None,
                    });
                    assert forall|t: SymbolMap| spec_types_statement(out, t) == spec_types_statement(s, t) by {
                        match spec_types_expression(condition, t) {
                            TypesOutcome::Checked(ta) => {
                                assert(spec_types_statement(t2, ta) == spec_types_statement(*then_branch, ta));
                            },
                            _ => {},
                        }
                    }
                },
            }
        },
        StatementView::Default(body, _) => {
            let st1 = LoopState { default_used: true, ..st };
            lemma_loops_keep_types_statement(*body, ctx, st1);
            let b2 = spec_loops_statement(*body, ctx, st1)->Ok_0.0;
            assert(out == StatementView::Default(Box::new(b2), ctx.current_switch));
            assert forall|t: SymbolMap| spec_types_statement(out, t) == spec_types_statement(s, t) by {
                assert(spec_types_statement(b2, t) == spec_types_statement(*body, t));
            }
        },
        StatementView::Case(e, body, _) => {
            let v = spec_expression_value(e.expression)->Some_0;
            let st1 = LoopState { cases: st.cases.push(v), ..st };
            lemma_loops_keep_types_statement(*body, ctx, st1);
            let b2 = spec_loops_statement(*body, ctx, st1)->Ok_0.0;
            assert(out == StatementView::Case(e, Box::new(b2), ctx.current_switch));
            assert forall|t: SymbolMap| spec_types_statement(out, t) == spec_types_statement(s, t) by {
                match spec_types_expression(e, t) {
                    TypesOutcome::Checked(ta) => {
                        assert(spec_types_statement(b2, ta) == spec_types_statement(*body, ta));
                    },
                    _ => {},
                }
            }
        },
        StatementView::While { condition, body, label: _ } => {
            let l = loop_label("while"@, st.loops);
            let st1 = LoopState { loops: bump(st.loops), ..st };
            lemma_loops_keep_types_statement(*body, in_loop(ctx, l), st1);
            let b2 = spec_loops_statement(*body, in_loop(ctx, l), st1)->Ok_0.0;
            assert(out == StatementView::While { condition, body: Box::new(b2), label: Some(l) });
            assert forall|t: SymbolMap| spec_types_statement(out, t) == spec_types_statement(s, t) by {
                match spec_types_expression(condition, t) {
                    TypesOutcome::Checked(ta) => {
                        assert(spec_types_statement(b2, ta) == spec_types_statement(*body, ta));
                    },
                    _ => {},
                }
            }
        },
        StatementView::DoWhile { body, condition, label: _ } => {
            let l = loop_label("do_while"@, st.loops);
            let st1 = LoopState { loops: bump(st.loops), ..st };
            lemma_loops_keep_types_statement(*body, in_loop(ctx, l), st1);
            let b2 = spec_loops_statement(*body, in_loop(ctx, l), st1)->Ok_0.0;
            assert(out == StatementView::DoWhile { body: Box::new(b2), condition, label: Some(l) });
            assert forall|t: SymbolMap| spec_types_statement(out, t) == spec_types_statement(s, t) by {
                assert(spec_types_statement(b2, t) == spec_types_statement(*body, t));
            }
        },
        StatementView::For { init, condition, post, body, label: _ } => {
            let l = loop_label("for"@, st.loops);
            let st1 = LoopState { loops: bump(st.loops), ..st };
            lemma_loops_keep_types_statement(*body, in_loop(ctx, l), st1);
            let b2 = spec_loops_statement(*body, in_loop(ctx, l), st1)->Ok_0.0;
            assert(out == StatementView::For {
                init,
                condition,
                post,
                body: Box::new(b2),
                label: Some(l),
            });
            assert forall|t: SymbolMap| spec_types_statement(out, t) == spec_types_statement(s, t) by {
                let after_init = match init {
                    ForInitView::Declaration(d) => spec_types_local_variable(d, t),
                    ForInitView::Expression(e) => spec_types_optional(e, t),
                };
                match after_init {
                    TypesOutcome::Checked(ta) => match spec_types_optional(condition, ta) {
                        TypesOutcome::Checked(tb) => match spec_types_optional(post, tb) {
                            TypesOutcome::Checked(tc) => {
                                assert(spec_types_statement(b2, tc) == spec_types_statement(*body, tc));
                            },
                            _ => {},
                        },
                        _ => {},
                    },
                    _ => {},
                }
            }
        },
        StatementView::Switch { condition, body, .. } => {
            let l = switch_label(st.switches);
            let inner = LoopState {
                cases: seq![],
                default_used: false,
                loops: st.loops,
                switches: bump(st.switches),
            };
            let inner_ctx = LoopContext {
                current_loop: ctx.current_loop,
                current_switch: Some(l),
                break_target: Some(l),
            };
            lemma_loops_keep_types_statement(*body, inner_ctx, inner);
            let (b2, st2) = spec_loops_statement(*body, inner_ctx, inner)->Ok_0;
            assert(out == StatementView::Switch {
                condition,
                body: Box::new(b2),
                label: Some(l),
                cases: st2.cases,
                default_exists: st2.default_used,
            });
            assert forall|t: SymbolMap| spec_types_statement(out, t) == spec_types_statement(s, t) by {
                match spec_types_expression(condition, t) {
                    TypesOutcome::Checked(ta) => {
                        assert(spec_types_statement(b2, ta) == spec_types_statement(*body, ta));
                    },
                    _ => {},
                }
            }
        },
        StatementView::Block(items) => {
            lemma_loops_keep_types_items(items, ctx, st);
            let b2 = spec_loops_items(items, ctx, st)->Ok_0.0;
            assert(out == StatementView::Block(b2));
            assert forall|t: SymbolMap| spec_types_statement(out, t) == spec_types_statement(s, t) by {
                assert(spec_types_items(b2, t) == spec_types_items(items, t));
            }
        },
        _ => {},
    }
}

proof fn lemma_loops_keep_types_items(items: Seq<BlockItemView>, ctx: LoopContext, st: LoopState)
    requires
        spec_loops_items(items, ctx, st) is Ok,
    ensures
        forall|t: SymbolMap|
            #![trigger spec_types_items(spec_loops_items(items, ctx, st)->Ok_0.0, t)]
            #![trigger spec_types_items(items, t)]
            spec_types_items(spec_loops_items(items, ctx, st)->Ok_0.0, t) == spec_types_items(
                items,
                t,
            ),
    decreases items, items.len(),
{
    if items.len() > 0 {
        lemma_loops_keep_types_items(items.drop_last(), ctx, st);
        let (done, st1) = spec_loops_items(items.drop_last(), ctx, st)->Ok_0;
        let last = items.last();
        assert(spec_loops_item(last, ctx, st1) is Ok);
        let x = spec_loops_item(last, ctx, st1)->Ok_0.0;
        match last {
            BlockItemView::Statement(s) => {
                lemma_loops_keep_types_statement(s, ctx, st1);
                let s2 = spec_loops_statement(s, ctx, st1)->Ok_0.0;
                assert(x == BlockItemView::Statement(s2));
                assert forall|t1: SymbolMap| spec_types_item(x, t1) == spec_types_item(last, t1) by {
                    assert(spec_types_statement(s2, t1) == spec_types_statement(s, t1));
                }
            },
            BlockItemView::Declaration(_) => {},
        }
        let out = spec_loops_items(items, ctx, st)->Ok_0.0;
        assert(out.drop_last() =~= done);
        assert(out.last() == x);
        assert forall|t: SymbolMap| #[trigger] spec_types_items(out, t) == spec_types_items(
            items,
            t,
        ) by {
            assert(spec_types_items(done, t) == spec_types_items(items.drop_last(), t));
            match spec_types_items(done, t) {
                TypesOutcome::Checked(t1) => {
                    assert(spec_types_item(x, t1) == spec_types_item(last, t1));
                },
                _ => {},
            }
        }
    } else {
        assert(spec_loops_items(items, ctx, st)->Ok_0.0 =~= items);
    }
}

proof fn lemma_loops_keep_types_declarations(ds: Seq<DeclarationView>, st: LoopState)
    requires
        spec_loops_declarations(ds, st) is Ok,
    ensures
        forall|t: SymbolMap| #[trigger]
            spec_types_declarations(spec_loops_declarations(ds, st)->Ok_0.0, t)
                == spec_types_declarations(ds, t),
    decreases ds.len(),
{
    if ds.len() > 0 {
        lemma_loops_keep_types_declarations(ds.drop_last(), st);
        let (done, st1) = spec_loops_declarations(ds.drop_last(), st)->Ok_0;
        let last = ds.last();
        assert(spec_loops_declaration(last, st1) is Ok);
        let x = spec_loops_declaration(last, st1)->Ok_0.0;
        match last {
            DeclarationView::Function(f) => match f.body {
                Some(body) => {
                    lemma_loops_keep_types_items(body, top_context(), st1);
                    let b2 = spec_loops_items(body, top_context(), st1)->Ok_0.0;
                    let f2 = FuncDeclarationView { body: Some(b2), ..f };
                    assert(x == DeclarationView::Function(f2));
                    assert forall|t1: SymbolMap| #[trigger] spec_types_function(f2, t1)
                        == spec_types_function(f, t1) by {
                        match spec_function_declared(
                            t1,
                            f.identifier,
                            f.parameters.len() as u32,
                            true,
                            f.storage_class,
                        ) {
                            Ok(t2) => {
                                let tp = spec_declare_params(f.parameters, t2);
                                assert(spec_types_items(b2, tp) == spec_types_items(body, tp));
                            },
                            Err(_) => {},
                        }
                    }
                },
                None => {},
            },
            DeclarationView::Variable(_) => {},
        }
        let out = spec_loops_declarations(ds, st)->Ok_0.0;
        assert(out.drop_last() =~= done);
        assert(out.last() == x);
        assert forall|t: SymbolMap| #[trigger] spec_types_declarations(out, t)
            == spec_types_declarations(ds, t) by {
            assert(spec_types_declarations(done, t) == spec_types_declarations(ds.drop_last(), t));
            match spec_types_declarations(done, t) {
                TypesOutcome::Checked(t1) => {
                    assert(spec_types_top_declaration(x, t1) == spec_types_top_declaration(
                        last,
                        t1,
                    ));
                },
                _ => {},
            }
        }
    } else {
        assert(spec_loops_declarations(ds, st)->Ok_0.0 =~= ds);
    }
}

/// Loop resolution changes nothing that type checking reads: on the
/// program it gives, type checking ends as it ends on the program it was
/// given.
pub proof fn law_loops_keep_types(p: Seq<DeclarationView>, c: LoopCounters)
    requires
        spec_resolve_loops_from(p, c) is Ok,
    ensures
        forall|t: SymbolMap| #[trigger]
            spec_types_declarations(spec_resolve_loops_from(p, c)->Ok_0.0, t)
                == spec_types_declarations(p, t),
{
    lemma_loops_keep_types_declarations(p, loop_start(c));
}


proof fn lemma_collect_keep_types_statement(s: StatementView, st: LabelState)
    requires
        spec_collect_statement(s, st) is Ok,
    ensures
        forall|t: SymbolMap|
            #![trigger spec_types_statement(spec_collect_statement(s, st)->Ok_0.0, t)]
            #![trigger spec_types_statement(s, t)]
            spec_types_statement(spec_collect_statement(s, st)->Ok_0.0, t)
                == spec_types_statement(s, t),
    decreases s, 0nat,
{
    let out = spec_collect_statement(s, st)->Ok_0.0;
    match s {
        StatementView::Labeled(l, body) => {
            let u = label_name(l, st.counter);
            let st1 = LabelState { labels: st.labels.insert(l, u), counter: bump(st.counter) };
            lemma_collect_keep_types_statement(*body, st1);
            let b2 = spec_collect_statement(*body, st1)->Ok_0.0;
            assert(out == StatementView::Labeled(u, Box::new(b2)));
            assert forall|t: SymbolMap| spec_types_statement(out, t) == spec_types_statement(s, t) by {
                assert(spec_types_statement(b2, t) == spec_types_statement(*body, t));
            }
        },
        StatementView::If { condition, then_branch, else_branch } => {
            lemma_collect_keep_types_statement(*then_branch, st);
            let (t2, st1) = spec_collect_statement(*then_branch, st)->Ok_0;
            match else_branch {
                Some(e) => {
                    lemma_collect_keep_types_statement(*e, st1);
                    let e2 = spec_collect_statement(*e, st1)->Ok_0.0;
                    assert(out == StatementView::If {
                        condition,
                        then_branch: Box::new(t2),
                        else_branch: Some(Box::new(e2)),
                    });
                    assert forall|t: SymbolMap| spec_types_statement(out, t) == spec_types_statement(s, t) by {
                        match spec_types_expression(condition, t) {
                            TypesOutcome::Checked(ta) => {
                                assert(spec_types_statement(t2, ta) == spec_types_statement(*then_branch, ta));
                                match spec_types_statement(*then_branch, ta) {
                                    TypesOutcome::Checked(tb) => {
                                        assert(spec_types_statement(e2, tb) == spec_types_statement(*e, tb));
                                    },
                                    _ => {},
                                }
                            },
                            _ => {},
                        }
                    }
                },
                None => {
                    assert(out == StatementView::If {
                        condition,
                        then_branch: Box::new(t2),
                        else_branch: None,
                    });
                    assert forall|t: SymbolMap| spec_types_statement(out, t) == spec_types_statement(s, t) by {
                        match spec_types_expression(condition, t) {
                            TypesOutcome::Checked(ta) => {
                                assert(spec_types_statement(t2, ta) == spec_types_statement(*then_branch, ta));
                            },
                            _ => {},
                        }
                    }
                },
            }
        },
        StatementView::Case(e, body, l) => {
            lemma_collect_keep_types_statement(*body, st);
            let b2 = spec_collect_statement(*body, st)->Ok_0.0;
            assert(out == StatementView::Case(e, Box::new(b2), l));
            assert forall|t: SymbolMap| spec_types_statement(out, t) == spec_types_statement(s, t) by {
                match spec_types_expression(e, t) {
                    TypesOutcome::Checked(ta) => {
                        assert(spec_types_statement(b2, ta) == spec_types_statement(*body, ta));
                    },
                    _ => {},
                }
            }
        },
        StatementView::Default(body, l) => {
            lemma_collect_keep_types_statement(*body, st);
            let b2 = spec_collect_statement(*body, st)->Ok_0.0;
            assert(out == StatementView::Default(Box::new(b2), l));
            assert forall|t: SymbolMap| spec_types_statement(out, t) == spec_types_statement(s, t) by {
                assert(spec_types_statement(b2, t) == spec_types_statement(*body, t));
            }
        },
        StatementView::While { condition, body, label } => {
            lemma_collect_keep_types_statement(*body, st);
            let b2 = spec_collect_statement(*body, st)->Ok_0.0;
            assert(out == StatementView::While { condition, body: Box::new(b2), label });
            assert forall|t: SymbolMap| spec_types_statement(out, t) == spec_types_statement(s, t) by {
                match spec_types_expression(condition, t) {
                    TypesOutcome::Checked(ta) => {
                        assert(spec_types_statement(b2, ta) == spec_types_statement(*body, ta));
                    },
                    _ => {},
                }
            }
        },
        StatementView::DoWhile { body, condition, label } => {
            lemma_collect_keep_types_statement(*body, st);
            let b2 = spec_collect_statement(*body, st)->Ok_0.0;
            assert(out == StatementView::DoWhile { body: Box::new(b2), condition, label });
            assert forall|t: SymbolMap| spec_types_statement(out, t) == spec_types_statement(s, t) by {
                assert(spec_types_statement(b2, t) == spec_types_statement(*body, t));
            }
        },
        StatementView::For { init, condition, post, body, label } => {
            lemma_collect_keep_types_statement(*body, st);
            let b2 = spec_collect_statement(*body, st)->Ok_0.0;
            assert(out == StatementView::For { init, condition, post, body: Box::new(b2), label });
            assert forall|t: SymbolMap| spec_types_statement(out, t) == spec_types_statement(s, t) by {
                let after_init = match init {
                    ForInitView::Declaration(d) => spec_types_local_variable(d, t),
                    ForInitView::Expression(e) => spec_types_optional(e, t),
                };
                match after_init {
                    TypesOutcome::Checked(ta) => match spec_types_optional(condition, ta) {
                        TypesOutcome::Checked(tb) => match spec_types_optional(post, tb) {
                            TypesOutcome::Checked(tc) => {
                                assert(spec_types_statement(b2, tc) == spec_types_statement(*body, tc));
                            },
                            _ => {},
                        },
                        _ => {},
                    },
                    _ => {},
                }
            }
        },
        StatementView::Switch { condition, body, label, cases, default_exists } => {
            lemma_collect_keep_types_statement(*body, st);
            let b2 = spec_collect_statement(*body, st)->Ok_0.0;
            assert(out == StatementView::Switch {
                condition,
                body: Box::new(b2),
                label,
                cases,
                default_exists,
            });
            assert forall|t: SymbolMap| spec_types_statement(out, t) == spec_types_statement(s, t) by {
                match spec_types_expression(condition, t) {
                    TypesOutcome::Checked(ta) => {
                        assert(spec_types_statement(b2, ta) == spec_types_statement(*body, ta));
                    },
                    _ => {},
                }
            }
        },
        StatementView::Block(items) => {
            lemma_collect_keep_types_items(items, st);
            let b2 = spec_collect_items(items, st)->Ok_0.0;
            assert(out == StatementView::Block(b2));
            assert forall|t: SymbolMap| spec_types_statement(out, t) == spec_types_statement(s, t) by {
                assert(spec_types_items(b2, t) == spec_types_items(items, t));
            }
        },
        _ => {},
    }
}

proof fn lemma_collect_keep_types_items(items: Seq<BlockItemView>, st: LabelState)
    requires
        spec_collect_items(items, st) is Ok,
    ensures
        forall|t: SymbolMap|
            #![trigger spec_types_items(spec_collect_items(items, st)->Ok_0.0, t)]
            #![trigger spec_types_items(items, t)]
            spec_types_items(spec_collect_items(items, st)->Ok_0.0, t) == spec_types_items(
                items,
                t,
            ),
    decreases items, items.len(),
{
    if items.len() > 0 {
        lemma_collect_keep_types_items(items.drop_last(), st);
        let (done, st1) = spec_collect_items(items.drop_last(), st)->Ok_0;
        let last = items.last();
        assert(spec_collect_item(last, st1) is Ok);
        let x = spec_collect_item(last, st1)->Ok_0.0;
        match last {
            BlockItemView::Statement(s) => {
                lemma_collect_keep_types_statement(s, st1);
                let s2 = spec_collect_statement(s, st1)->Ok_0.0;
                assert(x == BlockItemView::Statement(s2));
                assert forall|t1: SymbolMap| spec_types_item(x, t1) == spec_types_item(last, t1) by {
                    assert(spec_types_statement(s2, t1) == spec_types_statement(s, t1));
                }
            },
            BlockItemView::Declaration(_) => {},
        }
        let out = spec_collect_items(items, st)->Ok_0.0;
        assert(out.drop_last() =~= done);
        assert(out.last() == x);
        assert forall|t: SymbolMap| #[trigger] spec_types_items(out, t) == spec_types_items(
            items,
            t,
        ) by {
            assert(spec_types_items(done, t) == spec_types_items(items.drop_last(), t));
            match spec_types_items(done, t) {
                TypesOutcome::Checked(t1) => {
                    assert(spec_types_item(x, t1) == spec_types_item(last, t1));
                },
                _ => {},
            }
        }
    } else {
        assert(spec_collect_items(items, st)->Ok_0.0 =~= items);
    }
}

proof fn lemma_goto_keep_types_statement(s: StatementView, labels: Map<Seq<char>, Seq<char>>)
    requires
        spec_goto_statement(s, labels) is Ok,
    ensures
        forall|t: SymbolMap|
            #![trigger spec_types_statement(spec_goto_statement(s, labels)->Ok_0, t)]
            #![trigger spec_types_statement(s, t)]
            spec_types_statement(spec_goto_statement(s, labels)->Ok_0, t)
                == spec_types_statement(s, t),
    decreases s, 0nat,
{
    let out = spec_goto_statement(s, labels)->Ok_0;
    match s {
        StatementView::Labeled(l, body) => {
            lemma_goto_keep_types_statement(*body, labels);
            let b2 = spec_goto_statement(*body, labels)->Ok_0;
            assert(out == StatementView::Labeled(l, Box::new(b2)));
            assert forall|t: SymbolMap| spec_types_statement(out, t) == spec_types_statement(s, t) by {
                assert(spec_types_statement(b2, t) == spec_types_statement(*body, t));
            }
        },
        StatementView::If { condition, then_branch, else_branch } => {
            lemma_goto_keep_types_statement(*then_branch, labels);
            let t2 = spec_goto_statement(*then_branch, labels)->Ok_0;
            match else_branch {
                Some(e) => {
                    lemma_goto_keep_types_statement(*e, labels);
                    let e2 = spec_goto_statement(*e, labels)->Ok_0;
                    assert(out == StatementView::If {
                        condition,
                        then_branch: Box::new(t2),
                        else_branch: Some(Box::new(e2)),
                    });
                    assert forall|t: SymbolMap| spec_types_statement(out, t) == spec_types_statement(s, t) by {
                        match spec_types_expression(condition, t) {
                            TypesOutcome::Checked(ta) => {
                                assert(spec_types_statement(t2, ta) == spec_types_statement(*then_branch, ta));
                                match spec_types_statement(*then_branch, ta) {
                                    TypesOutcome::Checked(tb) => {
                                        assert(spec_types_statement(e2, tb) == spec_types_statement(*e, tb));
                                    },
                                    _ => {},
                                }
                            },
                            _ => {},
                        }
                    }
                },
                None => {
                    assert(out == StatementView::If {
                        condition,
                        then_branch: Box::new(t2),
                        else_branch: None,
                    });
                    assert forall|t: SymbolMap| spec_types_statement(out, t) == spec_types_statement(s, t) by {
                        match spec_types_expression(condition, t) {
                            TypesOutcome::Checked(ta) => {
                                assert(spec_types_statement(t2, ta) == spec_types_statement(*then_branch, ta));
                            },
                            _ => {},
                        }
                    }
                },
            }
        },
        StatementView::Case(e, body, l) => {
            lemma_goto_keep_types_statement(*body, labels);
            let b2 = spec_goto_statement(*body, labels)->Ok_0;
            assert(out == StatementView::Case(e, Box::new(b2), l));
            assert forall|t: SymbolMap| spec_types_statement(out, t) == spec_types_statement(s, t) by {
                match spec_types_expression(e, t) {
                    TypesOutcome::Checked(ta) => {
                        assert(spec_types_statement(b2, ta) == spec_types_statement(*body, ta));
                    },
                    _ => {},
                }
            }
        },
        StatementView::Default(body, l) => {
            lemma_goto_keep_types_statement(*body, labels);
            let b2 = spec_goto_statement(*body, labels)->Ok_0;
            assert(out == StatementView::Default(Box::new(b2), l));
            assert forall|t: SymbolMap| spec_types_statement(out, t) == spec_types_statement(s, t) by {
                assert(spec_types_statement(b2, t) == spec_types_statement(*body, t));
            }
        },
        StatementView::While { condition, body, label } => {
            lemma_goto_keep_types_statement(*body, labels);
            let b2 = spec_goto_statement(*body, labels)->Ok_0;
            assert(out == StatementView::While { condition, body: Box::new(b2), label });
            assert forall|t: SymbolMap| spec_types_statement(out, t) == spec_types_statement(s, t) by {
                match spec_types_expression(condition, t) {
                    TypesOutcome::Checked(ta) => {
                        assert(spec_types_statement(b2, ta) == spec_types_statement(*body, ta));
                    },
                    _ => {},
                }
            }
        },
        StatementView::DoWhile { body, condition, label } => {
            lemma_goto_keep_types_statement(*body, labels);
            let b2 = spec_goto_statement(*body, labels)->Ok_0;
            assert(out == StatementView::DoWhile { body: Box::new(b2), condition, label });
            assert forall|t: SymbolMap| spec_types_statement(out, t) == spec_types_statement(s, t) by {
                assert(spec_types_statement(b2, t) == spec_types_statement(*body, t));
            }
        },
        StatementView::For { init, condition, post, body, label } => {
            lemma_goto_keep_types_statement(*body, labels);
            let b2 = spec_goto_statement(*body, labels)->Ok_0;
            assert(out == StatementView::For { init, condition, post, body: Box::new(b2), label });
            assert forall|t: SymbolMap| spec_types_statement(out, t) == spec_types_statement(s, t) by {
                let after_init = match init {
                    ForInitView::Declaration(d) => spec_types_local_variable(d, t),
                    ForInitView::Expression(e) => spec_types_optional(e, t),
                };
                match after_init {
                    TypesOutcome::Checked(ta) => match spec_types_optional(condition, ta) {
                        TypesOutcome::Checked(tb) => match spec_types_optional(post, tb) {
                            TypesOutcome::Checked(tc) => {
                                assert(spec_types_statement(b2, tc) == spec_types_statement(*body, tc));
                            },
                            _ => {},
                        },
                        _ => {},
                    },
                    _ => {},
                }
            }
        },
        StatementView::Switch { condition, body, label, cases, default_exists } => {
            lemma_goto_keep_types_statement(*body, labels);
            let b2 = spec_goto_statement(*body, labels)->Ok_0;
            assert(out == StatementView::Switch {
                condition,
                body: Box::new(b2),
                label,
                cases,
                default_exists,
            });
            assert forall|t: SymbolMap| spec_types_statement(out, t) == spec_types_statement(s, t) by {
                match spec_types_expression(condition, t) {
                    TypesOutcome::Checked(ta) => {
                        assert(spec_types_statement(b2, ta) == spec_types_statement(*body, ta));
                    },
                    _ => {},
                }
            }
        },
        StatementView::Block(items) => {
            lemma_goto_keep_types_items(items, labels);
            let b2 = spec_goto_items(items, labels)->Ok_0;
            assert(out == StatementView::Block(b2));
            assert forall|t: SymbolMap| spec_types_statement(out, t) == spec_types_statement(s, t) by {
                assert(spec_types_items(b2, t) == spec_types_items(items, t));
            }
        },
        _ => {},
    }
}

proof fn lemma_goto_keep_types_items(items: Seq<BlockItemView>, labels: Map<Seq<char>, Seq<char>>)
    requires
        spec_goto_items(items, labels) is Ok,
    ensures
        forall|t: SymbolMap|
            #![trigger spec_types_items(spec_goto_items(items, labels)->Ok_0, t)]
            #![trigger spec_types_items(items, t)]
            spec_types_items(spec_goto_items(items, labels)->Ok_0, t) == spec_types_items(
                items,
                t,
            ),
    decreases items, items.len(),
{
    if items.len() > 0 {
        lemma_goto_keep_types_items(items.drop_last(), labels);
        let done = spec_goto_items(items.drop_last(), labels)->Ok_0;
        let last = items.last();
        assert(spec_goto_item(last, labels) is Ok);
        let x = spec_goto_item(last, labels)->Ok_0;
        match last {
            BlockItemView::Statement(s) => {
                lemma_goto_keep_types_statement(s, labels);
                let s2 = spec_goto_statement(s, labels)->Ok_0;
                assert(x == BlockItemView::Statement(s2));
                assert forall|t1: SymbolMap| spec_types_item(x, t1) == spec_types_item(last, t1) by {
                    assert(spec_types_statement(s2, t1) == spec_types_statement(s, t1));
                }
            },
            BlockItemView::Declaration(_) => {},
        }
        let out = spec_goto_items(items, labels)->Ok_0;
        assert(out.drop_last() =~= done);
        assert(out.last() == x);
        assert forall|t: SymbolMap| #[trigger] spec_types_items(out, t) == spec_types_items(
            items,
            t,
        ) by {
            assert(spec_types_items(done, t) == spec_types_items(items.drop_last(), t));
            match spec_types_items(done, t) {
                TypesOutcome::Checked(t1) => {
                    assert(spec_types_item(x, t1) == spec_types_item(last, t1));
                },
                _ => {},
            }
        }
    } else {
        assert(spec_goto_items(items, labels)->Ok_0 =~= items);
    }
}

proof fn lemma_labels_keep_types_declarations(ds: Seq<DeclarationView>, counter: usize)
    requires
        spec_labels_declarations(ds, counter) is Ok,
    ensures
        forall|t: SymbolMap| #[trigger]
            spec_types_declarations(spec_labels_declarations(ds, counter)->Ok_0.0, t)
                == spec_types_declarations(ds, t),
    decreases ds.len(),
{
    if ds.len() > 0 {
        lemma_labels_keep_types_declarations(ds.drop_last(), counter);
        let (done, c1) = spec_labels_declarations(ds.drop_last(), counter)->Ok_0;
        let last = ds.last();
        assert(spec_labels_declaration(last, c1) is Ok);
        let x = spec_labels_declaration(last, c1)->Ok_0.0;
        match last {
            DeclarationView::Function(f) => match f.body {
                Some(body) => {
                    let st0 = LabelState { labels: Map::empty(), counter: c1 };
                    assert(spec_collect_items(body, st0) is Ok);
                    lemma_collect_keep_types_items(body, st0);
                    let (b1, st1) = spec_collect_items(body, st0)->Ok_0;
                    assert(spec_goto_items(b1, st1.labels) is Ok);
                    lemma_goto_keep_types_items(b1, st1.labels);
                    let b2 = spec_goto_items(b1, st1.labels)->Ok_0;
                    let f2 = FuncDeclarationView { body: Some(b2), ..f };
                    assert(x == DeclarationView::Function(f2));
                    assert forall|t1: SymbolMap| #[trigger] spec_types_function(f2, t1)
                        == spec_types_function(f, t1) by {
                        match spec_function_declared(
                            t1,
                            f.identifier,
                            f.parameters.len() as u32,
                            true,
                            f.storage_class,
                        ) {
                            Ok(t2) => {
                                let tp = spec_declare_params(f.parameters, t2);
                                assert(spec_types_items(b2, tp) == spec_types_items(b1, tp));
                                assert(spec_types_items(b1, tp) == spec_types_items(body, tp));
                            },
                            Err(_) => {},
                        }
                    }
                },
                None => {},
            },
            DeclarationView::Variable(_) => {},
        }
        let out = spec_labels_declarations(ds, counter)->Ok_0.0;
        assert(out.drop_last() =~= done);
        assert(out.last() == x);
        assert forall|t: SymbolMap| #[trigger] spec_types_declarations(out, t)
            == spec_types_declarations(ds, t) by {
            assert(spec_types_declarations(done, t) == spec_types_declarations(ds.drop_last(), t));
            match spec_types_declarations(done, t) {
                TypesOutcome::Checked(t1) => {
                    assert(spec_types_top_declaration(x, t1) == spec_types_top_declaration(
                        last,
                        t1,
                    ));
                },
                _ => {},
            }
        }
    } else {
        assert(spec_labels_declarations(ds, counter)->Ok_0.0 =~= ds);
    }
}

/// Label resolution changes nothing that type checking reads: on the
/// program it gives, type checking ends as it ends on the program it was
/// given.
pub proof fn law_labels_keep_types(p: Seq<DeclarationView>, counter: usize)
    requires
        spec_labels_declarations(p, counter) is Ok,
    ensures
        forall|t: SymbolMap| #[trigger]
            spec_types_declarations(spec_labels_declarations(p, counter)->Ok_0.0, t)
                == spec_types_declarations(p, t),
{
    lemma_labels_keep_types_declarations(p, counter);
}


/// Every name in scope stands for a name the table holds.
pub open spec fn scope_in(m: Scope, t: SymbolMap) -> bool {
    forall|k: Seq<char>| #[trigger] m.contains_key(k) ==> t.contains_key(m[k].unique_name)
}

/// The table `t2` holds every name that `t` holds.
pub open spec fn grows(t: SymbolMap, t2: SymbolMap) -> bool {
    forall|k: Seq<char>| #[trigger] t.contains_key(k) ==> t2.contains_key(k)
}

/// Checking an expression does not stop at an undeclared name, and leaves
/// the table as it was.
pub open spec fn expression_checked(o: TypesOutcome, t: SymbolMap) -> bool {
    match o {
        TypesOutcome::Checked(t2) => t2 == t,
        TypesOutcome::Failed(_) => true,
        TypesOutcome::Undeclared => false,
    }
}

/// Checking does not stop at an undeclared name, and the table it leaves
/// holds what `t` held and every name of `m`.
pub open spec fn checked_within(o: TypesOutcome, t: SymbolMap, m: Scope) -> bool {
    match o {
        TypesOutcome::Checked(t2) => grows(t, t2) && scope_in(m, t2),
        TypesOutcome::Failed(_) => true,
        TypesOutcome::Undeclared => false,
    }
}

proof fn lemma_ident_expression_declared(e: TypedExpressionView, m: Scope, t: SymbolMap)
    requires
        spec_ident_expression(e, m) is Ok,
        scope_in(m, t),
    ensures
        expression_checked(spec_types_expression(spec_ident_expression(e, m)->Ok_0, t), t),
    decreases e, 3nat,
{
    let e2 = spec_ident_expression(e, m)->Ok_0;
    match e.expression {
        ExpressionView::Factor(f) => {
            lemma_ident_factor_declared(f, m, t);
            let f2 = spec_ident_factor(f, m)->Ok_0;
            assert(e2.expression == ExpressionView::Factor(f2));
        },
        ExpressionView::BinaryOp { op, left, right } => {
            lemma_ident_expression_declared(*left, m, t);
            lemma_ident_expression_declared(*right, m, t);
            let l2 = spec_ident_expression(*left, m)->Ok_0;
            let r2 = spec_ident_expression(*right, m)->Ok_0;
            assert(e2.expression == ExpressionView::BinaryOp {
                op,
                left: Box::new(l2),
                right: Box::new(r2),
            });
        },
        ExpressionView::Assignment { left, right } => {
            lemma_ident_expression_declared(*left, m, t);
            lemma_ident_expression_declared(*right, m, t);
            let l2 = spec_ident_expression(*left, m)->Ok_0;
            let r2 = spec_ident_expression(*right, m)->Ok_0;
            assert(e2.expression == ExpressionView::Assignment {
                left: Box::new(l2),
                right: Box::new(r2),
            });
        },
        ExpressionView::Conditional { condition, then_branch, else_branch } => {
            lemma_ident_expression_declared(*condition, m, t);
            lemma_ident_expression_declared(*then_branch, m, t);
            lemma_ident_expression_declared(*else_branch, m, t);
            let c2 = spec_ident_expression(*condition, m)->Ok_0;
            let t2 = spec_ident_expression(*then_branch, m)->Ok_0;
            let f2 = spec_ident_expression(*else_branch, m)->Ok_0;
            assert(e2.expression == ExpressionView::Conditional {
                condition: Box::new(c2),
                then_branch: Box::new(t2),
                else_branch: Box::new(f2),
            });
        },
    }
}

proof fn lemma_ident_factor_declared(f: FactorView, m: Scope, t: SymbolMap)
    requires
        spec_ident_factor(f, m) is Ok,
        scope_in(m, t),
    ensures
        expression_checked(spec_types_factor(spec_ident_factor(f, m)->Ok_0, t), t),
    decreases f, 2nat,
{
    match f {
        FactorView::UnaryOp { op, fac } => {
            lemma_ident_factor_declared(*fac, m, t);
        },
        FactorView::Postfix(p) => {
            lemma_ident_primary_declared(p.primary, m, t);
        },
        FactorView::Cast { ty, fac } => {
            lemma_ident_factor_declared(*fac, m, t);
        },
    }
}

proof fn lemma_ident_primary_declared(p: PrimaryView, m: Scope, t: SymbolMap)
    requires
        spec_ident_primary(p, m) is Ok,
        scope_in(m, t),
    ensures
        expression_checked(spec_types_primary(spec_ident_primary(p, m)->Ok_0, t), t),
    decreases p, 1nat,
{
    match p {
        PrimaryView::Var(id) => {
            assert(m.contains_key(id));
        },
        PrimaryView::Paren(e) => {
            lemma_ident_expression_declared(*e, m, t);
        },
        PrimaryView::Constant(_) => {},
        PrimaryView::FunctionCall(name, args) => {
            assert(m.contains_key(name));
            lemma_ident_arguments_declared(args, m, t);
        },
    }
}

proof fn lemma_ident_arguments_declared(args: Seq<TypedExpressionView>, m: Scope, t: SymbolMap)
    requires
        spec_ident_arguments(args, m) is Ok,
        scope_in(m, t),
    ensures
        expression_checked(spec_types_arguments(spec_ident_arguments(args, m)->Ok_0, t), t),
        spec_ident_arguments(args, m)->Ok_0.len() == args.len(),
    decreases args, args.len(),
{
    if args.len() > 0 {
        lemma_ident_arguments_declared(args.drop_last(), m, t);
        lemma_ident_expression_declared(args.last(), m, t);
        let done = spec_ident_arguments(args.drop_last(), m)->Ok_0;
        let x = spec_ident_expression(args.last(), m)->Ok_0;
        let out = spec_ident_arguments(args, m)->Ok_0;
        assert(out.drop_last() =~= done);
        assert(out.last() == x);
    } else {
        assert(spec_ident_arguments(args, m)->Ok_0 =~= seq![]);
    }
}

proof fn lemma_ident_optional_declared(e: Option<TypedExpressionView>, m: Scope, t: SymbolMap)
    requires
        spec_ident_optional(e, m) is Ok,
        scope_in(m, t),
    ensures
        expression_checked(spec_types_optional(spec_ident_optional(e, m)->Ok_0, t), t),
{
    match e {
        Some(x) => {
            lemma_ident_expression_declared(x, m, t);
        },
        None => {},
    }
}


proof fn lemma_block_scope_grows(
    t: SymbolMap,
    u: Seq<char>,
    init: Option<ExpressionView>,
    sc: Option<StorageClass>,
)
    requires
        spec_block_scope_variable(t, u, init, sc) is Ok,
    ensures
        spec_block_scope_variable(t, u, init, sc)->Ok_0.contains_key(u),
        grows(t, spec_block_scope_variable(t, u, init, sc)->Ok_0),
{
}

proof fn lemma_file_scope_grows(
    t: SymbolMap,
    u: Seq<char>,
    init: Option<ExpressionView>,
    sc: Option<StorageClass>,
)
    requires
        spec_file_scope_variable(t, u, init, sc) is Ok,
    ensures
        spec_file_scope_variable(t, u, init, sc)->Ok_0.contains_key(u),
        grows(t, spec_file_scope_variable(t, u, init, sc)->Ok_0),
{
}

proof fn lemma_function_declared_grows(
    t: SymbolMap,
    id: Seq<char>,
    n: u32,
    has_body: bool,
    sc: Option<StorageClass>,
)
    requires
        spec_function_declared(t, id, n, has_body, sc) is Ok,
    ensures
        spec_function_declared(t, id, n, has_body, sc)->Ok_0.contains_key(id),
        grows(t, spec_function_declared(t, id, n, has_body, sc)->Ok_0),
{
}

proof fn lemma_scope_in_grows(m: Scope, t: SymbolMap, t2: SymbolMap)
    requires
        scope_in(m, t),
        grows(t, t2),
    ensures
        scope_in(m, t2),
{
}

proof fn lemma_scope_in_insert(m: Scope, t: SymbolMap, k: Seq<char>, info: InfoView)
    requires
        scope_in(m, t),
        t.contains_key(info.unique_name),
    ensures
        scope_in(m.insert(k, info), t),
{
}

proof fn lemma_ident_variable_declared(
    v: VariableDeclarationView,
    r: ResolverView,
    c: usize,
    t: SymbolMap,
)
    requires
        spec_ident_variable(v, r, c) is Ok,
        scope_in(r.map, t),
    ensures
        checked_within(
            spec_types_local_variable(spec_ident_variable(v, r, c)->Ok_0.0, t),
            t,
            spec_ident_variable(v, r, c)->Ok_0.1.map,
        ),
        spec_ident_variable(v, r, c)->Ok_0.0.storage_class == v.storage_class,
{
    let (u, r1, c1) = spec_declare_variable(r, v.identifier, v.storage_class, c)->Ok_0;
    let v2 = spec_ident_variable(v, r, c)->Ok_0.0;
    assert(r1.map.contains_key(v.identifier) && r1.map[v.identifier].unique_name == u);
    assert(forall|k: Seq<char>| k != v.identifier ==> (#[trigger] r1.map.contains_key(k)) == r.map.contains_key(k));
    assert(forall|k: Seq<char>| k != v.identifier && r.map.contains_key(k) ==> #[trigger] r1.map[k] == r.map[k]);
    assert(v2.identifier == u);
    match spec_block_scope_variable(t, u, init_expression(v2.initialiser), v2.storage_class) {
        Ok(t1) => {
            lemma_block_scope_grows(t, u, init_expression(v2.initialiser), v2.storage_class);
            assert(scope_in(r1.map, t1));
            lemma_ident_optional_declared(v.initialiser, r1.map, t1);
        },
        Err(_) => {},
    }
}

proof fn lemma_ident_params_declared(ps: Seq<Seq<char>>, r: ResolverView, c: usize, t: SymbolMap)
    requires
        spec_ident_params(ps, r, c) is Ok,
        scope_in(r.map, t),
    ensures
        scope_in(
            spec_ident_params(ps, r, c)->Ok_0.1.map,
            spec_declare_params(spec_ident_params(ps, r, c)->Ok_0.0, t),
        ),
        grows(t, spec_declare_params(spec_ident_params(ps, r, c)->Ok_0.0, t)),
    decreases ps.len(),
{
    if ps.len() == 0 {
        assert(spec_ident_params(ps, r, c)->Ok_0.0 =~= seq![]);
    } else {
        lemma_ident_params_declared(ps.drop_last(), r, c, t);
        let (done, r1, c1) = spec_ident_params(ps.drop_last(), r, c)->Ok_0;
        let (u, r2, c2) = spec_declare_variable(r1, ps.last(), None, c1)->Ok_0;
        let out = spec_ident_params(ps, r, c)->Ok_0.0;
        assert(out == done.push(u));
        assert(out.drop_last() =~= done);
        let tp1 = spec_declare_params(done, t);
        let tp = spec_declare_params(out, t);
        assert(tp == tp1.insert(u, (Type::Int, IdentifierAttribute::Local)));
        assert(r2.map.contains_key(ps.last()) && r2.map[ps.last()].unique_name == u);
        assert(forall|k: Seq<char>| k != ps.last() ==> (#[trigger] r2.map.contains_key(k)) == r1.map.contains_key(k));
        assert(forall|k: Seq<char>| k != ps.last() && r1.map.contains_key(k) ==> #[trigger] r2.map[k] == r1.map[k]);
        assert(scope_in(r2.map, tp));
    }
}


proof fn lemma_grows_trans(t1: SymbolMap, t2: SymbolMap, t3: SymbolMap)
    requires
        grows(t1, t2),
        grows(t2, t3),
    ensures
        grows(t1, t3),
{
}

proof fn lemma_outer_scope_in(m: Scope, t: SymbolMap)
    requires
        scope_in(m, t),
    ensures
        scope_in(outer_scope(m), t),
{
    assert forall|k: Seq<char>| #[trigger] outer_scope(m).contains_key(k) implies t.contains_key(
        outer_scope(m)[k].unique_name,
    ) by {
        assert(m.contains_key(k));
    }
}

proof fn lemma_ident_function_declared(f: FuncDeclarationView, r: ResolverView, c: usize, t: SymbolMap)
    requires
        spec_ident_function(f, r, c) is Ok,
        scope_in(r.map, t),
    ensures
        checked_within(
            spec_types_function(spec_ident_function(f, r, c)->Ok_0.0, t),
            t,
            spec_ident_function(f, r, c)->Ok_0.1.map,
        ),
    decreases f, 1nat,
{
    let r1 = spec_declare_function(r, f.identifier, f.body is Some, f.storage_class)->Ok_0;
    let (ps, inner, c1) = spec_ident_params(f.parameters, new_scope(r1), c)->Ok_0;
    let (f2, rout, c2) = spec_ident_function(f, r, c)->Ok_0;
    assert(rout == r1);
    assert(f2.identifier == f.identifier && f2.parameters == ps && f2.storage_class
        == f.storage_class && (f2.body is Some) == (f.body is Some));
    let info = InfoView { unique_name: f.identifier, from_current_scope: true, has_linkage: true };
    assert(r1.map == r.map.insert(f.identifier, info));
    match spec_function_declared(
        t,
        f2.identifier,
        f2.parameters.len() as u32,
        f2.body is Some,
        f2.storage_class,
    ) {
        Ok(ta) => {
            lemma_function_declared_grows(
                t,
                f2.identifier,
                f2.parameters.len() as u32,
                f2.body is Some,
                f2.storage_class,
            );
            lemma_scope_in_grows(r.map, t, ta);
            lemma_scope_in_insert(r.map, ta, f.identifier, info);
            match f.body {
                Some(b) => {
                    lemma_outer_scope_in(r1.map, ta);
                    lemma_ident_params_declared(f.parameters, new_scope(r1), c, ta);
                    let tp = spec_declare_params(ps, ta);
                    lemma_ident_items_declared(b, inner, c1, tp);
                    let b2 = spec_ident_items(b, inner, c1)->Ok_0.0;
                    assert(f2.body == Some(b2));
                    match spec_types_items(b2, tp) {
                        TypesOutcome::Checked(t3) => {
                            lemma_grows_trans(ta, tp, t3);
                            lemma_grows_trans(t, ta, t3);
                            lemma_scope_in_grows(r1.map, ta, t3);
                        },
                        _ => {},
                    }
                },
                None => {},
            }
        },
        Err(_) => {},
    }
}

proof fn lemma_ident_local_declaration_declared(
    d: DeclarationView,
    r: ResolverView,
    c: usize,
    t: SymbolMap,
)
    requires
        spec_ident_local_declaration(d, r, c) is Ok,
        scope_in(r.map, t),
    ensures
        checked_within(
            spec_types_local_declaration(spec_ident_local_declaration(d, r, c)->Ok_0.0, t),
            t,
            spec_ident_local_declaration(d, r, c)->Ok_0.1.map,
        ),
    decreases d, 2nat,
{
    match d {
        DeclarationView::Variable(v) => {
            lemma_ident_variable_declared(v, r, c, t);
        },
        DeclarationView::Function(f) => {
            lemma_ident_function_declared(f, r, c, t);
        },
    }
}

proof fn lemma_ident_item_declared(item: BlockItemView, r: ResolverView, c: usize, t: SymbolMap)
    requires
        spec_ident_item(item, r, c) is Ok,
        scope_in(r.map, t),
    ensures
        checked_within(
            spec_types_item(spec_ident_item(item, r, c)->Ok_0.0, t),
            t,
            spec_ident_item(item, r, c)->Ok_0.1.map,
        ),
    decreases item, 3nat,
{
    match item {
        BlockItemView::Statement(s) => {
            lemma_ident_statement_declared(s, r, c, t);
        },
        BlockItemView::Declaration(d) => {
            lemma_ident_local_declaration_declared(d, r, c, t);
        },
    }
}

proof fn lemma_ident_items_declared(items: Seq<BlockItemView>, r: ResolverView, c: usize, t: SymbolMap)
    requires
        spec_ident_items(items, r, c) is Ok,
        scope_in(r.map, t),
    ensures
        checked_within(
            spec_types_items(spec_ident_items(items, r, c)->Ok_0.0, t),
            t,
            spec_ident_items(items, r, c)->Ok_0.1.map,
        ),
    decreases items, items.len(),
{
    if items.len() == 0 {
        assert(spec_ident_items(items, r, c)->Ok_0.0 =~= seq![]);
    } else {
        lemma_ident_items_declared(items.drop_last(), r, c, t);
        let (done, r1, c1) = spec_ident_items(items.drop_last(), r, c)->Ok_0;
        let (x, r2, c2) = spec_ident_item(items.last(), r1, c1)->Ok_0;
        let out = spec_ident_items(items, r, c)->Ok_0;
        assert(out.0.drop_last() =~= done);
        assert(out.0.last() == x);
        assert(out.1 == r2);
        match spec_types_items(done, t) {
            TypesOutcome::Checked(ta) => {
                lemma_ident_item_declared(items.last(), r1, c1, ta);
                match spec_types_item(x, ta) {
                    TypesOutcome::Checked(tb) => {
                        lemma_grows_trans(t, ta, tb);
                    },
                    _ => {},
                }
            },
            _ => {},
        }
    }
}

proof fn lemma_ident_statement_declared(s: StatementView, r: ResolverView, c: usize, t: SymbolMap)
    requires
        spec_ident_statement(s, r, c) is Ok,
        scope_in(r.map, t),
    ensures
        checked_within(spec_types_statement(spec_ident_statement(s, r, c)->Ok_0.0, t), t, r.map),
    decreases s, 0nat,
{
    let out = spec_ident_statement(s, r, c)->Ok_0.0;
    match s {
        StatementView::Return(e) => {
            lemma_ident_expression_declared(e, r.map, t);
        },
        StatementView::Expression(e) => {
            lemma_ident_expression_declared(e, r.map, t);
        },
        StatementView::If { condition, then_branch, else_branch } => {
            lemma_ident_expression_declared(condition, r.map, t);
            let cond2 = spec_ident_expression(condition, r.map)->Ok_0;
            let (then2, c1) = spec_ident_statement(*then_branch, r, c)->Ok_0;
            lemma_ident_statement_declared(*then_branch, r, c, t);
            match spec_types_statement(then2, t) {
                TypesOutcome::Checked(ta) => {
                    lemma_scope_in_grows(r.map, t, ta);
                    match else_branch {
                        Some(e) => {
                            lemma_ident_statement_declared(*e, r, c1, ta);
                            let else2 = spec_ident_statement(*e, r, c1)->Ok_0.0;
                            assert(out == StatementView::If {
                                condition: cond2,
                                then_branch: Box::new(then2),
                                else_branch: Some(Box::new(else2)),
                            });
                            match spec_types_statement(else2, ta) {
                                TypesOutcome::Checked(tb) => {
                                    lemma_grows_trans(t, ta, tb);
                                },
                                _ => {},
                            }
                        },
                        None => {},
                    }
                },
                _ => {},
            }
        },
        StatementView::Block(items) => {
            lemma_outer_scope_in(r.map, t);
            lemma_ident_items_declared(items, new_scope(r), c, t);
            let b2 = spec_ident_items(items, new_scope(r), c)->Ok_0.0;
            assert(out == StatementView::Block(b2));
            match spec_types_items(b2, t) {
                TypesOutcome::Checked(ta) => {
                    lemma_scope_in_grows(r.map, t, ta);
                },
                _ => {},
            }
        },
        StatementView::Labeled(l, body) => {
            lemma_ident_statement_declared(*body, r, c, t);
        },
        StatementView::While { condition, body, label } => {
            lemma_ident_expression_declared(condition, r.map, t);
            lemma_ident_statement_declared(*body, r, c, t);
        },
        StatementView::DoWhile { body, condition, label } => {
            lemma_ident_statement_declared(*body, r, c, t);
            let (body2, c1) = spec_ident_statement(*body, r, c)->Ok_0;
            let cond2 = spec_ident_expression(condition, r.map)->Ok_0;
            assert(out == StatementView::DoWhile { body: Box::new(body2), condition: cond2, label });
            match spec_types_statement(body2, t) {
                TypesOutcome::Checked(ta) => {
                    lemma_scope_in_grows(r.map, t, ta);
                    lemma_ident_expression_declared(condition, r.map, ta);
                },
                _ => {},
            }
        },
        StatementView::For { init, condition, post, body, label } => {
            let inner = new_scope(r);
            lemma_outer_scope_in(r.map, t);
            let (i2, r1, c1) = spec_ident_for_init(init, inner, c)->Ok_0;
            let cond2 = spec_ident_optional(condition, r1.map)->Ok_0;
            let post2 = spec_ident_optional(post, r1.map)->Ok_0;
            let (body2, c2) = spec_ident_statement(*body, r1, c1)->Ok_0;
            assert(out == StatementView::For {
                init: i2,
                condition: cond2,
                post: post2,
                body: Box::new(body2),
                label,
            });
            let after_init = match i2 {
                ForInitView::Declaration(d) => spec_types_local_variable(d, t),
                ForInitView::Expression(e) => spec_types_optional(e, t),
            };
            match init {
                ForInitView::Declaration(d) => {
                    lemma_ident_variable_declared(d, inner, c, t);
                },
                ForInitView::Expression(e) => {
                    lemma_ident_optional_declared(e, inner.map, t);
                },
            }
            assert(checked_within(after_init, t, r1.map));
            match after_init {
                TypesOutcome::Checked(ta) => {
                    lemma_ident_optional_declared(condition, r1.map, ta);
                    lemma_ident_optional_declared(post, r1.map, ta);
                    lemma_ident_statement_declared(*body, r1, c1, ta);
                    match spec_types_statement(body2, ta) {
                        TypesOutcome::Checked(tb) => {
                            lemma_grows_trans(t, ta, tb);
                            lemma_scope_in_grows(r.map, t, tb);
                        },
                        _ => {},
                    }
                },
                _ => {},
            }
        },
        StatementView::Case(e, body, l) => {
            lemma_ident_expression_declared(e, r.map, t);
            lemma_ident_statement_declared(*body, r, c, t);
        },
        StatementView::Default(body, l) => {
            lemma_ident_statement_declared(*body, r, c, t);
        },
        StatementView::Switch { condition, body, label, cases, default_exists } => {
            lemma_ident_expression_declared(condition, r.map, t);
            lemma_ident_statement_declared(*body, r, c, t);
        },
        _ => {},
    }
}

proof fn lemma_ident_declarations_declared(
    ds: Seq<DeclarationView>,
    r: ResolverView,
    c: usize,
    t: SymbolMap,
)
    requires
        spec_ident_declarations(ds, r, c) is Ok,
        scope_in(r.map, t),
    ensures
        checked_within(
            spec_types_declarations(spec_ident_declarations(ds, r, c)->Ok_0.0, t),
            t,
            spec_ident_declarations(ds, r, c)->Ok_0.1.map,
        ),
    decreases ds.len(),
{
    if ds.len() == 0 {
        assert(spec_ident_declarations(ds, r, c)->Ok_0.0 =~= seq![]);
    } else {
        lemma_ident_declarations_declared(ds.drop_last(), r, c, t);
        let (done, r1, c1) = spec_ident_declarations(ds.drop_last(), r, c)->Ok_0;
        let (x, r2, c2) = spec_ident_top_declaration(ds.last(), r1, c1)->Ok_0;
        let out = spec_ident_declarations(ds, r, c)->Ok_0;
        assert(out.0.drop_last() =~= done);
        assert(out.0.last() == x);
        assert(out.1 == r2);
        match spec_types_declarations(done, t) {
            TypesOutcome::Checked(ta) => {
                match ds.last() {
                    DeclarationView::Variable(v) => {
                        let (u, rv, cv) = spec_declare_variable(r1, v.identifier, v.storage_class, c1)->Ok_0;
                        let v2 = spec_ident_variable(v, r1, c1)->Ok_0.0;
                        assert(x == DeclarationView::Variable(v2));
                        assert(v2.identifier == u);
                        assert(r2 == rv);
                        assert(rv.map.contains_key(v.identifier) && rv.map[v.identifier].unique_name == u);
                        assert(forall|k: Seq<char>| k != v.identifier ==> (#[trigger] rv.map.contains_key(k)) == r1.map.contains_key(k));
                        assert(forall|k: Seq<char>| k != v.identifier && r1.map.contains_key(k) ==> #[trigger] rv.map[k] == r1.map[k]);
                        match spec_file_scope_variable(ta, u, init_expression(v2.initialiser), v2.storage_class) {
                            Ok(tb) => {
                                lemma_file_scope_grows(ta, u, init_expression(v2.initialiser), v2.storage_class);
                                lemma_grows_trans(t, ta, tb);
                                assert(scope_in(rv.map, tb));
                            },
                            Err(_) => {},
                        }
                    },
                    DeclarationView::Function(f) => {
                        lemma_ident_function_declared(f, r1, c1, ta);
                        match spec_types_top_declaration(x, ta) {
                            TypesOutcome::Checked(tb) => {
                                lemma_grows_trans(t, ta, tb);
                            },
                            _ => {},
                        }
                    },
                }
            },
            _ => {},
        }
    }
}

/// After identifier resolution succeeds, every name the program uses is in
/// the symbol table when type checking reaches it: type checking ends with
/// a table or an error, never at an undeclared name.
pub proof fn law_resolved_names_are_declared(p: Seq<DeclarationView>, counter: usize)
    requires
        spec_resolve_identifiers_from(p, counter) is Ok,
    ensures
        !(spec_types_declarations(
            spec_resolve_identifiers_from(p, counter)->Ok_0.0,
            SymbolMap::empty(),
        ) is Undeclared),
{
    lemma_ident_declarations_declared(p, initial_resolver(), counter, SymbolMap::empty());
}


/// Semantic analysis never stops at a use of a name that the symbol table
/// lacks: it ends with the resolved program and its table, or with an
/// error.
pub proof fn law_analysis_meets_no_undeclared_name(p: Seq<DeclarationView>, n: NameCounters)
    ensures
        !(spec_resolve_program_from(p, n) is Undeclared),
{
    match spec_resolve_identifiers_from(p, n.variables) {
        Ok((p1, _)) => {
            law_resolved_names_are_declared(p, n.variables);
            match spec_resolve_lvalues(p1) {
                Ok(p2) => {
                    assert(p2 == p1);
                    match spec_labels_declarations(p2, n.labels) {
                        Ok((p3, _)) => {
                            law_labels_keep_types(p2, n.labels);
                            match spec_resolve_loops_from(p3, n.loops) {
                                Ok((p4, _)) => {
                                    law_loops_keep_types(p3, n.loops);
                                    assert(spec_types_declarations(p4, SymbolMap::empty())
                                        == spec_types_declarations(p3, SymbolMap::empty()));
                                    assert(spec_types_declarations(p3, SymbolMap::empty())
                                        == spec_types_declarations(p2, SymbolMap::empty()));
                                },
                                Err(_) => {},
                            }
                        },
                        Err(_) => {},
                    }
                },
                Err(_) => {},
            }
        },
        Err(_) => {},
    }
}


proof fn lemma_loops_keep_labels_statement(s: StatementView, ctx: LoopContext, st: LoopState)
    requires
        spec_loops_statement(s, ctx, st) is Ok,
    ensures
        goto_targets(spec_loops_statement(s, ctx, st)->Ok_0.0) == goto_targets(s),
        defined_labels(spec_loops_statement(s, ctx, st)->Ok_0.0) == defined_labels(s),
    decreases s, 0nat,
{
    let out = spec_loops_statement(s, ctx, st)->Ok_0.0;
    match s {
        StatementView::Labeled(l, body) => {
            lemma_loops_keep_labels_statement(*body, ctx, st);
        },
        StatementView::If { condition, then_branch, else_branch } => {
            lemma_loops_keep_labels_statement(*then_branch, ctx, st);
            let (t2, st1) = spec_loops_statement(*then_branch, ctx, st)->Ok_0;
            match else_branch {
                Some(e) => {
                    lemma_loops_keep_labels_statement(*e, ctx, st1);
                },
                None => {},
            }
        },
        StatementView::Default(body, _) => {
            lemma_loops_keep_labels_statement(*body, ctx, LoopState { default_used: true, ..st });
        },
        StatementView::Case(e, body, _) => {
            let v = spec_expression_value(e.expression)->Some_0;
            lemma_loops_keep_labels_statement(*body, ctx, LoopState { cases: st.cases.push(v), ..st });
        },
        StatementView::While { condition, body, label: _ } => {
            let l = loop_label("while"@, st.loops);
            lemma_loops_keep_labels_statement(*body, in_loop(ctx, l), LoopState { loops: bump(st.loops), ..st });
        },
        StatementView::DoWhile { body, condition, label: _ } => {
            let l = loop_label("do_while"@, st.loops);
            lemma_loops_keep_labels_statement(*body, in_loop(ctx, l), LoopState { loops: bump(st.loops), ..st });
        },
        StatementView::For { init, condition, post, body, label: _ } => {
            let l = loop_label("for"@, st.loops);
            lemma_loops_keep_labels_statement(*body, in_loop(ctx, l), LoopState { loops: bump(st.loops), ..st });
        },
        StatementView::Switch { condition, body, .. } => {
            let l = switch_label(st.switches);
            let inner = LoopState {
                cases: seq![],
                default_used: false,
                loops: st.loops,
                switches: bump(st.switches),
            };
            let inner_ctx = LoopContext {
                current_loop: ctx.current_loop,
                current_switch: Some(l),
                break_target: Some(l),
            };
            lemma_loops_keep_labels_statement(*body, inner_ctx, inner);
        },
        StatementView::Block(items) => {
            lemma_loops_keep_labels_items(items, ctx, st);
        },
        StatementView::Break(_) => {
            assert(goto_targets(out) =~= goto_targets(s));
            assert(defined_labels(out) =~= defined_labels(s));
        },
        StatementView::Continue(_) => {
            assert(goto_targets(out) =~= goto_targets(s));
            assert(defined_labels(out) =~= defined_labels(s));
        },
        _ => {},
    }
}

proof fn lemma_loops_keep_labels_items(items: Seq<BlockItemView>, ctx: LoopContext, st: LoopState)
    requires
        spec_loops_items(items, ctx, st) is Ok,
    ensures
        goto_targets_items(spec_loops_items(items, ctx, st)->Ok_0.0) == goto_targets_items(items),
        defined_labels_items(spec_loops_items(items, ctx, st)->Ok_0.0) == defined_labels_items(
            items,
        ),
    decreases items, items.len(),
{
    if items.len() > 0 {
        lemma_loops_keep_labels_items(items.drop_last(), ctx, st);
        let (done, st1) = spec_loops_items(items.drop_last(), ctx, st)->Ok_0;
        let last = items.last();
        assert(spec_loops_item(last, ctx, st1) is Ok);
        let x = spec_loops_item(last, ctx, st1)->Ok_0.0;
        match last {
            BlockItemView::Statement(s) => {
                lemma_loops_keep_labels_statement(s, ctx, st1);
                assert(x == BlockItemView::Statement(spec_loops_statement(s, ctx, st1)->Ok_0.0));
            },
            BlockItemView::Declaration(_) => {},
        }
        let out = spec_loops_items(items, ctx, st)->Ok_0.0;
        assert(out.drop_last() =~= done);
        assert(out.last() == x);
    } else {
        assert(spec_loops_items(items, ctx, st)->Ok_0.0 =~= items);
    }
}

proof fn lemma_loops_keep_gotos_resolved(ds: Seq<DeclarationView>, st: LoopState)
    requires
        spec_loops_declarations(ds, st) is Ok,
        forall|i: int| 0 <= i < ds.len() ==> gotos_resolved(#[trigger] ds[i]),
    ensures
        forall|i: int|
            0 <= i < spec_loops_declarations(ds, st)->Ok_0.0.len() ==> gotos_resolved(
                #[trigger] spec_loops_declarations(ds, st)->Ok_0.0[i],
            ),
    decreases ds.len(),
{
    if ds.len() > 0 {
        assert forall|i: int| 0 <= i < ds.drop_last().len() implies gotos_resolved(
            #[trigger] ds.drop_last()[i],
        ) by {
            assert(ds.drop_last()[i] == ds[i]);
        }
        lemma_loops_keep_gotos_resolved(ds.drop_last(), st);
        let (done, st1) = spec_loops_declarations(ds.drop_last(), st)->Ok_0;
        let last = ds.last();
        assert(gotos_resolved(ds[ds.len() - 1]));
        assert(spec_loops_declaration(last, st1) is Ok);
        let x = spec_loops_declaration(last, st1)->Ok_0.0;
        match last {
            DeclarationView::Function(f) => match f.body {
                Some(body) => {
                    lemma_loops_keep_labels_items(body, top_context(), st1);
                },
                None => {},
            },
            DeclarationView::Variable(_) => {},
        }
        assert(gotos_resolved(x));
        let out = spec_loops_declarations(ds, st)->Ok_0.0;
        assert forall|i: int| 0 <= i < out.len() implies gotos_resolved(#[trigger] out[i]) by {
            if i < done.len() {
                assert(out[i] == done[i]);
            } else {
                assert(out[i] == x);
            }
        }
    }
}

/// In the program that semantic analysis gives, every goto of every
/// function names a label declared in that same function.
pub proof fn law_analysed_gotos_stay_in_their_function(p: Seq<DeclarationView>, n: NameCounters)
    requires
        spec_resolve_program_from(p, n) is Resolved,
    ensures
        forall|i: int|
            0 <= i < spec_resolve_program_from(p, n)->Resolved_0.len() ==> gotos_resolved(
                #[trigger] spec_resolve_program_from(p, n)->Resolved_0[i],
            ),
{
    let p1 = spec_resolve_identifiers_from(p, n.variables)->Ok_0.0;
    let p3 = spec_labels_declarations(p1, n.labels)->Ok_0.0;
    law_resolved_gotos_stay_in_their_function(p1, n.labels);
    lemma_loops_keep_gotos_resolved(p3, loop_start(n.loops));
}


/// The cases that a part of a switch body adds to `st`, ending in `st2`, each
/// have their case statement among `places`, as has the default if the part
/// adds it; what was there before stays.
pub open spec fn cases_placed(
    st: LoopState,
    st2: LoopState,
    sw: Option<Seq<char>>,
    places: Set<Seq<char>>,
) -> bool {
    &&& st2.cases.len() >= st.cases.len()
    &&& (forall|i: int| 0 <= i < st.cases.len() ==> #[trigger] st2.cases[i] == st.cases[i])
    &&& (forall|i: int|
        st.cases.len() <= i < st2.cases.len() ==> places.contains(
            case_label(label_of(sw), constant_bits(#[trigger] st2.cases[i])),
        ))
    &&& ((st2.default_used && !st.default_used) ==> places.contains(default_label(label_of(sw))))
    &&& ((st2.cases.len() > st.cases.len() || (st2.default_used && !st.default_used)) ==> sw is Some)
}

proof fn lemma_cases_placed_grow(
    st: LoopState,
    st2: LoopState,
    sw: Option<Seq<char>>,
    a: Set<Seq<char>>,
    b: Set<Seq<char>>,
)
    requires
        cases_placed(st, st2, sw, a),
        a.subset_of(b),
    ensures
        cases_placed(st, st2, sw, b),
{
    assert forall|i: int| st.cases.len() <= i < st2.cases.len() implies b.contains(
        case_label(label_of(sw), constant_bits(#[trigger] st2.cases[i])),
    ) by {
        assert(a.contains(case_label(label_of(sw), constant_bits(st2.cases[i]))));
    }
    if st2.default_used && !st.default_used {
        assert(a.contains(default_label(label_of(sw))));
    }
}

proof fn lemma_cases_placed_trans(
    st: LoopState,
    st1: LoopState,
    st2: LoopState,
    sw: Option<Seq<char>>,
    a: Set<Seq<char>>,
    b: Set<Seq<char>>,
)
    requires
        cases_placed(st, st1, sw, a),
        cases_placed(st1, st2, sw, b),
    ensures
        cases_placed(st, st2, sw, a + b),
{
    assert forall|i: int| st.cases.len() <= i < st2.cases.len() implies (a + b).contains(
        case_label(label_of(sw), constant_bits(#[trigger] st2.cases[i])),
    ) by {
        if i < st1.cases.len() {
            assert(st2.cases[i] == st1.cases[i]);
            assert(a.contains(case_label(label_of(sw), constant_bits(st1.cases[i]))));
        } else {
            assert(b.contains(case_label(label_of(sw), constant_bits(st2.cases[i]))));
        }
    }
    assert forall|i: int| 0 <= i < st.cases.len() implies #[trigger] st2.cases[i] == st.cases[i] by {
        assert(st2.cases[i] == st1.cases[i]);
        assert(st1.cases[i] == st.cases[i]);
    }
    if st2.default_used && !st.default_used {
        if st1.default_used {
            assert(a.contains(default_label(label_of(sw))));
        } else {
            assert(b.contains(default_label(label_of(sw))));
        }
    }
}

proof fn lemma_loops_well_enclosed(s: StatementView, ctx: LoopContext, st: LoopState)
    requires
        spec_loops_statement(s, ctx, st) is Ok,
    ensures
        well_enclosed(
            spec_loops_statement(s, ctx, st)->Ok_0.0,
            ctx.break_target,
            ctx.current_loop,
            ctx.current_switch,
        ),
        cases_placed(
            st,
            spec_loops_statement(s, ctx, st)->Ok_0.1,
            ctx.current_switch,
            case_places(spec_loops_statement(s, ctx, st)->Ok_0.0),
        ),
    decreases s, 0nat,
{
    let (out, st2) = spec_loops_statement(s, ctx, st)->Ok_0;
    match s {
        StatementView::Labeled(l, body) => {
            lemma_loops_well_enclosed(*body, ctx, st);
        },
        StatementView::If { condition, then_branch, else_branch } => {
            lemma_loops_well_enclosed(*then_branch, ctx, st);
            let (t2, st1) = spec_loops_statement(*then_branch, ctx, st)->Ok_0;
            match else_branch {
                Some(e) => {
                    lemma_loops_well_enclosed(*e, ctx, st1);
                    let e2 = spec_loops_statement(*e, ctx, st1)->Ok_0.0;
                    lemma_cases_placed_trans(st, st1, st2, ctx.current_switch, case_places(t2), case_places(e2));
                    assert(case_places(out) == case_places(t2) + case_places(e2));
                },
                None => {
                    assert(case_places(out) =~= case_places(t2));
                },
            }
        },
        StatementView::Default(body, _) => {
            let st1 = LoopState { default_used: true, ..st };
            lemma_loops_well_enclosed(*body, ctx, st1);
            let b2 = spec_loops_statement(*body, ctx, st1)->Ok_0.0;
            assert(case_places(out) == set![default_label(label_of(ctx.current_switch))] + case_places(b2));
        },
        StatementView::Case(e, body, _) => {
            let v = spec_expression_value(e.expression)->Some_0;
            let st1 = LoopState { cases: st.cases.push(v), ..st };
            lemma_loops_well_enclosed(*body, ctx, st1);
            let b2 = spec_loops_statement(*body, ctx, st1)->Ok_0.0;
            assert(case_bits(e) == constant_bits(v));
            assert(case_places(out) == set![case_label(label_of(ctx.current_switch), case_bits(e))] + case_places(b2));
            assert(st1.cases[st.cases.len() as int] == v);
            assert forall|i: int| st.cases.len() <= i < st2.cases.len() implies case_places(out).contains(
                case_label(label_of(ctx.current_switch), constant_bits(#[trigger] st2.cases[i])),
            ) by {
                if i == st.cases.len() {
                    assert(st2.cases[i] == st1.cases[i]);
                }
            }
            assert forall|i: int| 0 <= i < st.cases.len() implies #[trigger] st2.cases[i] == st.cases[i] by {
                assert(st2.cases[i] == st1.cases[i]);
            }
        },
        StatementView::While { condition, body, label: _ } => {
            let l = loop_label("while"@, st.loops);
            lemma_loops_well_enclosed(*body, in_loop(ctx, l), LoopState { loops: bump(st.loops), ..st });
        },
        StatementView::DoWhile { body, condition, label: _ } => {
            let l = loop_label("do_while"@, st.loops);
            lemma_loops_well_enclosed(*body, in_loop(ctx, l), LoopState { loops: bump(st.loops), ..st });
        },
        StatementView::For { init, condition, post, body, label: _ } => {
            let l = loop_label("for"@, st.loops);
            lemma_loops_well_enclosed(*body, in_loop(ctx, l), LoopState { loops: bump(st.loops), ..st });
        },
        StatementView::Switch { condition, body, .. } => {
            let l = switch_label(st.switches);
            let inner = LoopState {
                cases: seq![],
                default_used: false,
                loops: st.loops,
                switches: bump(st.switches),
            };
            let inner_ctx = LoopContext {
                current_loop: ctx.current_loop,
                current_switch: Some(l),
                break_target: Some(l),
            };
            lemma_loops_well_enclosed(*body, inner_ctx, inner);
        },
        StatementView::Block(items) => {
            lemma_loops_items_well_enclosed(items, ctx, st);
        },
        _ => {},
    }
}

proof fn lemma_loops_items_well_enclosed(items: Seq<BlockItemView>, ctx: LoopContext, st: LoopState)
    requires
        spec_loops_items(items, ctx, st) is Ok,
    ensures
        items_well_enclosed(
            spec_loops_items(items, ctx, st)->Ok_0.0,
            ctx.break_target,
            ctx.current_loop,
            ctx.current_switch,
        ),
        cases_placed(
            st,
            spec_loops_items(items, ctx, st)->Ok_0.1,
            ctx.current_switch,
            case_places_items(spec_loops_items(items, ctx, st)->Ok_0.0),
        ),
    decreases items, items.len(),
{
    if items.len() == 0 {
    } else {
        lemma_loops_items_well_enclosed(items.drop_last(), ctx, st);
        let (done, st1) = spec_loops_items(items.drop_last(), ctx, st)->Ok_0;
        let last = items.last();
        assert(spec_loops_item(last, ctx, st1) is Ok);
        let (x, st2) = spec_loops_item(last, ctx, st1)->Ok_0;
        let xplaces = match x {
            BlockItemView::Statement(s2) => case_places(s2),
            BlockItemView::Declaration(_) => Set::empty(),
        };
        match last {
            BlockItemView::Statement(s) => {
                lemma_loops_well_enclosed(s, ctx, st1);
            },
            BlockItemView::Declaration(_) => {},
        }
        assert(cases_placed(st1, st2, ctx.current_switch, xplaces));
        lemma_cases_placed_trans(st, st1, st2, ctx.current_switch, case_places_items(done), xplaces);
        let out = spec_loops_items(items, ctx, st)->Ok_0.0;
        assert(out.drop_last() =~= done);
        assert(out.last() == x);
        assert(case_places_items(out) == case_places_items(done) + xplaces);
        assert forall|i: int| 0 <= i < out.len() implies match #[trigger] out[i] {
            BlockItemView::Statement(s) => well_enclosed(s, ctx.break_target, ctx.current_loop, ctx.current_switch),
            BlockItemView::Declaration(_) => true,
        } by {
            if i < done.len() {
                assert(out[i] == done[i]);
            } else {
                assert(out[i] == x);
            }
        }
    }
}


proof fn lemma_loops_declarations_well_enclosed(ds: Seq<DeclarationView>, st: LoopState)
    requires
        spec_loops_declarations(ds, st) is Ok,
    ensures
        forall|i: int|
            0 <= i < spec_loops_declarations(ds, st)->Ok_0.0.len() ==> match #[trigger] spec_loops_declarations(
                ds,
                st,
            )->Ok_0.0[i] {
                DeclarationView::Function(f) => match f.body {
                    Some(b) => items_well_enclosed(b, None, None, None),
                    None => true,
                },
                DeclarationView::Variable(_) => true,
            },
    decreases ds.len(),
{
    if ds.len() > 0 {
        lemma_loops_declarations_well_enclosed(ds.drop_last(), st);
        let (done, st1) = spec_loops_declarations(ds.drop_last(), st)->Ok_0;
        let last = ds.last();
        assert(spec_loops_declaration(last, st1) is Ok);
        let x = spec_loops_declaration(last, st1)->Ok_0.0;
        match last {
            DeclarationView::Function(f) => match f.body {
                Some(body) => {
                    lemma_loops_items_well_enclosed(body, top_context(), st1);
                },
                None => {},
            },
            DeclarationView::Variable(_) => {},
        }
        let out = spec_loops_declarations(ds, st)->Ok_0.0;
        assert forall|i: int| 0 <= i < out.len() implies match #[trigger] out[i] {
            DeclarationView::Function(f) => match f.body {
                Some(b) => items_well_enclosed(b, None, None, None),
                None => true,
            },
            DeclarationView::Variable(_) => true,
        } by {
            if i < done.len() {
                assert(out[i] == done[i]);
            } else {
                assert(out[i] == x);
            }
        }
    }
}

/// In the program that semantic analysis gives, lowering places a label for
/// every jump: each jump of each lowered function lands on a label of that
/// same function.
pub proof fn law_compiled_jumps_land_on_labels(
    p: Seq<DeclarationView>,
    n: NameCounters,
    c: TackyCounters,
)
    requires
        spec_resolve_program_from(p, n) is Resolved,
    ensures
        forall|k: int|
            0 <= k < spec_tacky_declarations(spec_resolve_program_from(p, n)->Resolved_0, c).0.len()
                ==> jumps_closed(
                #[trigger] spec_tacky_declarations(spec_resolve_program_from(p, n)->Resolved_0, c).0[k].body,
            ),
{
    let q = spec_resolve_program_from(p, n)->Resolved_0;
    let p1 = spec_resolve_identifiers_from(p, n.variables)->Ok_0.0;
    let p3 = spec_labels_declarations(p1, n.labels)->Ok_0.0;
    law_analysed_gotos_stay_in_their_function(p, n);
    lemma_loops_declarations_well_enclosed(p3, loop_start(n.loops));
    assert forall|i: int| 0 <= i < q.len() implies ready_for_jumps(#[trigger] q[i]) by {
        assert(gotos_resolved(q[i]));
    }
    law_lowered_jumps_land_on_labels(q, c);
}


/// In the assembly of a program that semantic analysis accepts, every jump
/// of every function lands on a label of that same function.
pub proof fn law_compiled_assembly_jumps_land_on_labels(
    p: Seq<DeclarationView>,
    n: NameCounters,
    c: TackyCounters,
)
    requires
        spec_resolve_program_from(p, n) is Resolved,
    ensures
        ({
            let a = spec_to_assembly(
                spec_tacky_declarations(spec_resolve_program_from(p, n)->Resolved_0, c).0,
            );
            forall|k: int|
                0 <= k < a.len() ==> asm_jump_targets(#[trigger] a[k].body).subset_of(
                    asm_labels(a[k].body),
                )
        }),
{
    let t = spec_tacky_declarations(spec_resolve_program_from(p, n)->Resolved_0, c).0;
    law_compiled_jumps_land_on_labels(p, n, c);
    let a = spec_to_assembly(t);
    assert forall|k: int| 0 <= k < a.len() implies asm_jump_targets(#[trigger] a[k].body).subset_of(
        asm_labels(a[k].body),
    ) by {
        assert(jumps_closed(t[k].body));
        law_assembly_jumps_land_on_labels(t[k]);
    }
}

} // verus!
