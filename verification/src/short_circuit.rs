//! Lowering of the logical operators `&&` and `||`: their instructions
//! jump, so they run under an interpreter that follows each jump to its
//! label. The law at the end says that they compute C's value of the
//! operator.
use vstd::prelude::*;

use crate::evaluation::{
    c_eval, expr_size, fresh_between, is_temporary, lemma_c_eval_agree, lemma_fresh_is_temporary,
    lemma_lower_expression, lemma_run_concat, lemma_run_single, no_temporaries, run, step,
    value_of, flag, Store,
};
use crate::names::{bump, law_numbered_names_are_distinct, numbered};
use crate::parser::{
    BinaryOperator as AstBinaryOperator, ExpressionView, FactorView, PrimaryView, TypedExpressionView,
    UnaryOperator,
};
use crate::tacky::{
    binary_temp, call_temp, jump_label, postfix_step_op, spec_tacky_arguments, spec_tacky_expression,
    spec_tacky_factor, spec_tacky_primary, step_op, tacky_binary_op, two_labels_and_temp, unary_temp,
    InstructionView, TackyCounters, ValueView,
};

verus! {

/// The position of the first `Label(l)` in `is`.
pub open spec fn label_index(is: Seq<InstructionView>, l: Seq<char>) -> Option<int>
    decreases is.len(),
{
    if is.len() == 0 {
        None
    } else if is[0] == InstructionView::Label(l) {
        Some(0)
    } else {
        match label_index(is.drop_first(), l) {
            Some(k) => Some(k + 1),
            None => None,
        }
    }
}

/// Instructions with jumps run from position `pc` on a store, for at most
/// `fuel` instructions: a label does nothing, a jump goes on at its label,
/// a conditional jump tests its operand, every other instruction is a
/// `step`. Running off the end gives the store; none where an instruction
/// faults, returns or calls, or the fuel runs out.
pub open spec fn execute(is: Seq<InstructionView>, pc: int, s: Store, fuel: nat) -> Option<Store>
    decreases fuel,
{
    if pc < 0 || pc > is.len() {
        None
    } else if pc == is.len() {
        Some(s)
    } else if fuel == 0 {
        None
    } else {
        match is[pc] {
            InstructionView::Label(_) => execute(is, pc + 1, s, (fuel - 1) as nat),
            InstructionView::Jump(l) => match label_index(is, l) {
                Some(k) => execute(is, k, s, (fuel - 1) as nat),
                None => None,
            },
            InstructionView::JumpIfZero { val, target } => match value_of(val, s) {
                Some(v) => if v == 0 {
                    match label_index(is, target) {
                        Some(k) => execute(is, k, s, (fuel - 1) as nat),
                        None => None,
                    }
                } else {
                    execute(is, pc + 1, s, (fuel - 1) as nat)
                },
                None => None,
            },
            InstructionView::JumpIfNotZero { val, target } => match value_of(val, s) {
                Some(v) => if v != 0 {
                    match label_index(is, target) {
                        Some(k) => execute(is, k, s, (fuel - 1) as nat),
                        None => None,
                    }
                } else {
                    execute(is, pc + 1, s, (fuel - 1) as nat)
                },
                None => None,
            },
            _ => match step(is[pc], s) {
                Some(s1) => execute(is, pc + 1, s1, (fuel - 1) as nat),
                None => None,
            },
        }
    }
}

proof fn lemma_label_index(is: Seq<InstructionView>, l: Seq<char>, p: int)
    requires
        0 <= p < is.len(),
        is[p] == InstructionView::Label(l),
        forall|k: int| 0 <= k < p ==> is[k] != InstructionView::Label(l),
    ensures
        label_index(is, l) == Some(p),
    decreases p,
{
    if p > 0 {
        assert(is[0] != InstructionView::Label(l));
        assert forall|k: int| 0 <= k < p - 1 implies is.drop_first()[k] != InstructionView::Label(l) by {
            assert(is.drop_first()[k] == is[k + 1]);
        }
        lemma_label_index(is.drop_first(), l, p - 1);
    }
}

/// A sequence that runs straight through holds no label and no jump.
proof fn lemma_run_straight(is: Seq<InstructionView>, s: Store)
    requires
        run(is, s) is Some,
    ensures
        forall|k: int| 0 <= k < is.len() ==> step(#[trigger] is[k], run(is.take(k), s)->Some_0) is Some,
        forall|k: int| 0 <= k < is.len() ==> !(#[trigger] is[k] is Label),
    decreases is.len(),
{
    if is.len() > 0 {
        lemma_run_straight(is.drop_last(), s);
        assert forall|k: int| 0 <= k < is.len() implies step(#[trigger] is[k], run(is.take(k), s)->Some_0) is Some by {
            if k < is.len() - 1 {
                assert(is.drop_last()[k] == is[k]);
                assert(is.drop_last().take(k) =~= is.take(k));
            } else {
                assert(is.take(k) =~= is.drop_last());
            }
        }
        assert forall|k: int| 0 <= k < is.len() implies !(#[trigger] is[k] is Label) by {
            assert(step(is[k], run(is.take(k), s)->Some_0) is Some);
        }
    }
}

/// A straight-line stretch of `is` from position `p` runs as `run` does.
proof fn lemma_execute_segment(is: Seq<InstructionView>, p: int, m: int, s: Store, fuel: nat)
    requires
        0 <= p,
        0 <= m <= fuel,
        p + m <= is.len(),
        run(is.subrange(p, p + m), s) is Some,
    ensures
        execute(is, p, s, fuel) == execute(is, p + m, run(is.subrange(p, p + m), s)->Some_0, (fuel - m) as nat),
    decreases m,
{
    if m == 0 {
        assert(is.subrange(p, p) =~= Seq::<InstructionView>::empty());
    } else {
        let x = is[p];
        let rest = is.subrange(p + 1, p + m);
        assert(is.subrange(p, p + m) =~= seq![x] + rest);
        lemma_run_concat(seq![x], rest, s);
        lemma_run_single(x, s);
        let s1 = step(x, s)->Some_0;
        assert(step(x, s) is Some);
        lemma_execute_segment(is, p + 1, m - 1, s1, (fuel - 1) as nat);
        assert(is.subrange(p + 1, p + 1 + (m - 1)) == rest);
    }
}

/// The conditional jump that short-circuits a logical operator: on zero for
/// `&&`, on nonzero for `||`.
pub open spec fn short_jump(on_zero: bool, val: ValueView, target: Seq<char>) -> InstructionView {
    if on_zero {
        InstructionView::JumpIfZero { val, target }
    } else {
        InstructionView::JumpIfNotZero { val, target }
    }
}

pub open spec fn short_jumps(on_zero: bool, v: i32) -> bool {
    if on_zero {
        v == 0
    } else {
        v != 0
    }
}

/// The shape of a lowered logical operator.
pub open spec fn logical_shape(
    i1: Seq<InstructionView>,
    v1: ValueView,
    i2: Seq<InstructionView>,
    v2: ValueView,
    on_zero: bool,
    t: Seq<char>,
    end: Seq<char>,
    out: Seq<char>,
) -> Seq<InstructionView> {
    i1 + seq![short_jump(on_zero, v1, t)] + i2 + logical_tail(v2, on_zero, t, end, out)
}

proof fn lemma_execute_short_jump(
    l: Seq<InstructionView>,
    pc: int,
    on_zero: bool,
    v: ValueView,
    t: Seq<char>,
    q: int,
    x: Store,
    fuel: nat,
)
    requires
        0 <= pc < l.len(),
        fuel > 0,
        l[pc] == short_jump(on_zero, v, t),
        value_of(v, x) is Some,
        label_index(l, t) == Some(q),
    ensures
        execute(l, pc, x, fuel) == if short_jumps(on_zero, value_of(v, x)->Some_0) {
            execute(l, q, x, (fuel - 1) as nat)
        } else {
            execute(l, pc + 1, x, (fuel - 1) as nat)
        },
{
}

proof fn lemma_execute_jump_tail(l: Seq<InstructionView>, q: int, k: u32, out: Seq<char>, x: Store, fuel: nat)
    requires
        0 <= q,
        l.len() == q + 3,
        fuel >= 3,
        l[q] is Label,
        l[q + 1] == (InstructionView::Copy { src: ValueView::Constant(k), dst: ValueView::Var(out) }),
        l[q + 2] is Label,
    ensures
        execute(l, q, x, fuel) == Some(x.insert(out, k as i32)),
{
    let y = x.insert(out, k as i32);
    assert(step(l[q + 1], x) == Some(y));
    assert(execute(l, q + 3, y, (fuel - 3) as nat) == Some(y));
    assert(execute(l, q + 2, y, (fuel - 2) as nat) == Some(y));
    assert(execute(l, q + 1, x, (fuel - 1) as nat) == Some(y));
}

proof fn lemma_execute_fall_tail(
    l: Seq<InstructionView>,
    q: int,
    k: u32,
    out: Seq<char>,
    end: Seq<char>,
    x: Store,
    fuel: nat,
)
    requires
        0 <= q,
        l.len() == q + 5,
        fuel >= 4,
        l[q] == (InstructionView::Copy { src: ValueView::Constant(k), dst: ValueView::Var(out) }),
        l[q + 1] == InstructionView::Jump(end),
        l[q + 4] is Label,
        label_index(l, end) == Some(q + 4),
    ensures
        execute(l, q, x, fuel) == Some(x.insert(out, k as i32)),
{
    let y = x.insert(out, k as i32);
    assert(step(l[q], x) == Some(y));
    assert(execute(l, q + 5, y, (fuel - 3) as nat) == Some(y));
    assert(execute(l, q + 4, y, (fuel - 2) as nat) == Some(y));
    assert(execute(l, q + 1, y, (fuel - 1) as nat) == Some(y));
}

/// The tail of a lowered logical operator, after its second operand.
pub open spec fn logical_tail(
    v2: ValueView,
    on_zero: bool,
    t: Seq<char>,
    end: Seq<char>,
    out: Seq<char>,
) -> Seq<InstructionView> {
    let k_jump: u32 = if on_zero { 0 } else { 1 };
    let k_fall: u32 = if on_zero { 1 } else { 0 };
    seq![
        short_jump(on_zero, v2, t),
        InstructionView::Copy { src: ValueView::Constant(k_fall), dst: ValueView::Var(out) },
        InstructionView::Jump(end),
        InstructionView::Label(t),
        InstructionView::Copy { src: ValueView::Constant(k_jump), dst: ValueView::Var(out) },
        InstructionView::Label(end),
    ]
}

proof fn lemma_logical_indices(
    i1: Seq<InstructionView>,
    v1: ValueView,
    i2: Seq<InstructionView>,
    v2: ValueView,
    on_zero: bool,
    t: Seq<char>,
    end: Seq<char>,
    out: Seq<char>,
)
    ensures
        ({
            let l = logical_shape(i1, v1, i2, v2, on_zero, t, end, out);
            let n1 = i1.len() as int;
            let p = n1 + 1 + i2.len();
            let tail = logical_tail(v2, on_zero, t, end, out);
            &&& l == i1 + seq![short_jump(on_zero, v1, t)] + i2 + tail
            &&& l.len() == p + 6
            &&& l[n1] == short_jump(on_zero, v1, t)
            &&& (forall|k: int| 0 <= k < n1 ==> l[k] == i1[k])
            &&& (forall|k: int| n1 < k < p ==> l[k] == i2[k - n1 - 1])
            &&& (forall|k: int| p <= k < p + 6 ==> l[k] == tail[k - p])
            &&& l.subrange(0, n1) == i1
            &&& l.subrange(n1 + 1, p) == i2
        }),
{
    let l = logical_shape(i1, v1, i2, v2, on_zero, t, end, out);
    let tail = logical_tail(v2, on_zero, t, end, out);
    let n1 = i1.len() as int;
    let p = n1 + 1 + i2.len() as int;
    let front = i1 + seq![short_jump(on_zero, v1, t)] + i2;
    assert(l == front + tail);
    assert(front.len() == p);
    assert(l.subrange(0, n1) =~= i1);
    assert(l.subrange(n1 + 1, p) =~= i2);
    assert forall|k: int| 0 <= k < n1 implies l[k] == i1[k] by {
        assert(l[k] == front[k]);
    }
    assert forall|k: int| n1 < k < p implies l[k] == i2[k - n1 - 1] by {
        assert(l[k] == front[k]);
    }
}

proof fn lemma_logical_label(
    i1: Seq<InstructionView>,
    v1: ValueView,
    i2: Seq<InstructionView>,
    v2: ValueView,
    on_zero: bool,
    t: Seq<char>,
    end: Seq<char>,
    out: Seq<char>,
    lab: Seq<char>,
    pos: int,
)
    requires
        avoids(i1, lab),
        avoids(i2, lab),
        pos == 3 || pos == 5,
        lab == (if pos == 3 { t } else { end }),
        pos == 5 ==> t != end,
    ensures
        label_index(logical_shape(i1, v1, i2, v2, on_zero, t, end, out), lab) == Some(
            i1.len() + 1 + i2.len() + pos,
        ),
{
    let l = logical_shape(i1, v1, i2, v2, on_zero, t, end, out);
    let tail = logical_tail(v2, on_zero, t, end, out);
    let n1 = i1.len() as int;
    let p = n1 + 1 + i2.len() as int;
    lemma_logical_indices(i1, v1, i2, v2, on_zero, t, end, out);
    assert(l[p + pos] == tail[pos]);
    assert forall|k: int| 0 <= k < p + pos implies l[k] != InstructionView::Label(lab) by {
        if k < n1 {
            assert(l[k] == i1[k]);
        } else if n1 < k < p {
            assert(l[k] == i2[k - n1 - 1]);
        } else if k >= p {
            assert(l[k] == tail[k - p]);
        }
    }
    lemma_label_index(l, lab, p + pos);
}

proof fn lemma_logical_shape(
    i1: Seq<InstructionView>,
    v1: ValueView,
    i2: Seq<InstructionView>,
    v2: ValueView,
    on_zero: bool,
    t: Seq<char>,
    end: Seq<char>,
    out: Seq<char>,
)
    ensures
        ({
            let l = logical_shape(i1, v1, i2, v2, on_zero, t, end, out);
            let n1 = i1.len() as int;
            let p = n1 + 1 + i2.len();
            let k_jump: u32 = if on_zero { 0 } else { 1 };
            let k_fall: u32 = if on_zero { 1 } else { 0 };
            &&& l.len() == p + 6
            &&& l[n1] == short_jump(on_zero, v1, t)
            &&& l[p] == short_jump(on_zero, v2, t)
            &&& l[p + 1] == (InstructionView::Copy { src: ValueView::Constant(k_fall), dst: ValueView::Var(out) })
            &&& l[p + 2] == InstructionView::Jump(end)
            &&& l[p + 3] == InstructionView::Label(t)
            &&& l[p + 4] == (InstructionView::Copy { src: ValueView::Constant(k_jump), dst: ValueView::Var(out) })
            &&& l[p + 5] == InstructionView::Label(end)
            &&& l.subrange(0, n1) == i1
            &&& l.subrange(n1 + 1, p) == i2
        }),
{
    let l = logical_shape(i1, v1, i2, v2, on_zero, t, end, out);
    let tail = logical_tail(v2, on_zero, t, end, out);
    let p = i1.len() + 1 + i2.len() as int;
    lemma_logical_indices(i1, v1, i2, v2, on_zero, t, end, out);
    assert(l[p] == tail[0]);
    assert(l[p + 1] == tail[1]);
    assert(l[p + 2] == tail[2]);
    assert(l[p + 3] == tail[3]);
    assert(l[p + 4] == tail[4]);
    assert(l[p + 5] == tail[5]);
}

/// A sequence that runs straight through places no label.
proof fn lemma_run_avoids(is: Seq<InstructionView>, s: Store, lab: Seq<char>)
    requires
        run(is, s) is Some,
    ensures
        avoids(is, lab),
{
    lemma_run_straight(is, s);
    assert forall|k: int| 0 <= k < is.len() implies is[k] != InstructionView::Label(lab) by {
        assert(!(is[k] is Label));
    }
}

/// Where the first operand decides, the run jumps past the second one.
proof fn lemma_execute_decided(
    i1: Seq<InstructionView>,
    v1: ValueView,
    i2: Seq<InstructionView>,
    v2: ValueView,
    on_zero: bool,
    t: Seq<char>,
    end: Seq<char>,
    out: Seq<char>,
    s: Store,
)
    requires
        run(i1, s) is Some,
        value_of(v1, run(i1, s)->Some_0) is Some,
        short_jumps(on_zero, value_of(v1, run(i1, s)->Some_0)->Some_0),
        avoids(i2, t),
    ensures
        ({
            let l = logical_shape(i1, v1, i2, v2, on_zero, t, end, out);
            let k_jump: i32 = if on_zero { 0 } else { 1 };
            execute(l, 0, s, l.len() as nat) == Some(run(i1, s)->Some_0.insert(out, k_jump))
        }),
{
    let l = logical_shape(i1, v1, i2, v2, on_zero, t, end, out);
    let s1 = run(i1, s)->Some_0;
    let k_jump: u32 = if on_zero { 0 } else { 1 };
    let n1 = i1.len() as int;
    let p = n1 + 1 + i2.len() as int;
    let f = l.len() as nat;
    lemma_logical_shape(i1, v1, i2, v2, on_zero, t, end, out);
    lemma_run_avoids(i1, s, t);
    lemma_logical_label(i1, v1, i2, v2, on_zero, t, end, out, t, 3);
    lemma_execute_segment(l, 0, n1, s, f);
    lemma_execute_short_jump(l, n1, on_zero, v1, t, p + 3, s1, (f - n1) as nat);
    lemma_execute_jump_tail(l, p + 3, k_jump, out, s1, (f - n1 - 1) as nat);
}

/// Where the first operand does not decide, the run goes through the second.
proof fn lemma_execute_undecided(
    i1: Seq<InstructionView>,
    v1: ValueView,
    i2: Seq<InstructionView>,
    v2: ValueView,
    on_zero: bool,
    t: Seq<char>,
    end: Seq<char>,
    out: Seq<char>,
    s: Store,
)
    requires
        t != end,
        run(i1, s) is Some,
        value_of(v1, run(i1, s)->Some_0) is Some,
        !short_jumps(on_zero, value_of(v1, run(i1, s)->Some_0)->Some_0),
        run(i2, run(i1, s)->Some_0) is Some,
        value_of(v2, run(i2, run(i1, s)->Some_0)->Some_0) is Some,
    ensures
        ({
            let l = logical_shape(i1, v1, i2, v2, on_zero, t, end, out);
            let s2 = run(i2, run(i1, s)->Some_0)->Some_0;
            let b = value_of(v2, s2)->Some_0;
            let k_jump: i32 = if on_zero { 0 } else { 1 };
            let k_fall: i32 = if on_zero { 1 } else { 0 };
            execute(l, 0, s, l.len() as nat) == Some(
                if short_jumps(on_zero, b) {
                    s2.insert(out, k_jump)
                } else {
                    s2.insert(out, k_fall)
                },
            )
        }),
{
    let l = logical_shape(i1, v1, i2, v2, on_zero, t, end, out);
    let s1 = run(i1, s)->Some_0;
    let s2 = run(i2, s1)->Some_0;
    let b = value_of(v2, s2)->Some_0;
    let k_jump: u32 = if on_zero { 0 } else { 1 };
    let k_fall: u32 = if on_zero { 1 } else { 0 };
    let n1 = i1.len() as int;
    let n2 = i2.len() as int;
    let p = n1 + 1 + n2;
    let f = l.len() as nat;
    lemma_logical_shape(i1, v1, i2, v2, on_zero, t, end, out);
    lemma_run_avoids(i1, s, t);
    lemma_run_avoids(i2, s1, t);
    lemma_run_avoids(i1, s, end);
    lemma_run_avoids(i2, s1, end);
    lemma_logical_label(i1, v1, i2, v2, on_zero, t, end, out, t, 3);
    lemma_logical_label(i1, v1, i2, v2, on_zero, t, end, out, end, 5);
    lemma_execute_segment(l, 0, n1, s, f);
    lemma_execute_short_jump(l, n1, on_zero, v1, t, p + 3, s1, (f - n1) as nat);
    lemma_execute_segment(l, n1 + 1, n2, s1, (f - n1 - 1) as nat);
    lemma_execute_short_jump(l, p, on_zero, v2, t, p + 3, s2, 6);
    if short_jumps(on_zero, b) {
        lemma_execute_jump_tail(l, p + 3, k_jump, out, s2, 5);
    } else {
        lemma_execute_fall_tail(l, p + 1, k_fall, out, end, s2, 5);
    }
}

/// How many jump labels the lowering of an expression numbers.
pub open spec fn label_size(e: TypedExpressionView) -> nat
    decreases e, 3nat,
{
    match e.expression {
        ExpressionView::Factor(f) => factor_label_size(f),
        ExpressionView::BinaryOp { op, left, right } => (if tacky_binary_op(op) is Some {
            0nat
        } else {
            2nat
        }) + label_size(*left) + label_size(*right),
        ExpressionView::Assignment { left, right } => label_size(*left) + label_size(*right),
        ExpressionView::Conditional { condition, then_branch, else_branch } => 2 + label_size(
            *condition,
        ) + label_size(*then_branch) + label_size(*else_branch),
    }
}

pub open spec fn factor_label_size(f: FactorView) -> nat
    decreases f, 2nat,
{
    match f {
        FactorView::UnaryOp { op: _, fac } => factor_label_size(*fac),
        FactorView::Postfix(p) => primary_label_size(p.primary),
        FactorView::Cast { ty: _, fac } => factor_label_size(*fac),
    }
}

pub open spec fn primary_label_size(p: PrimaryView) -> nat
    decreases p, 1nat,
{
    match p {
        PrimaryView::Paren(e) => label_size(*e),
        PrimaryView::FunctionCall(_, args) => arguments_label_size(args),
        _ => 0,
    }
}

pub open spec fn arguments_label_size(args: Seq<TypedExpressionView>) -> nat
    decreases args, args.len(),
{
    if args.len() == 0 {
        0
    } else {
        arguments_label_size(args.drop_last()) + label_size(args.last())
    }
}

/// No instruction of `is` places label `l`.
pub open spec fn avoids(is: Seq<InstructionView>, l: Seq<char>) -> bool {
    forall|k: int| 0 <= k < is.len() ==> is[k] != InstructionView::Label(l)
}

proof fn lemma_avoids_concat(a: Seq<InstructionView>, b: Seq<InstructionView>, l: Seq<char>)
    requires
        avoids(a, l),
        avoids(b, l),
    ensures
        avoids(a + b, l),
{
    assert forall|k: int| 0 <= k < (a + b).len() implies (a + b)[k] != InstructionView::Label(l) by {
        if k >= a.len() {
            assert((a + b)[k] == b[k - a.len()]);
        } else {
            assert((a + b)[k] == a[k]);
        }
    }
}

/// A label numbered `n` is not one numbered `m`, whatever their names.
proof fn lemma_label_numbers_differ(x: Seq<char>, n: usize, y: Seq<char>, m: usize)
    requires
        n != m,
    ensures
        jump_label(x, n) != jump_label(y, m),
{
    if jump_label(x, n) == jump_label(y, m) {
        law_numbered_names_are_distinct("label_"@, x, n as nat, y, m as nat);
    }
}

proof fn lemma_expression_avoids(e: TypedExpressionView, c: TackyCounters, x: Seq<char>, n: usize)
    requires
        n < c.label,
        c.label + label_size(e) <= usize::MAX,
    ensures
        spec_tacky_expression(e, c).2.label == c.label + label_size(e),
        avoids(spec_tacky_expression(e, c).0, jump_label(x, n)),
    decreases e, 3nat,
{
    let lab = jump_label(x, n);
    match e.expression {
        ExpressionView::Factor(f) => {
            lemma_factor_avoids(f, c, x, n);
        },
        ExpressionView::BinaryOp { op, left, right } => match tacky_binary_op(op) {
            Some(bop) => {
                let (i1, v1, c1) = spec_tacky_expression(*left, c);
                lemma_expression_avoids(*left, c, x, n);
                let (i2, v2, c2) = spec_tacky_expression(*right, c1);
                lemma_expression_avoids(*right, c1, x, n);
                let y = seq![InstructionView::BinaryOp { op: bop, val1: v1, val2: v2, dst: binary_temp(c2.binary) }];
                lemma_avoids_concat(i1, i2, lab);
                lemma_avoids_concat(i1 + i2, y, lab);
            },
            None => {
                let c0 = two_labels_and_temp(c);
                let end = jump_label("binop_end"@, c.label);
                let out = binary_temp(c.binary);
                let (i1, v1, c1) = spec_tacky_expression(*left, c0);
                lemma_expression_avoids(*left, c0, x, n);
                let (i2, v2, c2) = spec_tacky_expression(*right, c1);
                lemma_expression_avoids(*right, c1, x, n);
                lemma_label_numbers_differ("binop_end"@, c.label, x, n);
                let on_zero = op == AstBinaryOperator::LogicalAnd;
                let t = if on_zero {
                    jump_label("binop_false"@, bump(c.label))
                } else {
                    jump_label("binop_true"@, bump(c.label))
                };
                lemma_label_numbers_differ(
                    if on_zero { "binop_false"@ } else { "binop_true"@ },
                    bump(c.label),
                    x,
                    n,
                );
                let tail = logical_tail(v2, on_zero, t, end, out->Var_0);
                assert(avoids(tail, lab));
                let j = seq![short_jump(on_zero, v1, t)];
                assert(avoids(j, lab));
                lemma_avoids_concat(i1, j, lab);
                lemma_avoids_concat(i1 + j, i2, lab);
                lemma_avoids_concat(i1 + j + i2, tail, lab);
                assert(spec_tacky_expression(e, c).0 =~= i1 + j + i2 + tail);
            },
        },
        ExpressionView::Assignment { left, right } => {
            let (i1, rv, c1) = spec_tacky_expression(*right, c);
            lemma_expression_avoids(*right, c, x, n);
            lemma_expression_avoids(*left, c1, x, n);
            let (_, lv, c2) = spec_tacky_expression(*left, c1);
            let y = seq![InstructionView::Copy { src: rv, dst: lv }];
            lemma_avoids_concat(i1, y, lab);
            assert(i1.push(InstructionView::Copy { src: rv, dst: lv }) =~= i1 + y);
        },
        ExpressionView::Conditional { condition, then_branch, else_branch } => {
            let el = jump_label("cond_else"@, c.label);
            let end = jump_label("cond_end"@, bump(c.label));
            let out = binary_temp(c.binary);
            let c0 = two_labels_and_temp(c);
            let (i1, cv, c1) = spec_tacky_expression(*condition, c0);
            lemma_expression_avoids(*condition, c0, x, n);
            let (i2, tv, c2) = spec_tacky_expression(*then_branch, c1);
            lemma_expression_avoids(*then_branch, c1, x, n);
            let (i3, ev, c3) = spec_tacky_expression(*else_branch, c2);
            lemma_expression_avoids(*else_branch, c2, x, n);
            lemma_label_numbers_differ("cond_else"@, c.label, x, n);
            lemma_label_numbers_differ("cond_end"@, bump(c.label), x, n);
            let a = seq![InstructionView::JumpIfZero { val: cv, target: el }];
            let b = seq![
                InstructionView::Copy { src: tv, dst: out },
                InstructionView::Jump(end),
                InstructionView::Label(el),
            ];
            let d = seq![InstructionView::Copy { src: ev, dst: out }, InstructionView::Label(end)];
            assert(avoids(a, lab));
            assert(avoids(b, lab));
            assert(avoids(d, lab));
            lemma_avoids_concat(i1, a, lab);
            lemma_avoids_concat(i1 + a, i2, lab);
            lemma_avoids_concat(i1 + a + i2, b, lab);
            lemma_avoids_concat(i1 + a + i2 + b, i3, lab);
            lemma_avoids_concat(i1 + a + i2 + b + i3, d, lab);
            assert(spec_tacky_expression(e, c).0 =~= i1 + a + i2 + b + i3 + d);
        },
    }
}

proof fn lemma_factor_avoids(f: FactorView, c: TackyCounters, x: Seq<char>, n: usize)
    requires
        n < c.label,
        c.label + factor_label_size(f) <= usize::MAX,
    ensures
        spec_tacky_factor(f, c).2.label == c.label + factor_label_size(f),
        avoids(spec_tacky_factor(f, c).0, jump_label(x, n)),
    decreases f, 2nat,
{
    let lab = jump_label(x, n);
    match f {
        FactorView::UnaryOp { op, fac } => {
            lemma_factor_avoids(*fac, c, x, n);
            let (i, v, c1) = spec_tacky_factor(*fac, c);
            let dst = unary_temp(c1.unary);
            if op == UnaryOperator::PrefixIncrement || op == UnaryOperator::PrefixDecrement {
                let y = seq![
                    InstructionView::BinaryOp { op: step_op(op), val1: v, val2: ValueView::Constant(1), dst },
                    InstructionView::Copy { src: dst, dst: v },
                ];
                assert(avoids(y, lab));
                lemma_avoids_concat(i, y, lab);
            } else {
                let y = seq![InstructionView::UnaryOp { op, src: v, dst }];
                lemma_avoids_concat(i, y, lab);
                assert(i.push(InstructionView::UnaryOp { op, src: v, dst }) =~= i + y);
            }
        },
        FactorView::Postfix(p) => {
            lemma_primary_avoids(p.primary, c, x, n);
            let (i, v, c1) = spec_tacky_primary(p.primary, c);
            if p.postfix.len() > 0 {
                let dst = unary_temp(c1.unary);
                let y = seq![
                    InstructionView::Copy { src: v, dst },
                    InstructionView::BinaryOp {
                        op: postfix_step_op(p.postfix[0]),
                        val1: dst,
                        val2: ValueView::Constant(1),
                        dst: v,
                    },
                ];
                assert(avoids(y, lab));
                lemma_avoids_concat(i, y, lab);
            }
        },
        FactorView::Cast { ty, fac } => {
            lemma_factor_avoids(*fac, c, x, n);
        },
    }
}

proof fn lemma_primary_avoids(p: PrimaryView, c: TackyCounters, x: Seq<char>, n: usize)
    requires
        n < c.label,
        c.label + primary_label_size(p) <= usize::MAX,
    ensures
        spec_tacky_primary(p, c).2.label == c.label + primary_label_size(p),
        avoids(spec_tacky_primary(p, c).0, jump_label(x, n)),
    decreases p, 1nat,
{
    let lab = jump_label(x, n);
    match p {
        PrimaryView::Paren(e) => {
            lemma_expression_avoids(*e, c, x, n);
        },
        PrimaryView::FunctionCall(name, args) => {
            lemma_arguments_avoids(args, c, x, n);
            let (i, vs, c1) = spec_tacky_arguments(args, c);
            let y = seq![InstructionView::FunCall { name, args: vs, dst: call_temp(c1.call) }];
            lemma_avoids_concat(i, y, lab);
            assert(i.push(InstructionView::FunCall { name, args: vs, dst: call_temp(c1.call) }) =~= i + y);
        },
        _ => {},
    }
}

proof fn lemma_arguments_avoids(args: Seq<TypedExpressionView>, c: TackyCounters, x: Seq<char>, n: usize)
    requires
        n < c.label,
        c.label + arguments_label_size(args) <= usize::MAX,
    ensures
        spec_tacky_arguments(args, c).2.label == c.label + arguments_label_size(args),
        avoids(spec_tacky_arguments(args, c).0, jump_label(x, n)),
    decreases args, args.len(),
{
    if args.len() > 0 {
        let (i1, vs, c1) = spec_tacky_arguments(args.drop_last(), c);
        lemma_arguments_avoids(args.drop_last(), c, x, n);
        lemma_expression_avoids(args.last(), c1, x, n);
        lemma_avoids_concat(i1, spec_tacky_expression(args.last(), c1).0, jump_label(x, n));
    }
}

/// The value C gives `a || b` (where `op` is `LogicalOr`) or `a && b` (where
/// it is `LogicalAnd`) from the values of its operands: 1 where the operator
/// holds of them, 0 where it does not.
pub open spec fn c_logical(op: AstBinaryOperator, a: i32, b: i32) -> i32 {
    if op == AstBinaryOperator::LogicalOr {
        flag(a != 0 || b != 0)
    } else {
        flag(a != 0 && b != 0)
    }
}

/// The value C gives `l || r` or `l && r` in a store: the left operand is
/// evaluated first, and the right one only where the left does not decide
/// (a nonzero left makes `||` 1, a zero left makes `&&` 0); otherwise the
/// value is 1 where the right operand is nonzero and 0 where it is zero.
pub open spec fn c_eval_logical(
    op: AstBinaryOperator,
    l: TypedExpressionView,
    r: TypedExpressionView,
    s: Store,
) -> Option<i32> {
    match c_eval(l, s) {
        Some(a) => if op == AstBinaryOperator::LogicalOr && a != 0 {
            Some(1)
        } else if op == AstBinaryOperator::LogicalAnd && a == 0 {
            Some(0)
        } else {
            match c_eval(r, s) {
                Some(b) => Some(flag(b != 0)),
                None => None,
            }
        },
        None => None,
    }
}

/// The two stores agree on every name that is not a temporary.
pub open spec fn same_variables(s: Store, s2: Store) -> bool {
    forall|n: Seq<char>|
        !is_temporary(n) ==> ((#[trigger] s2.contains_key(n)) == s.contains_key(n) && (
        s.contains_key(n) ==> s2[n] == s[n]))
}

proof fn lemma_labels_differ(c: TackyCounters)
    ensures
        jump_label("binop_true"@, bump(c.label)) != jump_label("binop_end"@, c.label),
        jump_label("binop_false"@, bump(c.label)) != jump_label("binop_end"@, c.label),
{
    reveal_strlit("binop_true");
    reveal_strlit("binop_false");
    reveal_strlit("binop_end");
    if jump_label("binop_true"@, bump(c.label)) == jump_label("binop_end"@, c.label) {
        law_numbered_names_are_distinct("label_"@, "binop_true"@, bump(c.label) as nat, "binop_end"@, c.label as nat);
    }
    if jump_label("binop_false"@, bump(c.label)) == jump_label("binop_end"@, c.label) {
        law_numbered_names_are_distinct("label_"@, "binop_false"@, bump(c.label) as nat, "binop_end"@, c.label as nat);
    }
}

/// Lowering keeps the meaning of `||` and `&&`, short-circuit included:
/// where C gives `l || r` or `l && r` a value in store `s`, the operands'
/// variables are not named like temporaries, and the counters can number
/// the temporaries and labels, running the lowered instructions from `s`,
/// jumps followed, ends; the operand that lowering names is a temporary
/// that holds C's value (so, where both operands have values, 1 where the
/// operator holds of them and 0 where it does not); and no variable but the
/// temporaries changes.
pub proof fn law_lowering_computes_logical_values(
    e: TypedExpressionView,
    op: AstBinaryOperator,
    left: TypedExpressionView,
    right: TypedExpressionView,
    c: TackyCounters,
    s: Store,
)
    requires
        op == AstBinaryOperator::LogicalOr || op == AstBinaryOperator::LogicalAnd,
        e.expression == (ExpressionView::BinaryOp { op, left: Box::new(left), right: Box::new(right) }),
        c_eval_logical(op, left, right, s) is Some,
        no_temporaries(left),
        no_temporaries(right),
        c.unary + expr_size(e) <= usize::MAX,
        c.binary + expr_size(e) <= usize::MAX,
        c.label + label_size(e) <= usize::MAX,
    ensures
        ({
            let l = spec_tacky_expression(e, c);
            let r = execute(l.0, 0, s, l.0.len() as nat);
            &&& r is Some
            &&& value_of(l.1, r->Some_0) == c_eval_logical(op, left, right, s)
            &&& c_eval(right, s) is Some ==> value_of(l.1, r->Some_0) == Some(
                c_logical(op, c_eval(left, s)->Some_0, c_eval(right, s)->Some_0),
            )
            &&& l.1 is Var
            &&& is_temporary(l.1->Var_0)
            &&& same_variables(s, r->Some_0)
        }),
{
    let c0 = two_labels_and_temp(c);
    let end = jump_label("binop_end"@, c.label);
    let out = numbered("binary_op"@, ""@, c.binary as nat);
    let on_zero = op == AstBinaryOperator::LogicalAnd;
    let tname = if on_zero { "binop_false"@ } else { "binop_true"@ };
    let t = jump_label(tname, bump(c.label));
    lemma_labels_differ(c);
    let (i1, v1, c1) = spec_tacky_expression(left, c0);
    let (i2, v2, c2) = spec_tacky_expression(right, c1);
    assert(expr_size(e) == 1 + expr_size(left) + expr_size(right));
    assert(label_size(e) == 2 + label_size(left) + label_size(right));
    assert(c0.binary == c.binary + 1);
    assert(c0.unary == c.unary);
    assert(c0.label == c.label + 2);
    lemma_expression_avoids(left, c0, tname, bump(c.label));
    lemma_expression_avoids(right, c1, tname, bump(c.label));
    lemma_lower_expression(left, c0, s);
    let s1 = run(i1, s)->Some_0;
    let a = c_eval(left, s)->Some_0;
    assert(value_of(v1, s1) == Some(a));
    let shape = logical_shape(i1, v1, i2, v2, on_zero, t, end, out);
    assert(binary_temp(c.binary) == ValueView::Var(out));
    assert(spec_tacky_expression(e, c).0 =~= shape);
    assert(spec_tacky_expression(e, c).1 == ValueView::Var(out));
    assert(is_temporary(out)) by {
        assert(out == numbered("binary_op"@, ""@, c.binary as nat));
    }
    if short_jumps(on_zero, a) {
        lemma_execute_decided(i1, v1, i2, v2, on_zero, t, end, out, s);
        let r = execute(shape, 0, s, shape.len() as nat)->Some_0;
        assert forall|n: Seq<char>| !is_temporary(n) implies ((#[trigger] r.contains_key(n)) == s.contains_key(n) && (
        s.contains_key(n) ==> r[n] == s[n])) by {
            if fresh_between(n, c0, c1) {
                lemma_fresh_is_temporary(n, c0, c1);
            }
            assert(n != out);
            assert(s1.contains_key(n) == s.contains_key(n));
            if s.contains_key(n) {
                assert(s1[n] == s[n]);
            }
        }
        let kj: i32 = if on_zero { 0 } else { 1 };
        assert(r == s1.insert(out, kj));
        assert(value_of(ValueView::Var(out), r) == Some(kj));
        assert(c_eval_logical(op, left, right, s) == Some(kj));
        assert(execute(spec_tacky_expression(e, c).0, 0, s, spec_tacky_expression(e, c).0.len() as nat) == Some(r));
    } else {
        lemma_c_eval_agree(right, s, s1, c0, c1);
        lemma_lower_expression(right, c1, s1);
        let s2 = run(i2, s1)->Some_0;
        let b = c_eval(right, s)->Some_0;
        assert(value_of(v2, s2) == Some(b));
        lemma_execute_undecided(i1, v1, i2, v2, on_zero, t, end, out, s);
        let r = execute(shape, 0, s, shape.len() as nat)->Some_0;
        assert forall|n: Seq<char>| !is_temporary(n) implies ((#[trigger] r.contains_key(n)) == s.contains_key(n) && (
        s.contains_key(n) ==> r[n] == s[n])) by {
            if fresh_between(n, c0, c1) {
                lemma_fresh_is_temporary(n, c0, c1);
            }
            if fresh_between(n, c1, c2) {
                lemma_fresh_is_temporary(n, c1, c2);
            }
            assert(n != out);
            assert(s1.contains_key(n) == s.contains_key(n));
            assert(s2.contains_key(n) == s1.contains_key(n));
            if s.contains_key(n) {
                assert(s1[n] == s[n]);
                assert(s2[n] == s1[n]);
            }
        }
        let kj: i32 = if on_zero { 0 } else { 1 };
        let kf: i32 = if on_zero { 1 } else { 0 };
        assert(r == if short_jumps(on_zero, b) { s2.insert(out, kj) } else { s2.insert(out, kf) });
        assert(c_eval(right, s) == Some(b));
        assert(c_eval_logical(op, left, right, s) == Some(flag(b != 0)));
        assert(value_of(ValueView::Var(out), r) == Some(flag(b != 0)));
        assert(execute(spec_tacky_expression(e, c).0, 0, s, spec_tacky_expression(e, c).0.len() as nat) == Some(r));
    }
}

} // verus!
