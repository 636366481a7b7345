//! What lowering computes: the value that C gives a straight-line arithmetic
//! expression, and the machine meaning of the TACKY instructions that lower
//! it. The law at the end says that running the instructions gives the
//! expression's value.
use vstd::prelude::*;

use crate::names::{bump, law_numbered_names_are_distinct, numbered};
use crate::parser::{
    ExpressionView, FactorView, PrimaryView,
    TypedExpressionView, UnaryOperator,
};
use crate::tacky::{
    spec_tacky_expression, spec_tacky_factor, spec_tacky_primary, tacky_binary_op,
    BinaryOperator, InstructionView, TackyCounters, ValueView,
};
use crate::types::Constant;

verus! {

/// The values of variables, by name.
pub type Store = Map<Seq<char>, i32>;

pub open spec fn fits_int(x: int) -> bool {
    i32::MIN <= x <= i32::MAX
}

pub open spec fn abs(x: int) -> int {
    if x < 0 {
        -x
    } else {
        x
    }
}

/// Division rounding toward zero, as C divides integers.
pub open spec fn trunc_div(a: int, b: int) -> int {
    if (a >= 0) == (b > 0) {
        abs(a) / abs(b)
    } else {
        -(abs(a) / abs(b))
    }
}

pub open spec fn flag(b: bool) -> i32 {
    if b {
        1
    } else {
        0
    }
}

/// The value of a binary operation on two `int`s in C; none where C leaves
/// the result undefined (overflow, division by zero) and for the shifts,
/// which this part of the language leaves out.
pub open spec fn c_binary(op: BinaryOperator, a: i32, b: i32) -> Option<i32> {
    match op {
        BinaryOperator::Add => if fits_int(a + b) {
            Some((a + b) as i32)
        } else {
            None
        },
        BinaryOperator::Subtract => if fits_int(a - b) {
            Some((a - b) as i32)
        } else {
            None
        },
        BinaryOperator::Multiply => if fits_int(a * b) {
            Some((a * b) as i32)
        } else {
            None
        },
        BinaryOperator::Divide => if b != 0 && fits_int(trunc_div(a as int, b as int)) {
            Some(trunc_div(a as int, b as int) as i32)
        } else {
            None
        },
        BinaryOperator::Remainder => if b != 0 && fits_int(trunc_div(a as int, b as int)) {
            Some((a - b * trunc_div(a as int, b as int)) as i32)
        } else {
            None
        },
        BinaryOperator::BitwiseAnd => Some(a & b),
        BinaryOperator::BitwiseOr => Some(a | b),
        BinaryOperator::BitwiseXor => Some(a ^ b),
        BinaryOperator::Equal => Some(flag(a == b)),
        BinaryOperator::NotEqual => Some(flag(a != b)),
        BinaryOperator::LessThan => Some(flag(a < b)),
        BinaryOperator::GreaterThan => Some(flag(a > b)),
        BinaryOperator::LessEqual => Some(flag(a <= b)),
        BinaryOperator::GreaterEqual => Some(flag(a >= b)),
        _ => None,
    }
}

/// The value of a unary operation on an `int` in C.
pub open spec fn c_unary(op: UnaryOperator, a: i32) -> Option<i32> {
    match op {
        UnaryOperator::Complement => Some(!a),
        UnaryOperator::Negate => if a != i32::MIN {
            Some((-a) as i32)
        } else {
            None
        },
        UnaryOperator::LogicalNot => Some(flag(a == 0)),
        _ => None,
    }
}

/// What a binary TACKY operation computes on the machine: two's complement
/// arithmetic that wraps, and a fault on division by zero or a quotient that
/// does not fit.
pub open spec fn machine_binary(op: BinaryOperator, a: i32, b: i32) -> Option<i32> {
    match op {
        BinaryOperator::Add => Some((a + b) as i32),
        BinaryOperator::Subtract => Some((a - b) as i32),
        BinaryOperator::Multiply => Some((a * b) as i32),
        BinaryOperator::Divide => if b != 0 && fits_int(trunc_div(a as int, b as int)) {
            Some(trunc_div(a as int, b as int) as i32)
        } else {
            None
        },
        BinaryOperator::Remainder => if b != 0 && fits_int(trunc_div(a as int, b as int)) {
            Some((a - b * trunc_div(a as int, b as int)) as i32)
        } else {
            None
        },
        BinaryOperator::BitwiseAnd => Some(a & b),
        BinaryOperator::BitwiseOr => Some(a | b),
        BinaryOperator::BitwiseXor => Some(a ^ b),
        BinaryOperator::Equal => Some(flag(a == b)),
        BinaryOperator::NotEqual => Some(flag(a != b)),
        BinaryOperator::LessThan => Some(flag(a < b)),
        BinaryOperator::GreaterThan => Some(flag(a > b)),
        BinaryOperator::LessEqual => Some(flag(a <= b)),
        BinaryOperator::GreaterEqual => Some(flag(a >= b)),
        _ => None,
    }
}

/// What a unary TACKY operation computes on the machine.
pub open spec fn machine_unary(op: UnaryOperator, a: i32) -> Option<i32> {
    match op {
        UnaryOperator::Complement => Some(!a),
        UnaryOperator::Negate => Some((-a) as i32),
        UnaryOperator::LogicalNot => Some(flag(a == 0)),
        _ => None,
    }
}

/// The value of a TACKY operand in a store.
pub open spec fn value_of(v: ValueView, s: Store) -> Option<i32> {
    match v {
        ValueView::Constant(k) => Some(k as i32),
        ValueView::Var(n) => if s.contains_key(n) {
            Some(s[n])
        } else {
            None
        },
    }
}

/// One straight-line TACKY instruction run on a store; none for an
/// instruction that jumps, calls or returns, or that faults.
pub open spec fn step(i: InstructionView, s: Store) -> Option<Store> {
    match i {
        InstructionView::UnaryOp { op, src, dst: ValueView::Var(d) } => match value_of(src, s) {
            Some(a) => match machine_unary(op, a) {
                Some(r) => Some(s.insert(d, r)),
                None => None,
            },
            None => None,
        },
        InstructionView::BinaryOp { op, val1, val2, dst: ValueView::Var(d) } => match value_of(
            val1,
            s,
        ) {
            Some(a) => match value_of(val2, s) {
                Some(b) => match machine_binary(op, a, b) {
                    Some(r) => Some(s.insert(d, r)),
                    None => None,
                },
                None => None,
            },
            None => None,
        },
        InstructionView::Copy { src, dst: ValueView::Var(d) } => match value_of(src, s) {
            Some(a) => Some(s.insert(d, a)),
            None => None,
        },
        _ => None,
    }
}

/// A straight-line instruction sequence run on a store, first to last.
pub open spec fn run(is: Seq<InstructionView>, s: Store) -> Option<Store>
    decreases is.len(),
{
    if is.len() == 0 {
        Some(s)
    } else {
        match run(is.drop_last(), s) {
            Some(s1) => step(is.last(), s1),
            None => None,
        }
    }
}

/// The value C gives a straight-line arithmetic expression over `int`
/// variables: constants, variables, parentheses, casts, `~`, `-`, `!`, and
/// the arithmetic, bitwise and comparison operators. None outside that part
/// of the language (assignments, increments, calls, `&&`, `||`, `?:`,
/// shifts, `long` constants), for a variable the store lacks, and where C
/// leaves the value undefined.
pub open spec fn c_eval(e: TypedExpressionView, s: Store) -> Option<i32>
    decreases e, 3nat,
{
    match e.expression {
        ExpressionView::Factor(f) => c_eval_factor(f, s),
        ExpressionView::BinaryOp { op, left, right } => match tacky_binary_op(op) {
            Some(bop) => match c_eval(*left, s) {
                Some(a) => match c_eval(*right, s) {
                    Some(b) => c_binary(bop, a, b),
                    None => None,
                },
                None => None,
            },
            None => None,
        },
        _ => None,
    }
}

pub open spec fn c_eval_factor(f: FactorView, s: Store) -> Option<i32>
    decreases f, 2nat,
{
    match f {
        FactorView::UnaryOp { op, fac } => match c_eval_factor(*fac, s) {
            Some(a) => c_unary(op, a),
            None => None,
        },
        FactorView::Postfix(p) => if p.postfix.len() == 0 {
            c_eval_primary(p.primary, s)
        } else {
            None
        },
        FactorView::Cast { ty: _, fac } => c_eval_factor(*fac, s),
    }
}

pub open spec fn c_eval_primary(p: PrimaryView, s: Store) -> Option<i32>
    decreases p, 1nat,
{
    match p {
        PrimaryView::Constant(Constant::Int(v)) => Some(v),
        PrimaryView::Var(id) => if s.contains_key(id) {
            Some(s[id])
        } else {
            None
        },
        PrimaryView::Paren(e) => c_eval(*e, s),
        _ => None,
    }
}

/// The name of a temporary that lowering makes.
pub open spec fn is_temporary(n: Seq<char>) -> bool {
    (exists|k: nat| n == #[trigger] numbered("unary_op"@, ""@, k)) || (exists|k: nat|
        n == #[trigger] numbered("binary_op"@, ""@, k))
}

/// No variable of the expression has the name of a temporary.
pub open spec fn no_temporaries(e: TypedExpressionView) -> bool
    decreases e, 3nat,
{
    match e.expression {
        ExpressionView::Factor(f) => no_temporaries_factor(f),
        ExpressionView::BinaryOp { op: _, left, right } => no_temporaries(*left) && no_temporaries(
            *right,
        ),
        _ => true,
    }
}

pub open spec fn no_temporaries_factor(f: FactorView) -> bool
    decreases f, 2nat,
{
    match f {
        FactorView::UnaryOp { op: _, fac } => no_temporaries_factor(*fac),
        FactorView::Postfix(p) => no_temporaries_primary(p.primary),
        FactorView::Cast { ty: _, fac } => no_temporaries_factor(*fac),
    }
}

pub open spec fn no_temporaries_primary(p: PrimaryView) -> bool
    decreases p, 1nat,
{
    match p {
        PrimaryView::Var(id) => !is_temporary(id),
        PrimaryView::Paren(e) => no_temporaries(*e),
        _ => true,
    }
}

/// How many operators an expression has, at most how many temporaries its
/// lowering takes of each kind.
pub open spec fn expr_size(e: TypedExpressionView) -> nat
    decreases e, 3nat,
{
    match e.expression {
        ExpressionView::Factor(f) => factor_size(f),
        ExpressionView::BinaryOp { op: _, left, right } => 1 + expr_size(*left) + expr_size(*right),
        _ => 1,
    }
}

pub open spec fn factor_size(f: FactorView) -> nat
    decreases f, 2nat,
{
    match f {
        FactorView::UnaryOp { op: _, fac } => 1 + factor_size(*fac),
        FactorView::Postfix(p) => primary_size(p.primary),
        FactorView::Cast { ty: _, fac } => factor_size(*fac),
    }
}

pub open spec fn primary_size(p: PrimaryView) -> nat
    decreases p, 1nat,
{
    match p {
        PrimaryView::Paren(e) => expr_size(*e),
        _ => 0,
    }
}

/// A temporary taken between the counters `c` and `c2`.
pub open spec fn fresh_between(n: Seq<char>, c: TackyCounters, c2: TackyCounters) -> bool {
    (exists|k: nat| c.unary <= k < c2.unary && n == #[trigger] numbered("unary_op"@, ""@, k)) || (
    exists|k: nat| c.binary <= k < c2.binary && n == #[trigger] numbered("binary_op"@, ""@, k))
}

/// `s2` holds what `s` holds, but for temporaries taken between `c` and `c2`.
pub open spec fn agrees_outside(s: Store, s2: Store, c: TackyCounters, c2: TackyCounters) -> bool {
    forall|n: Seq<char>|
        !fresh_between(n, c, c2) ==> ((#[trigger] s2.contains_key(n)) == s.contains_key(n) && (
        s.contains_key(n) ==> s2[n] == s[n]))
}

/// The operand that holds a lowered value: a constant, a variable of the
/// program, or a temporary taken between `c` and `c2`.
pub open spec fn result_operand(v: ValueView, c: TackyCounters, c2: TackyCounters) -> bool {
    match v {
        ValueView::Constant(_) => true,
        ValueView::Var(n) => !is_temporary(n) || fresh_between(n, c, c2),
    }
}

/// The counters `c2` come after `c`, by at most `size` temporaries of each
/// kind, and no label or call was numbered in between.
pub open spec fn counted(c: TackyCounters, c2: TackyCounters, size: nat) -> bool {
    &&& c.unary <= c2.unary <= c.unary + size
    &&& c.binary <= c2.binary <= c.binary + size
    &&& c2.label == c.label
    &&& c2.call == c.call
}

/// What the lowering of a straight-line expression owes: its instructions
/// run to the end, the operand they leave holds the expression's C value,
/// and only temporaries taken along the way change.
pub open spec fn lowers_correctly(
    l: (Seq<InstructionView>, ValueView, TackyCounters),
    value: i32,
    s: Store,
    c: TackyCounters,
    size: nat,
) -> bool {
    &&& run(l.0, s) is Some
    &&& value_of(l.1, run(l.0, s)->Some_0) == Some(value)
    &&& agrees_outside(s, run(l.0, s)->Some_0, c, l.2)
    &&& result_operand(l.1, c, l.2)
    &&& counted(c, l.2, size)
}


pub(crate) proof fn lemma_run_concat(a: Seq<InstructionView>, b: Seq<InstructionView>, s: Store)
    ensures
        run(a + b, s) == match run(a, s) {
            Some(s1) => run(b, s1),
            None => None,
        },
    decreases b.len(),
{
    if b.len() == 0 {
        assert(a + b =~= a);
    } else {
        lemma_run_concat(a, b.drop_last(), s);
        assert((a + b).drop_last() =~= a + b.drop_last());
        assert((a + b).last() == b.last());
    }
}

pub(crate) proof fn lemma_run_single(i: InstructionView, s: Store)
    ensures
        run(seq![i], s) == step(i, s),
{
    assert(seq![i].drop_last() =~= Seq::<InstructionView>::empty());
    assert(run(Seq::<InstructionView>::empty(), s) == Some(s));
    assert(seq![i].last() == i);
}

proof fn lemma_temporary_kinds_differ(a: nat, b: nat)
    ensures
        numbered("unary_op"@, ""@, a) != numbered("binary_op"@, ""@, b),
{
    reveal_strlit("unary_op");
    reveal_strlit("binary_op");
    let x = numbered("unary_op"@, ""@, a);
    let y = numbered("binary_op"@, ""@, b);
    assert(x[0] == 'u');
    assert(y[0] == 'b');
}

pub(crate) proof fn lemma_fresh_is_temporary(n: Seq<char>, c: TackyCounters, c2: TackyCounters)
    requires
        fresh_between(n, c, c2),
    ensures
        is_temporary(n),
{
    if exists|k: nat| c.unary <= k < c2.unary && n == #[trigger] numbered("unary_op"@, ""@, k) {
        let k = choose|k: nat| c.unary <= k < c2.unary && n == #[trigger] numbered("unary_op"@, ""@, k);
        assert(n == numbered("unary_op"@, ""@, k));
    } else {
        let k = choose|k: nat| c.binary <= k < c2.binary && n == #[trigger] numbered("binary_op"@, ""@, k);
        assert(n == numbered("binary_op"@, ""@, k));
    }
}

/// A temporary taken between `c` and `c1` is not one taken between `c1`
/// and `c2`, and both are among those taken between `c` and `c2`.
pub(crate) proof fn lemma_fresh_ranges(n: Seq<char>, c: TackyCounters, c1: TackyCounters, c2: TackyCounters)
    requires
        c.unary <= c1.unary <= c2.unary,
        c.binary <= c1.binary <= c2.binary,
    ensures
        fresh_between(n, c, c1) ==> !fresh_between(n, c1, c2) && fresh_between(n, c, c2),
        fresh_between(n, c1, c2) ==> fresh_between(n, c, c2),
{
    if exists|k: nat| c.unary <= k < c1.unary && n == #[trigger] numbered("unary_op"@, ""@, k) {
        let k = choose|k: nat| c.unary <= k < c1.unary && n == #[trigger] numbered("unary_op"@, ""@, k);
        assert forall|j: nat| c1.unary <= j < c2.unary implies n != #[trigger] numbered(
            "unary_op"@,
            ""@,
            j,
        ) by {
            if n == numbered("unary_op"@, ""@, j) {
                law_numbered_names_are_distinct("unary_op"@, ""@, k, ""@, j);
            }
        }
        assert forall|j: nat| c1.binary <= j < c2.binary implies n != #[trigger] numbered(
            "binary_op"@,
            ""@,
            j,
        ) by {
            lemma_temporary_kinds_differ(k, j);
        }
        assert(c.unary <= k < c2.unary && n == numbered("unary_op"@, ""@, k));
    }
    if exists|k: nat| c.binary <= k < c1.binary && n == #[trigger] numbered("binary_op"@, ""@, k) {
        let k = choose|k: nat| c.binary <= k < c1.binary && n == #[trigger] numbered("binary_op"@, ""@, k);
        assert forall|j: nat| c1.binary <= j < c2.binary implies n != #[trigger] numbered(
            "binary_op"@,
            ""@,
            j,
        ) by {
            if n == numbered("binary_op"@, ""@, j) {
                law_numbered_names_are_distinct("binary_op"@, ""@, k, ""@, j);
            }
        }
        assert forall|j: nat| c1.unary <= j < c2.unary implies n != #[trigger] numbered(
            "unary_op"@,
            ""@,
            j,
        ) by {
            lemma_temporary_kinds_differ(j, k);
        }
        assert(c.binary <= k < c2.binary && n == numbered("binary_op"@, ""@, k));
    }
    if exists|k: nat| c1.unary <= k < c2.unary && n == #[trigger] numbered("unary_op"@, ""@, k) {
        let k = choose|k: nat| c1.unary <= k < c2.unary && n == #[trigger] numbered("unary_op"@, ""@, k);
        assert(c.unary <= k < c2.unary && n == numbered("unary_op"@, ""@, k));
    }
    if exists|k: nat| c1.binary <= k < c2.binary && n == #[trigger] numbered("binary_op"@, ""@, k) {
        let k = choose|k: nat| c1.binary <= k < c2.binary && n == #[trigger] numbered("binary_op"@, ""@, k);
        assert(c.binary <= k < c2.binary && n == numbered("binary_op"@, ""@, k));
    }
}

/// Stores that agree on every name but the temporaries give an expression
/// without temporaries the same value.
pub(crate) proof fn lemma_c_eval_agree(e: TypedExpressionView, s: Store, s2: Store, c: TackyCounters, c2: TackyCounters)
    requires
        no_temporaries(e),
        agrees_outside(s, s2, c, c2),
    ensures
        c_eval(e, s2) == c_eval(e, s),
    decreases e, 3nat,
{
    match e.expression {
        ExpressionView::Factor(f) => {
            lemma_c_eval_agree_factor(f, s, s2, c, c2);
        },
        ExpressionView::BinaryOp { op, left, right } => {
            lemma_c_eval_agree(*left, s, s2, c, c2);
            lemma_c_eval_agree(*right, s, s2, c, c2);
        },
        _ => {},
    }
}

proof fn lemma_c_eval_agree_factor(f: FactorView, s: Store, s2: Store, c: TackyCounters, c2: TackyCounters)
    requires
        no_temporaries_factor(f),
        agrees_outside(s, s2, c, c2),
    ensures
        c_eval_factor(f, s2) == c_eval_factor(f, s),
    decreases f, 2nat,
{
    match f {
        FactorView::UnaryOp { op, fac } => {
            lemma_c_eval_agree_factor(*fac, s, s2, c, c2);
        },
        FactorView::Postfix(p) => {
            lemma_c_eval_agree_primary(p.primary, s, s2, c, c2);
        },
        FactorView::Cast { ty, fac } => {
            lemma_c_eval_agree_factor(*fac, s, s2, c, c2);
        },
    }
}

proof fn lemma_c_eval_agree_primary(p: PrimaryView, s: Store, s2: Store, c: TackyCounters, c2: TackyCounters)
    requires
        no_temporaries_primary(p),
        agrees_outside(s, s2, c, c2),
    ensures
        c_eval_primary(p, s2) == c_eval_primary(p, s),
    decreases p, 1nat,
{
    match p {
        PrimaryView::Var(id) => {
            if fresh_between(id, c, c2) {
                lemma_fresh_is_temporary(id, c, c2);
            }
            assert(s2.contains_key(id) == s.contains_key(id));
        },
        PrimaryView::Paren(e) => {
            lemma_c_eval_agree(*e, s, s2, c, c2);
        },
        _ => {},
    }
}

proof fn lemma_int_bits(v: i32)
    ensures
        (v as u32) as i32 == v,
{
    assert((v as u32) as i32 == v) by (bit_vector);
}


pub(crate) proof fn lemma_lower_expression(e: TypedExpressionView, c: TackyCounters, s: Store)
    requires
        c_eval(e, s) is Some,
        no_temporaries(e),
        c.unary + expr_size(e) <= usize::MAX,
        c.binary + expr_size(e) <= usize::MAX,
    ensures
        lowers_correctly(spec_tacky_expression(e, c), c_eval(e, s)->Some_0, s, c, expr_size(e)),
    decreases e, 3nat,
{
    match e.expression {
        ExpressionView::Factor(f) => {
            lemma_lower_factor(f, c, s);
        },
        ExpressionView::BinaryOp { op, left, right } => {
            let bop = tacky_binary_op(op)->Some_0;
            let (i1, v1, c1) = spec_tacky_expression(*left, c);
            lemma_lower_expression(*left, c, s);
            let s1 = run(i1, s)->Some_0;
            lemma_c_eval_agree(*right, s, s1, c, c1);
            let (i2, v2, c2) = spec_tacky_expression(*right, c1);
            lemma_lower_expression(*right, c1, s1);
            let s2 = run(i2, s1)->Some_0;
            let a = c_eval(*left, s)->Some_0;
            let b = c_eval(*right, s)->Some_0;
            let r = c_binary(bop, a, b)->Some_0;
            let d = numbered("binary_op"@, ""@, c2.binary as nat);
            let x = InstructionView::BinaryOp {
                op: bop,
                val1: v1,
                val2: v2,
                dst: ValueView::Var(d),
            };
            let c3 = TackyCounters { binary: bump(c2.binary), ..c2 };
            assert(spec_tacky_expression(e, c) == (i1 + i2 + seq![x], ValueView::Var(d), c3));
            lemma_run_concat(i1, i2, s);
            lemma_run_concat(i1 + i2, seq![x], s);
            lemma_run_single(x, s2);
            // The left operand's value survives the right operand's lowering.
            match v1 {
                ValueView::Var(n1) => {
                    lemma_fresh_ranges(n1, c, c1, c2);
                    if !is_temporary(n1) {
                        if fresh_between(n1, c1, c2) {
                            lemma_fresh_is_temporary(n1, c1, c2);
                        }
                    }
                    assert(!fresh_between(n1, c1, c2));
                    assert(s2.contains_key(n1) == s1.contains_key(n1));
                },
                ValueView::Constant(_) => {},
            }
            assert(value_of(v1, s2) == Some(a));
            assert(machine_binary(bop, a, b) == Some(r));
            let s3 = s2.insert(d, r);
            assert(run(spec_tacky_expression(e, c).0, s) == Some(s3));
            assert(fresh_between(d, c, c3)) by {
                assert(c.binary <= c2.binary < c3.binary && d == numbered(
                    "binary_op"@,
                    ""@,
                    c2.binary as nat,
                ));
            }
            assert forall|n: Seq<char>| !fresh_between(n, c, c3) implies (
            (#[trigger] s3.contains_key(n)) == s.contains_key(n) && (s.contains_key(n) ==> s3[n]
                == s[n])) by {
                lemma_fresh_ranges(n, c, c1, c3);
                lemma_fresh_ranges(n, c1, c2, c3);
                assert(!fresh_between(n, c, c1));
                assert(!fresh_between(n, c1, c2));
                assert(n != d);
                assert(s1.contains_key(n) == s.contains_key(n));
                assert(s2.contains_key(n) == s1.contains_key(n));
                assert(s3.contains_key(n) == s2.contains_key(n));
                if s.contains_key(n) {
                    assert(s1[n] == s[n]);
                    assert(s2[n] == s1[n]);
                    assert(s3[n] == s2[n]);
                }
            }
            lemma_fresh_ranges(d, c, c2, c3);
        },
        _ => {},
    }
}

proof fn lemma_lower_factor(f: FactorView, c: TackyCounters, s: Store)
    requires
        c_eval_factor(f, s) is Some,
        no_temporaries_factor(f),
        c.unary + factor_size(f) <= usize::MAX,
        c.binary + factor_size(f) <= usize::MAX,
    ensures
        lowers_correctly(spec_tacky_factor(f, c), c_eval_factor(f, s)->Some_0, s, c, factor_size(f)),
    decreases f, 2nat,
{
    match f {
        FactorView::UnaryOp { op, fac } => {
            let (i, v, c1) = spec_tacky_factor(*fac, c);
            lemma_lower_factor(*fac, c, s);
            let s1 = run(i, s)->Some_0;
            let a = c_eval_factor(*fac, s)->Some_0;
            let r = c_unary(op, a)->Some_0;
            let d = numbered("unary_op"@, ""@, c1.unary as nat);
            let x = InstructionView::UnaryOp { op, src: v, dst: ValueView::Var(d) };
            let c2 = TackyCounters { unary: bump(c1.unary), ..c1 };
            assert(op != UnaryOperator::PrefixIncrement && op != UnaryOperator::PrefixDecrement);
            assert(spec_tacky_factor(f, c) == (i.push(x), ValueView::Var(d), c2));
            assert(i.push(x) =~= i + seq![x]);
            lemma_run_concat(i, seq![x], s);
            lemma_run_single(x, s1);
            assert(machine_unary(op, a) == Some(r));
            let s2 = s1.insert(d, r);
            assert(run(i.push(x), s) == Some(s2));
            assert(fresh_between(d, c, c2)) by {
                assert(c.unary <= c1.unary < c2.unary && d == numbered(
                    "unary_op"@,
                    ""@,
                    c1.unary as nat,
                ));
            }
            assert forall|n: Seq<char>| !fresh_between(n, c, c2) implies (
            (#[trigger] s2.contains_key(n)) == s.contains_key(n) && (s.contains_key(n) ==> s2[n]
                == s[n])) by {
                lemma_fresh_ranges(n, c, c1, c2);
                assert(!fresh_between(n, c, c1));
                assert(n != d);
                assert(s1.contains_key(n) == s.contains_key(n));
                assert(s2.contains_key(n) == s1.contains_key(n));
                if s.contains_key(n) {
                    assert(s1[n] == s[n]);
                    assert(s2[n] == s1[n]);
                }
            }
        },
        FactorView::Postfix(p) => {
            lemma_lower_primary(p.primary, c, s);
        },
        FactorView::Cast { ty, fac } => {
            lemma_lower_factor(*fac, c, s);
        },
    }
}

proof fn lemma_lower_primary(p: PrimaryView, c: TackyCounters, s: Store)
    requires
        c_eval_primary(p, s) is Some,
        no_temporaries_primary(p),
        c.unary + primary_size(p) <= usize::MAX,
        c.binary + primary_size(p) <= usize::MAX,
    ensures
        lowers_correctly(spec_tacky_primary(p, c), c_eval_primary(p, s)->Some_0, s, c, primary_size(p)),
    decreases p, 1nat,
{
    assert(run(Seq::<InstructionView>::empty(), s) == Some(s));
    match p {
        PrimaryView::Constant(k) => {
            match k {
                Constant::Int(v) => {
                    lemma_int_bits(v);
                },
                _ => {},
            }
        },
        PrimaryView::Var(id) => {},
        PrimaryView::Paren(e) => {
            lemma_lower_expression(*e, c, s);
        },
        _ => {},
    }
}

/// Lowering keeps the meaning of straight-line arithmetic: for an
/// expression whose C value in store `s` is defined, whose variables are not
/// named like temporaries, and whose temporaries the counters can number,
/// running the lowered instructions from `s` ends, the operand lowering
/// names holds the C value, and nothing but the temporaries that lowering
/// took is changed.
pub proof fn law_lowering_computes_expression_values(
    e: TypedExpressionView,
    c: TackyCounters,
    s: Store,
)
    requires
        c_eval(e, s) is Some,
        no_temporaries(e),
        c.unary + expr_size(e) <= usize::MAX,
        c.binary + expr_size(e) <= usize::MAX,
    ensures
        lowers_correctly(spec_tacky_expression(e, c), c_eval(e, s)->Some_0, s, c, expr_size(e)),
{
    lemma_lower_expression(e, c, s);
}

} // verus!
