//! Semantic analysis: the error type shared by its passes, constant
//! evaluation of case labels and initialisers, and the pipeline of passes.
use vstd::prelude::*;

use crate::parser::{
    DeclarationView, Expression, ExpressionView, Factor, FactorView, Primary, PrimaryView, Program,
};
use crate::resolve_identifiers::{resolve_identifiers_numbered, spec_resolve_identifiers_from};
use crate::resolve_labels::{resolve_labels_numbered, spec_labels_declarations};
use crate::resolve_loops::{
    law_resolved_loops_are_labelled, resolve_loops_numbered, spec_resolve_loops_from, LoopCounters,
};
use crate::resolve_lvalues::{resolve_lvalues, spec_resolve_lvalues};
use crate::resolve_types::{
    resolve_types, spec_resolve_types, symbols_wf, SymbolMap, SymbolTable, TypesOutcome,
};
use crate::resolve_labels::gotos_resolved;
use crate::semantic_laws::{
    law_analysed_gotos_stay_in_their_function, law_analysis_meets_no_undeclared_name,
};
use crate::tacky::loops_resolved_program;
use crate::types::Constant;

verus! {

#[derive(Debug)]
pub enum SemanticError {
    IdentifierAlreadyDeclared(String),
    IdentifierNotDeclared(String),
    InvalidLvalue(Expression),
    LabelNotDeclared(String),
    DuplicateLabel(String),
    BreakNotWithinLoopOrSwitch,
    ContinueNotWithinLoop,
    DefaultNotWithinSwitch,
    CaseNotWithinSwitch,
    NonConstantExpression,
    DuplicateCaseValue(Constant),
    DuplicateDefaultLabel,
    FunctionBodyInDeclaration,
    IncompatibleFunctionDeclaration(String),
    FunctionDefinedMoreThanOnce(String),
    TypeMismatch(String),
    ConflictingLocalDeclarations(String),
    InvalidStorageClass(String),
    StaticAfterNonStatic(String),
    ConflictingVariableLinkage(String),
    ConflictingFileScopeDeclarations(String),
    InitOnLocalExtern(String),
}

pub enum SemanticErrorView {
    IdentifierAlreadyDeclared(Seq<char>),
    IdentifierNotDeclared(Seq<char>),
    InvalidLvalue(ExpressionView),
    LabelNotDeclared(Seq<char>),
    DuplicateLabel(Seq<char>),
    BreakNotWithinLoopOrSwitch,
    ContinueNotWithinLoop,
    DefaultNotWithinSwitch,
    CaseNotWithinSwitch,
    NonConstantExpression,
    DuplicateCaseValue(Constant),
    DuplicateDefaultLabel,
    FunctionBodyInDeclaration,
    IncompatibleFunctionDeclaration(Seq<char>),
    FunctionDefinedMoreThanOnce(Seq<char>),
    TypeMismatch(Seq<char>),
    ConflictingLocalDeclarations(Seq<char>),
    InvalidStorageClass(Seq<char>),
    StaticAfterNonStatic(Seq<char>),
    ConflictingVariableLinkage(Seq<char>),
    ConflictingFileScopeDeclarations(Seq<char>),
    InitOnLocalExtern(Seq<char>),
}

impl View for SemanticError {
    type V = SemanticErrorView;

    open spec fn view(&self) -> SemanticErrorView {
        match self {
            SemanticError::IdentifierAlreadyDeclared(s) => SemanticErrorView::IdentifierAlreadyDeclared(s@),
            SemanticError::IdentifierNotDeclared(s) => SemanticErrorView::IdentifierNotDeclared(s@),
            SemanticError::InvalidLvalue(e) => SemanticErrorView::InvalidLvalue(e@),
            SemanticError::LabelNotDeclared(s) => SemanticErrorView::LabelNotDeclared(s@),
            SemanticError::DuplicateLabel(s) => SemanticErrorView::DuplicateLabel(s@),
            SemanticError::BreakNotWithinLoopOrSwitch => SemanticErrorView::BreakNotWithinLoopOrSwitch,
            SemanticError::ContinueNotWithinLoop => SemanticErrorView::ContinueNotWithinLoop,
            SemanticError::DefaultNotWithinSwitch => SemanticErrorView::DefaultNotWithinSwitch,
            SemanticError::CaseNotWithinSwitch => SemanticErrorView::CaseNotWithinSwitch,
            SemanticError::NonConstantExpression => SemanticErrorView::NonConstantExpression,
            SemanticError::DuplicateCaseValue(c) => SemanticErrorView::DuplicateCaseValue(*c),
            SemanticError::DuplicateDefaultLabel => SemanticErrorView::DuplicateDefaultLabel,
            SemanticError::FunctionBodyInDeclaration => SemanticErrorView::FunctionBodyInDeclaration,
            SemanticError::IncompatibleFunctionDeclaration(s) => SemanticErrorView::IncompatibleFunctionDeclaration(s@),
            SemanticError::FunctionDefinedMoreThanOnce(s) => SemanticErrorView::FunctionDefinedMoreThanOnce(s@),
            SemanticError::TypeMismatch(s) => SemanticErrorView::TypeMismatch(s@),
            SemanticError::ConflictingLocalDeclarations(s) => SemanticErrorView::ConflictingLocalDeclarations(s@),
            SemanticError::InvalidStorageClass(s) => SemanticErrorView::InvalidStorageClass(s@),
            SemanticError::StaticAfterNonStatic(s) => SemanticErrorView::StaticAfterNonStatic(s@),
            SemanticError::ConflictingVariableLinkage(s) => SemanticErrorView::ConflictingVariableLinkage(s@),
            SemanticError::ConflictingFileScopeDeclarations(s) => SemanticErrorView::ConflictingFileScopeDeclarations(s@),
            SemanticError::InitOnLocalExtern(s) => SemanticErrorView::InitOnLocalExtern(s@),
        }
    }
}

/// `r` is what `expected` says: the same value, or the same error.
pub open spec fn semantic_outcome<T: View>(
    r: Result<T, SemanticError>,
    expected: Result<T::V, SemanticErrorView>,
) -> bool {
    match expected {
        Ok(v) => r matches Ok(x) && x@ == v,
        Err(e) => r matches Err(x) && x@ == e,
    }
}

/// The value of an expression that is a constant, possibly in parentheses,
/// with no operator applied to it.
pub open spec fn spec_expression_value(e: ExpressionView) -> Option<Constant>
    decreases e,
{
    match e {
        ExpressionView::Factor(FactorView::Postfix(p)) => {
            if p.postfix.len() == 0 {
                spec_primary_value(p.primary)
            } else {
                None
            }
        },
        _ => None,
    }
}

pub open spec fn spec_primary_value(p: PrimaryView) -> Option<Constant>
    decreases p,
{
    match p {
        PrimaryView::Constant(v) => Some(v),
        PrimaryView::Paren(inner) => spec_expression_value(inner.expression),
        _ => None,
    }
}

pub fn get_expression_value(expression: &Expression) -> (r: Option<Constant>)
    ensures
        r == spec_expression_value(expression@),
    decreases expression, 1nat,
{
    if let Expression::Factor(Factor::Postfix(p)) = expression {
        assert(expression@ == ExpressionView::Factor(FactorView::Postfix(p@)));
        if p.postfix.len() == 0 {
            get_primary_value(&p.primary)
        } else {
            None
        }
    } else {
        assert(!(expression@ is Factor) || !(expression@->Factor_0 is Postfix));
        None
    }
}

pub fn get_primary_value(primary: &Primary) -> (r: Option<Constant>)
    ensures
        r == spec_primary_value(primary@),
    decreases primary, 0nat,
{
    match primary {
        Primary::Constant(value) => Some(*value),
        Primary::Paren(expression) => get_expression_value(&expression.expression),
        _ => None,
    }
}


/// The counters that number fresh names across programs: variables,
/// labels, and loops and switches.
pub struct NameCounters {
    pub variables: usize,
    pub labels: usize,
    pub loops: LoopCounters,
}

impl NameCounters {
    /// Counters that start every numbering at 0.
    pub fn new() -> (r: NameCounters)
        ensures
            r == zero_names(),
    {
        NameCounters { variables: 0, labels: 0, loops: LoopCounters { loops: 0, switches: 0 } }
    }
}

pub open spec fn zero_names() -> NameCounters {
    NameCounters { variables: 0, labels: 0, loops: LoopCounters { loops: 0, switches: 0 } }
}

/// How the whole of semantic analysis ends: with the resolved program, its
/// symbol table and the counters after the names it took; with the first
/// error; or at a use of a name that the symbol table does not hold.
pub enum ProgramOutcome {
    Resolved(Seq<DeclarationView>, SymbolMap, NameCounters),
    Failed(SemanticErrorView),
    Undeclared,
}

/// The passes in order: identifiers, lvalues, labels, loops, types, with
/// fresh names numbered from the counters `n` on.
pub open spec fn spec_resolve_program_from(p: Seq<DeclarationView>, n: NameCounters) -> ProgramOutcome {
    match spec_resolve_identifiers_from(p, n.variables) {
        Err(e) => ProgramOutcome::Failed(e),
        Ok((p1, v)) => match spec_resolve_lvalues(p1) {
            Err(e) => ProgramOutcome::Failed(e),
            Ok(p2) => match spec_labels_declarations(p2, n.labels) {
                Err(e) => ProgramOutcome::Failed(e),
                Ok((p3, l)) => match spec_resolve_loops_from(p3, n.loops) {
                    Err(e) => ProgramOutcome::Failed(e),
                    Ok((p4, lc)) => match spec_resolve_types(p4) {
                        TypesOutcome::Checked(t) => ProgramOutcome::Resolved(
                            p4,
                            t,
                            NameCounters { variables: v, labels: l, loops: lc },
                        ),
                        TypesOutcome::Failed(e) => ProgramOutcome::Failed(e),
                        TypesOutcome::Undeclared => ProgramOutcome::Undeclared,
                    },
                },
            },
        },
    }
}

/// The passes in order, with every numbering starting at 0.
pub open spec fn spec_resolve_program(p: Seq<DeclarationView>) -> ProgramOutcome {
    spec_resolve_program_from(p, zero_names())
}

/// What semantic analysis owes, given what its specification says.
pub open spec fn analysed(
    r: Result<(Program, SymbolTable), SemanticError>,
    expected: ProgramOutcome,
) -> bool {
    match expected {
        ProgramOutcome::Resolved(q, t, _) => r matches Ok((p, table)) && p@ == q && table@ == t
            && loops_resolved_program(q) && symbols_wf(t) && forall|i: int|
            0 <= i < q.len() ==> gotos_resolved(#[trigger] q[i]),
        ProgramOutcome::Failed(e) => r matches Err(x) && x@ == e,
        ProgramOutcome::Undeclared => false,
    }
}

/// Runs every pass of semantic analysis in turn and stops at the first
/// error; fresh names are numbered from 0.
pub fn resolve_program(program: Program) -> (r: Result<(Program, SymbolTable), SemanticError>)
    ensures
        analysed(r, spec_resolve_program(program@)),
{
    let mut n = NameCounters::new();
    resolve_program_numbered(program, &mut n)
}

/// Semantic analysis with fresh names numbered from the counters `n` on; on
/// success the counters are left after the last names taken, for the next
/// program.
pub fn resolve_program_numbered(program: Program, n: &mut NameCounters) -> (r: Result<
    (Program, SymbolTable),
    SemanticError,
>)
    ensures
        analysed(r, spec_resolve_program_from(program@, *old(n))),
        spec_resolve_program_from(program@, *old(n)) matches ProgramOutcome::Resolved(_, _, n2)
            ==> *final(n) == n2,
{
    let ghost p0 = program@;
    let ghost n0 = *n;
    let p1 = match resolve_identifiers_numbered(program, &mut n.variables) {
        Ok(p) => p,
        Err(e) => {
            return Err(e);
        },
    };
    let p2 = match resolve_lvalues(p1) {
        Ok(p) => p,
        Err(e) => {
            return Err(e);
        },
    };
    let p3 = match resolve_labels_numbered(p2, &mut n.labels) {
        Ok(p) => p,
        Err(e) => {
            return Err(e);
        },
    };
    let p4 = match resolve_loops_numbered(p3, &mut n.loops) {
        Ok(p) => p,
        Err(e) => {
            return Err(e);
        },
    };
    proof {
        law_resolved_loops_are_labelled(p3@, n0.loops);
        law_analysis_meets_no_undeclared_name(p0, n0);
        if spec_resolve_program_from(p0, n0) is Resolved {
            law_analysed_gotos_stay_in_their_function(p0, n0);
        }
    }
    resolve_types(p4)
}

} // verus!
