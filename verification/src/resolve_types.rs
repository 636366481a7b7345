//! Type checking and the symbol table: every file-scope and block-scope
//! declaration is recorded with its type and linkage, conflicting
//! declarations are refused, and every use of a name is checked against
//! what the table records for it.
use vstd::prelude::*;

use crate::name_map::NameMap;
use crate::names::{decimal, push_decimal};
use crate::parser::{
    lemma_block_items_view_index,
    lemma_declarations_view_index, lemma_typed_expressions_view_index, strings_view,
    ArgumentList, Block, BlockItem, BlockItemView, Declaration, DeclarationView, Expression,
    ExpressionView, Factor, FactorView, ForInit, ForInitView, FuncDeclaration,
    FuncDeclarationView, Primary, PrimaryView, Program, Statement, StatementView,
    StorageClass, TypedExpression, TypedExpressionView, VariableDeclaration,
    VariableDeclarationView,
};
use crate::semantic_analysis::{
    get_expression_value, spec_expression_value, SemanticError, SemanticErrorView,
};
use crate::types::Constant;

verus! {

#[derive(Debug, Clone, Copy, PartialEq, Eq, Structural)]
pub enum Type {
    Int,
    Function { parameters: u32 },
}

#[derive(Debug, Clone, Copy, PartialEq, Eq, Structural)]
pub enum IdentifierAttribute {
    Function { defined: bool, global: bool },
    Static { init: InitialValue, global: bool },
    Local,
}

#[derive(Debug, Clone, Copy, PartialEq, Eq, Structural)]
pub enum InitialValue {
    Tentative,
    Initial(i32),
    NoInitialiser,
}

impl View for Type {
    type V = Type;

    open spec fn view(&self) -> Type {
        *self
    }
}

impl View for IdentifierAttribute {
    type V = IdentifierAttribute;

    open spec fn view(&self) -> IdentifierAttribute {
        *self
    }
}

/// What the table records of each name.
pub type SymbolMap = Map<Seq<char>, (Type, IdentifierAttribute)>;

/// A function's entry has a function type and function attributes; a
/// variable's entry has neither.
pub open spec fn symbols_wf(t: SymbolMap) -> bool {
    forall|k: Seq<char>| #[trigger]
        t.contains_key(k) ==> ((t[k].0 is Function) <==> (t[k].1 is Function))
}

#[derive(Debug)]
pub struct SymbolTable {
    pub symbols: NameMap<(Type, IdentifierAttribute)>,
}

impl View for SymbolTable {
    type V = SymbolMap;

    open spec fn view(&self) -> SymbolMap {
        self.symbols@
    }
}

/// The value of a constant as the `int` it initialises: a `long` keeps its
/// low 32 bits.
pub open spec fn constant_as_int(c: Constant) -> i32 {
    match c {
        Constant::Int(v) => v,
        Constant::Long(v) => v as i32,
    }
}

fn constant_to_int(c: Constant) -> (r: i32)
    ensures
        r == constant_as_int(c),
{
    match c {
        Constant::Int(v) => v,
        Constant::Long(v) => v as i32,
    }
}

pub open spec fn redeclared_message(id: Seq<char>) -> Seq<char> {
    "Function "@ + id + " redeclared as variable"@
}

pub open spec fn expected_variable_message(id: Seq<char>) -> Seq<char> {
    "Expected variable, found function: "@ + id
}

pub open spec fn expected_function_message(id: Seq<char>) -> Seq<char> {
    "Expected function, found variable: "@ + id
}

pub open spec fn arity_message(id: Seq<char>, parameters: u32, arguments: u32) -> Seq<char> {
    "Function "@ + id + " expects "@ + decimal(parameters as nat) + " arguments, but "@ + decimal(
        arguments as nat,
    ) + " were provided"@
}

pub open spec fn for_storage_message() -> Seq<char> {
    "Storage class in for loop initialiser"@
}

/// A block-scope variable declaration, with the expression of its
/// initialiser if it has one.
pub open spec fn spec_block_scope_variable(
    t: SymbolMap,
    id: Seq<char>,
    init: Option<ExpressionView>,
    sc: Option<StorageClass>,
) -> Result<SymbolMap, SemanticErrorView> {
    match sc {
        Some(StorageClass::Extern) => {
            if init is Some {
                Err(SemanticErrorView::InitOnLocalExtern(id))
            } else if t.contains_key(id) {
                if t[id].0 != Type::Int {
                    Err(SemanticErrorView::TypeMismatch(redeclared_message(id)))
                } else {
                    Ok(t)
                }
            } else {
                Ok(
                    t.insert(
                        id,
                        (
                            Type::Int,
                            IdentifierAttribute::Static {
                                init: InitialValue::NoInitialiser,
                                global: true,
                            },
                        ),
                    ),
                )
            }
        },
        Some(StorageClass::Static) => {
            let initial = match init {
                None => Some(InitialValue::Initial(0)),
                Some(e) => match spec_expression_value(e) {
                    Some(c) => Some(InitialValue::Initial(constant_as_int(c))),
                    None => None,
                },
            };
            match initial {
                Some(i) => Ok(
                    t.insert(id, (Type::Int, IdentifierAttribute::Static { init: i, global: false })),
                ),
                None => Err(SemanticErrorView::NonConstantExpression),
            }
        },
        None => Ok(t.insert(id, (Type::Int, IdentifierAttribute::Local))),
    }
}

/// A file-scope variable declaration: tentative and extern declarations
/// merge with earlier ones; two initialisers, or a change of linkage, are
/// refused.
pub open spec fn spec_file_scope_variable(
    t: SymbolMap,
    id: Seq<char>,
    init: Option<ExpressionView>,
    sc: Option<StorageClass>,
) -> Result<SymbolMap, SemanticErrorView> {
    let initial = match init {
        Some(e) => match spec_expression_value(e) {
            Some(c) => Some(InitialValue::Initial(constant_as_int(c))),
            None => None,
        },
        None => if sc == Some(StorageClass::Extern) {
            Some(InitialValue::NoInitialiser)
        } else {
            Some(InitialValue::Tentative)
        },
    };
    let global = sc != Some(StorageClass::Static);
    match initial {
        None => Err(SemanticErrorView::NonConstantExpression),
        Some(iv) => {
            if t.contains_key(id) {
                if t[id].0 != Type::Int {
                    Err(SemanticErrorView::TypeMismatch(redeclared_message(id)))
                } else {
                    let (old_init, old_global) = match t[id].1 {
                        IdentifierAttribute::Static { init, global } => (Some(init), global),
                        _ => (None, false),
                    };
                    if sc != Some(StorageClass::Extern) && global != old_global {
                        Err(SemanticErrorView::ConflictingVariableLinkage(id))
                    } else {
                        let g = if sc == Some(StorageClass::Extern) {
                            old_global
                        } else {
                            global
                        };
                        if old_init matches Some(InitialValue::Initial(_)) {
                            if iv is Initial {
                                Err(SemanticErrorView::ConflictingFileScopeDeclarations(id))
                            } else {
                                Ok(
                                    t.insert(
                                        id,
                                        (
                                            Type::Int,
                                            IdentifierAttribute::Static {
                                                init: old_init->Some_0,
                                                global: g,
                                            },
                                        ),
                                    ),
                                )
                            }
                        } else {
                            let v = if !(iv is Initial) && old_init == Some(
                                InitialValue::Tentative,
                            ) {
                                InitialValue::Tentative
                            } else {
                                iv
                            };
                            Ok(
                                t.insert(
                                    id,
                                    (Type::Int, IdentifierAttribute::Static { init: v, global: g }),
                                ),
                            )
                        }
                    }
                }
            } else {
                Ok(
                    t.insert(
                        id,
                        (Type::Int, IdentifierAttribute::Static { init: iv, global: global }),
                    ),
                )
            }
        },
    }
}

/// A function declaration: the parameter count must agree with earlier
/// declarations, a body may be given once, and a function first declared
/// with external linkage cannot become static.
pub open spec fn spec_function_declared(
    t: SymbolMap,
    id: Seq<char>,
    parameters: u32,
    has_body: bool,
    sc: Option<StorageClass>,
) -> Result<SymbolMap, SemanticErrorView> {
    let ty = Type::Function { parameters };
    if t.contains_key(id) {
        let (prev_ty, prev_attr) = t[id];
        let (prev_defined, prev_global) = match prev_attr {
            IdentifierAttribute::Function { defined, global } => (defined, global),
            _ => (false, false),
        };
        if prev_ty != ty {
            Err(SemanticErrorView::IncompatibleFunctionDeclaration(id))
        } else if prev_defined && has_body {
            Err(SemanticErrorView::FunctionDefinedMoreThanOnce(id))
        } else if prev_global && sc == Some(StorageClass::Static) {
            Err(SemanticErrorView::StaticAfterNonStatic(id))
        } else {
            Ok(
                t.insert(
                    id,
                    (
                        ty,
                        IdentifierAttribute::Function {
                            defined: prev_defined || has_body,
                            global: prev_global,
                        },
                    ),
                ),
            )
        }
    } else {
        Ok(
            t.insert(
                id,
                (
                    ty,
                    IdentifierAttribute::Function {
                        defined: has_body,
                        global: sc != Some(StorageClass::Static),
                    },
                ),
            ),
        )
    }
}

/// A use of `id` as a variable; `id` must be in the table.
pub open spec fn spec_lookup_variable(t: SymbolMap, id: Seq<char>) -> Result<
    Seq<char>,
    SemanticErrorView,
> {
    if t[id].0 == Type::Int {
        Ok(id)
    } else {
        Err(SemanticErrorView::TypeMismatch(expected_variable_message(id)))
    }
}

/// A call of `id` with `arguments` arguments; `id` must be in the table.
pub open spec fn spec_lookup_function(t: SymbolMap, id: Seq<char>, arguments: u32) -> Result<
    Seq<char>,
    SemanticErrorView,
> {
    match t[id].0 {
        Type::Function { parameters } => if parameters != arguments {
            Err(SemanticErrorView::TypeMismatch(arity_message(id, parameters, arguments)))
        } else {
            Ok(id)
        },
        _ => Err(SemanticErrorView::TypeMismatch(expected_function_message(id))),
    }
}


pub open spec fn init_view(init: Option<&TypedExpression>) -> Option<ExpressionView> {
    match init {
        Some(e) => Some(e.expression@),
        None => None,
    }
}

fn concat2(a: &str, b: &str) -> (r: String)
    ensures
        r@ == a@ + b@,
{
    let mut s = String::from_str(a);
    s.append(b);
    s
}

fn concat3(a: &str, b: &str, c: &str) -> (r: String)
    ensures
        r@ == a@ + b@ + c@,
{
    let mut s = String::from_str(a);
    s.append(b);
    s.append(c);
    s
}

fn arity_error(id: &String, parameters: u32, arguments: u32) -> (r: String)
    ensures
        r@ == arity_message(id@, parameters, arguments),
{
    let mut s = concat3("Function ", id.as_str(), " expects ");
    push_decimal(&mut s, parameters as usize);
    s.append(" arguments, but ");
    push_decimal(&mut s, arguments as usize);
    s.append(" were provided");
    s
}

/// The initial value that a constant initialiser, or its absence, gives; no
/// value for an initialiser that is not a constant.
fn constant_initial_value(init: Option<&TypedExpression>, absent: InitialValue) -> (r: Option<
    InitialValue,
>)
    ensures
        r == match init_view(init) {
            None => Some(absent),
            Some(e) => match spec_expression_value(e) {
                Some(c) => Some(InitialValue::Initial(constant_as_int(c))),
                None => None,
            },
        },
{
    match init {
        None => Some(absent),
        Some(e) => match get_expression_value(&e.expression) {
            Some(c) => Some(InitialValue::Initial(constant_to_int(c))),
            None => None,
        },
    }
}

impl SymbolTable {
    pub fn new() -> (r: SymbolTable)
        ensures
            r@ == SymbolMap::empty(),
    {
        SymbolTable { symbols: NameMap::new() }
    }

    pub fn has_symbol(&self, identifier: &str) -> (r: bool)
        ensures
            r == self@.contains_key(identifier@),
    {
        let id = identifier.to_owned();
        self.symbols.contains_key(&id)
    }

    /// Whether the function `identifier` has external linkage.
    pub fn is_global_function(&self, identifier: &str) -> (r: bool)
        requires
            self@.contains_key(identifier@),
            self@[identifier@].1 is Function,
        ensures
            r == self@[identifier@].1->Function_global,
    {
        let id = identifier.to_owned();
        match self.symbols.get(&id) {
            Some((_, IdentifierAttribute::Function { global, .. })) => *global,
            _ => false,
        }
    }

    pub fn is_static_var(&self, identifier: &str) -> (r: bool)
        ensures
            r == (self@.contains_key(identifier@) && self@[identifier@].1 is Static),
    {
        let id = identifier.to_owned();
        match self.symbols.get(&id) {
            Some((_, IdentifierAttribute::Static { .. })) => true,
            _ => false,
        }
    }

    fn block_scope_variable_declared(
        &mut self,
        identifier: String,
        init: Option<&TypedExpression>,
        storage_class: Option<StorageClass>,
    ) -> (r: Result<String, SemanticError>)
        requires
            symbols_wf(old(self)@),
        ensures
            symbols_wf(final(self)@),
            match spec_block_scope_variable(old(self)@, identifier@, init_view(init), storage_class) {
                Ok(t) => r matches Ok(x) && x@ == identifier@ && final(self)@ == t,
                Err(e) => r matches Err(x) && x@ == e,
            },
            r is Err ==> final(self)@ == old(self)@,
    {
        match storage_class {
            Some(StorageClass::Extern) => {
                if init.is_some() {
                    return Err(SemanticError::InitOnLocalExtern(identifier));
                }
                match self.symbols.get(&identifier) {
                    Some(prev) => {
                        if prev.0 != Type::Int {
                            return Err(
                                SemanticError::TypeMismatch(
                                    concat3("Function ", identifier.as_str(), " redeclared as variable"),
                                ),
                            );
                        }
                    },
                    None => {
                        self.symbols.insert(
                            identifier.clone(),
                            (
                                Type::Int,
                                IdentifierAttribute::Static {
                                    init: InitialValue::NoInitialiser,
                                    global: true,
                                },
                            ),
                        );
                    },
                }
            },
            Some(StorageClass::Static) => {
                match constant_initial_value(init, InitialValue::Initial(0)) {
                    Some(initial_value) => {
                        self.symbols.insert(
                            identifier.clone(),
                            (
                                Type::Int,
                                IdentifierAttribute::Static { init: initial_value, global: false },
                            ),
                        );
                    },
                    None => {
                        return Err(SemanticError::NonConstantExpression);
                    },
                }
            },
            None => {
                self.symbols.insert(identifier.clone(), (Type::Int, IdentifierAttribute::Local));
            },
        }
        Ok(identifier)
    }

    fn file_scope_variable_declared(
        &mut self,
        identifier: String,
        init: Option<&TypedExpression>,
        storage_class: Option<StorageClass>,
    ) -> (r: Result<String, SemanticError>)
        requires
            symbols_wf(old(self)@),
        ensures
            symbols_wf(final(self)@),
            match spec_file_scope_variable(old(self)@, identifier@, init_view(init), storage_class) {
                Ok(t) => r matches Ok(x) && x@ == identifier@ && final(self)@ == t,
                Err(e) => r matches Err(x) && x@ == e,
            },
            r is Err ==> final(self)@ == old(self)@,
    {
        let is_extern = storage_class == Some(StorageClass::Extern);
        let absent = if is_extern {
            InitialValue::NoInitialiser
        } else {
            InitialValue::Tentative
        };
        let mut initial_value = match constant_initial_value(init, absent) {
            Some(v) => v,
            None => {
                return Err(SemanticError::NonConstantExpression);
            },
        };
        let mut global = storage_class != Some(StorageClass::Static);
        match self.symbols.get(&identifier) {
            Some(prev) => {
                let (prev_type, prev_attr) = *prev;
                if prev_type != Type::Int {
                    return Err(
                        SemanticError::TypeMismatch(
                            concat3("Function ", identifier.as_str(), " redeclared as variable"),
                        ),
                    );
                }
                let (old_init, old_global) = match prev_attr {
                    IdentifierAttribute::Static { init, global } => (Some(init), global),
                    _ => (None, false),
                };
                if is_extern {
                    global = old_global;
                } else if global != old_global {
                    return Err(SemanticError::ConflictingVariableLinkage(identifier));
                }
                match old_init {
                    Some(InitialValue::Initial(v)) => {
                        match initial_value {
                            InitialValue::Initial(_) => {
                                return Err(
                                    SemanticError::ConflictingFileScopeDeclarations(identifier),
                                );
                            },
                            _ => {
                                initial_value = InitialValue::Initial(v);
                            },
                        }
                    },
                    _ => {
                        let is_initial = match initial_value {
                            InitialValue::Initial(_) => true,
                            _ => false,
                        };
                        if !is_initial && old_init == Some(InitialValue::Tentative) {
                            initial_value = InitialValue::Tentative;
                        }
                    },
                }
            },
            None => {},
        }
        self.symbols.insert(
            identifier.clone(),
            (Type::Int, IdentifierAttribute::Static { init: initial_value, global }),
        );
        Ok(identifier)
    }

    fn function_declared(
        &mut self,
        identifier: String,
        parameters: u32,
        has_body: bool,
        storage_class: Option<StorageClass>,
    ) -> (r: Result<String, SemanticError>)
        requires
            symbols_wf(old(self)@),
        ensures
            symbols_wf(final(self)@),
            match spec_function_declared(old(self)@, identifier@, parameters, has_body, storage_class) {
                Ok(t) => r matches Ok(x) && x@ == identifier@ && final(self)@ == t,
                Err(e) => r matches Err(x) && x@ == e,
            },
            r is Err ==> final(self)@ == old(self)@,
    {
        let ty = Type::Function { parameters };
        let mut global = storage_class != Some(StorageClass::Static);
        let mut already_defined = false;
        match self.symbols.get(&identifier) {
            Some(prev) => {
                let (prev_type, prev_attr) = *prev;
                if prev_type != ty {
                    return Err(SemanticError::IncompatibleFunctionDeclaration(identifier));
                }
                let (prev_defined, prev_global) = match prev_attr {
                    IdentifierAttribute::Function { defined, global } => (defined, global),
                    _ => (false, false),
                };
                already_defined = prev_defined;
                if already_defined && has_body {
                    return Err(SemanticError::FunctionDefinedMoreThanOnce(identifier));
                }
                if prev_global && storage_class == Some(StorageClass::Static) {
                    return Err(SemanticError::StaticAfterNonStatic(identifier));
                }
                global = prev_global;
            },
            None => {},
        }
        self.symbols.insert(
            identifier.clone(),
            (ty, IdentifierAttribute::Function { defined: already_defined || has_body, global }),
        );
        Ok(identifier)
    }

    fn lookup_variable(&self, identifier: String) -> (r: Result<String, SemanticError>)
        requires
            self@.contains_key(identifier@),
        ensures
            match spec_lookup_variable(self@, identifier@) {
                Ok(v) => r matches Ok(x) && x@ == v,
                Err(e) => r matches Err(x) && x@ == e,
            },
    {
        let is_int = match self.symbols.get(&identifier) {
            Some(entry) => entry.0 == Type::Int,
            None => false,
        };
        if is_int {
            Ok(identifier)
        } else {
            Err(
                SemanticError::TypeMismatch(
                    concat2("Expected variable, found function: ", identifier.as_str()),
                ),
            )
        }
    }

    fn lookup_function(&self, identifier: String, arguments: u32) -> (r: Result<
        String,
        SemanticError,
    >)
        requires
            self@.contains_key(identifier@),
        ensures
            match spec_lookup_function(self@, identifier@, arguments) {
                Ok(v) => r matches Ok(x) && x@ == v,
                Err(e) => r matches Err(x) && x@ == e,
            },
    {
        let ty = match self.symbols.get(&identifier) {
            Some(entry) => entry.0,
            None => Type::Int,
        };
        match ty {
            Type::Function { parameters } => {
                if parameters != arguments {
                    Err(SemanticError::TypeMismatch(arity_error(&identifier, parameters, arguments)))
                } else {
                    Ok(identifier)
                }
            },
            _ => Err(
                SemanticError::TypeMismatch(
                    concat2("Expected function, found variable: ", identifier.as_str()),
                ),
            ),
        }
    }
}


/// How checking a part of the program ends: with the table as it leaves it,
/// with an error, or at a use of a name that the table does not hold (which
/// identifier resolution rules out, and on which the pass stops).
pub enum TypesOutcome {
    Checked(SymbolMap),
    Failed(SemanticErrorView),
    Undeclared,
}

pub open spec fn init_expression(init: Option<TypedExpressionView>) -> Option<ExpressionView> {
    match init {
        Some(e) => Some(e.expression),
        None => None,
    }
}

/// Checking `e` against `t`; expressions leave the table as it is.
pub open spec fn spec_types_expression(e: TypedExpressionView, t: SymbolMap) -> TypesOutcome
    decreases e, 3nat,
{
    match e.expression {
        ExpressionView::Factor(f) => spec_types_factor(f, t),
        ExpressionView::BinaryOp { op: _, left, right } => match spec_types_expression(*left, t) {
            TypesOutcome::Checked(t1) => spec_types_expression(*right, t1),
            other => other,
        },
        ExpressionView::Assignment { left, right } => match spec_types_expression(*left, t) {
            TypesOutcome::Checked(t1) => spec_types_expression(*right, t1),
            other => other,
        },
        ExpressionView::Conditional { condition, then_branch, else_branch } =>
            match spec_types_expression(*condition, t) {
            TypesOutcome::Checked(t1) => match spec_types_expression(*then_branch, t1) {
                TypesOutcome::Checked(t2) => spec_types_expression(*else_branch, t2),
                other => other,
            },
            other => other,
        },
    }
}

pub open spec fn spec_types_factor(f: FactorView, t: SymbolMap) -> TypesOutcome
    decreases f, 2nat,
{
    match f {
        FactorView::UnaryOp { op: _, fac } => spec_types_factor(*fac, t),
        FactorView::Postfix(p) => spec_types_primary(p.primary, t),
        FactorView::Cast { ty: _, fac } => spec_types_factor(*fac, t),
    }
}

pub open spec fn spec_types_primary(p: PrimaryView, t: SymbolMap) -> TypesOutcome
    decreases p, 1nat,
{
    match p {
        PrimaryView::Constant(_) => TypesOutcome::Checked(t),
        PrimaryView::Paren(e) => spec_types_expression(*e, t),
        PrimaryView::Var(id) => {
            if !t.contains_key(id) {
                TypesOutcome::Undeclared
            } else {
                match spec_lookup_variable(t, id) {
                    Ok(_) => TypesOutcome::Checked(t),
                    Err(e) => TypesOutcome::Failed(e),
                }
            }
        },
        PrimaryView::FunctionCall(id, args) => {
            if !t.contains_key(id) {
                TypesOutcome::Undeclared
            } else {
                match spec_lookup_function(t, id, args.len() as u32) {
                    Ok(_) => spec_types_arguments(args, t),
                    Err(e) => TypesOutcome::Failed(e),
                }
            }
        },
    }
}

pub open spec fn spec_types_arguments(args: Seq<TypedExpressionView>, t: SymbolMap) -> TypesOutcome
    decreases args, args.len(),
{
    if args.len() == 0 {
        TypesOutcome::Checked(t)
    } else {
        match spec_types_arguments(args.drop_last(), t) {
            TypesOutcome::Checked(t1) => spec_types_expression(args.last(), t1),
            other => other,
        }
    }
}

pub open spec fn spec_types_optional(e: Option<TypedExpressionView>, t: SymbolMap) -> TypesOutcome {
    match e {
        Some(x) => spec_types_expression(x, t),
        None => TypesOutcome::Checked(t),
    }
}

/// A block-scope variable is recorded before its initialiser is checked.
pub open spec fn spec_types_local_variable(v: VariableDeclarationView, t: SymbolMap) -> TypesOutcome {
    match spec_block_scope_variable(t, v.identifier, init_expression(v.initialiser), v.storage_class) {
        Ok(t1) => spec_types_optional(v.initialiser, t1),
        Err(e) => TypesOutcome::Failed(e),
    }
}

/// Parameters are recorded as local variables.
pub open spec fn spec_declare_params(ps: Seq<Seq<char>>, t: SymbolMap) -> SymbolMap
    decreases ps.len(),
{
    if ps.len() == 0 {
        t
    } else {
        spec_declare_params(ps.drop_last(), t).insert(ps.last(), (Type::Int, IdentifierAttribute::Local))
    }
}

pub open spec fn spec_types_function(f: FuncDeclarationView, t: SymbolMap) -> TypesOutcome
    decreases f, 1nat,
{
    match spec_function_declared(
        t,
        f.identifier,
        f.parameters.len() as u32,
        f.body is Some,
        f.storage_class,
    ) {
        Ok(t1) => match f.body {
            Some(b) => spec_types_items(b, spec_declare_params(f.parameters, t1)),
            None => TypesOutcome::Checked(t1),
        },
        Err(e) => TypesOutcome::Failed(e),
    }
}

pub open spec fn spec_types_local_declaration(d: DeclarationView, t: SymbolMap) -> TypesOutcome
    decreases d, 2nat,
{
    match d {
        DeclarationView::Variable(v) => spec_types_local_variable(v, t),
        DeclarationView::Function(f) => spec_types_function(f, t),
    }
}

pub open spec fn spec_types_statement(s: StatementView, t: SymbolMap) -> TypesOutcome
    decreases s, 0nat,
{
    match s {
        StatementView::Return(e) => spec_types_expression(e, t),
        StatementView::Expression(e) => spec_types_expression(e, t),
        StatementView::Labeled(_, body) => spec_types_statement(*body, t),
        StatementView::If { condition, then_branch, else_branch } => match spec_types_expression(
            condition,
            t,
        ) {
            TypesOutcome::Checked(t1) => match spec_types_statement(*then_branch, t1) {
                TypesOutcome::Checked(t2) => match else_branch {
                    Some(e) => spec_types_statement(*e, t2),
                    None => TypesOutcome::Checked(t2),
                },
                other => other,
            },
            other => other,
        },
        StatementView::Case(e, body, _) => match spec_types_expression(e, t) {
            TypesOutcome::Checked(t1) => spec_types_statement(*body, t1),
            other => other,
        },
        StatementView::Default(body, _) => spec_types_statement(*body, t),
        StatementView::While { condition, body, label: _ } => match spec_types_expression(
            condition,
            t,
        ) {
            TypesOutcome::Checked(t1) => spec_types_statement(*body, t1),
            other => other,
        },
        StatementView::DoWhile { body, condition, label: _ } => match spec_types_statement(*body, t) {
            TypesOutcome::Checked(t1) => spec_types_expression(condition, t1),
            other => other,
        },
        StatementView::For { init, condition, post, body, label: _ } => {
            if init matches ForInitView::Declaration(d) && d.storage_class is Some {
                TypesOutcome::Failed(SemanticErrorView::InvalidStorageClass(for_storage_message()))
            } else {
                let after_init = match init {
                    ForInitView::Declaration(d) => spec_types_local_variable(d, t),
                    ForInitView::Expression(e) => spec_types_optional(e, t),
                };
                match after_init {
                    TypesOutcome::Checked(t1) => match spec_types_optional(condition, t1) {
                        TypesOutcome::Checked(t2) => match spec_types_optional(post, t2) {
                            TypesOutcome::Checked(t3) => spec_types_statement(*body, t3),
                            other => other,
                        },
                        other => other,
                    },
                    other => other,
                }
            }
        },
        StatementView::Switch { condition, body, .. } => match spec_types_expression(condition, t) {
            TypesOutcome::Checked(t1) => spec_types_statement(*body, t1),
            other => other,
        },
        StatementView::Block(items) => spec_types_items(items, t),
        _ => TypesOutcome::Checked(t),
    }
}

pub open spec fn spec_types_item(item: BlockItemView, t: SymbolMap) -> TypesOutcome
    decreases item, 3nat,
{
    match item {
        BlockItemView::Statement(s) => spec_types_statement(s, t),
        BlockItemView::Declaration(d) => spec_types_local_declaration(d, t),
    }
}

pub open spec fn spec_types_items(items: Seq<BlockItemView>, t: SymbolMap) -> TypesOutcome
    decreases items, items.len(),
{
    if items.len() == 0 {
        TypesOutcome::Checked(t)
    } else {
        match spec_types_items(items.drop_last(), t) {
            TypesOutcome::Checked(t1) => spec_types_item(items.last(), t1),
            other => other,
        }
    }
}

/// At file scope a variable's initialiser is only read for its value.
pub open spec fn spec_types_top_declaration(d: DeclarationView, t: SymbolMap) -> TypesOutcome {
    match d {
        DeclarationView::Variable(v) => match spec_file_scope_variable(
            t,
            v.identifier,
            init_expression(v.initialiser),
            v.storage_class,
        ) {
            Ok(t1) => TypesOutcome::Checked(t1),
            Err(e) => TypesOutcome::Failed(e),
        },
        DeclarationView::Function(f) => spec_types_function(f, t),
    }
}

pub open spec fn spec_types_declarations(ds: Seq<DeclarationView>, t: SymbolMap) -> TypesOutcome
    decreases ds.len(),
{
    if ds.len() == 0 {
        TypesOutcome::Checked(t)
    } else {
        match spec_types_declarations(ds.drop_last(), t) {
            TypesOutcome::Checked(t1) => spec_types_top_declaration(ds.last(), t1),
            other => other,
        }
    }
}

/// The symbol table of the whole program, or the first error found.
pub open spec fn spec_resolve_types(p: Seq<DeclarationView>) -> TypesOutcome {
    spec_types_declarations(p, SymbolMap::empty())
}


/// `r` and the table `after` are what `expected` says.
pub open spec fn types_outcome(
    r: Result<(), SemanticError>,
    expected: TypesOutcome,
    after: SymbolMap,
) -> bool {
    match expected {
        TypesOutcome::Checked(t) => r is Ok && after == t,
        TypesOutcome::Failed(e) => r matches Err(x) && x@ == e,
        TypesOutcome::Undeclared => false,
    }
}

pub open spec fn opt_view(e: Option<TypedExpression>) -> Option<TypedExpressionView> {
    match e {
        Some(x) => Some(x@),
        None => None,
    }
}

impl TypedExpression {
    fn check_types(&self, table: &SymbolTable) -> (r: Result<(), SemanticError>)
        requires
            !(spec_types_expression(self@, table@) is Undeclared),
        ensures
            types_outcome(r, spec_types_expression(self@, table@), table@),
        decreases self, 3nat,
    {
        match &self.expression {
            Expression::Factor(f) => f.check_types(table),
            Expression::BinaryOp { op: _, left, right } => {
                left.check_types(table)?;
                right.check_types(table)
            },
            Expression::Assignment { left, right } => {
                left.check_types(table)?;
                right.check_types(table)
            },
            Expression::Conditional { condition, then_branch, else_branch } => {
                condition.check_types(table)?;
                then_branch.check_types(table)?;
                else_branch.check_types(table)
            },
        }
    }
}

fn check_optional(e: &Option<TypedExpression>, table: &SymbolTable) -> (r: Result<(), SemanticError>)
    requires
        !(spec_types_optional(opt_view(*e), table@) is Undeclared),
    ensures
        types_outcome(r, spec_types_optional(opt_view(*e), table@), table@),
{
    match e {
        Some(x) => x.check_types(table),
        None => Ok(()),
    }
}

impl Factor {
    fn check_types(&self, table: &SymbolTable) -> (r: Result<(), SemanticError>)
        requires
            !(spec_types_factor(self@, table@) is Undeclared),
        ensures
            types_outcome(r, spec_types_factor(self@, table@), table@),
        decreases self, 2nat,
    {
        match self {
            Factor::UnaryOp { op: _, fac } => fac.check_types(table),
            Factor::Postfix(p) => {
                assert(self@ == FactorView::Postfix(p@));
                p.primary.check_types(table)
            },
            Factor::Cast { ty: _, fac } => fac.check_types(table),
        }
    }
}

impl Primary {
    fn check_types(&self, table: &SymbolTable) -> (r: Result<(), SemanticError>)
        requires
            !(spec_types_primary(self@, table@) is Undeclared),
        ensures
            types_outcome(r, spec_types_primary(self@, table@), table@),
        decreases self, 1nat,
    {
        match self {
            Primary::Constant(_) => Ok(()),
            Primary::Paren(e) => e.check_types(table),
            Primary::Var(id) => {
                table.lookup_variable(id.clone())?;
                Ok(())
            },
            Primary::FunctionCall(id, args) => {
                proof {
                    lemma_typed_expressions_view_index(args.0@);
                }
                table.lookup_function(id.clone(), #[verifier::truncate] (args.0.len() as u32))?;
                args.check_types(table)
            },
        }
    }
}

proof fn lemma_types_arguments_stop(args: Seq<TypedExpressionView>, k: int, t: SymbolMap)
    requires
        0 <= k <= args.len(),
        !(spec_types_arguments(args.take(k), t) is Checked),
    ensures
        spec_types_arguments(args, t) == spec_types_arguments(args.take(k), t),
    decreases args.len() - k,
{
    if k < args.len() {
        assert(args.take(k + 1).drop_last() =~= args.take(k));
        lemma_types_arguments_stop(args, k + 1, t);
    } else {
        assert(args.take(k) =~= args);
    }
}

impl ArgumentList {
    fn check_types(&self, table: &SymbolTable) -> (r: Result<(), SemanticError>)
        requires
            !(spec_types_arguments(self@, table@) is Undeclared),
        ensures
            types_outcome(r, spec_types_arguments(self@, table@), table@),
        decreases self, 0nat,
    {
        proof {
            lemma_typed_expressions_view_index(self.0@);
            assert(self@.take(0) =~= seq![]);
        }
        let mut i: usize = 0;
        while i < self.0.len()
            invariant
                i <= self.0.len(),
                self@.len() == self.0@.len(),
                forall|j: int| 0 <= j < self.0@.len() ==> #[trigger] self@[j] == self.0@[j].view_of(),
                !(spec_types_arguments(self@, table@) is Undeclared),
                spec_types_arguments(self@.take(i as int), table@) == TypesOutcome::Checked(table@),
            decreases self.0.len() - i,
        {
            proof {
                assert(decreases_to!(*self => self.0));
                assert(decreases_to!(self.0 => self.0@));
                assert(decreases_to!(self.0@ => self.0@[i as int]));
                assert(self@.take(i + 1).drop_last() =~= self@.take(i as int));
                if spec_types_expression(self@[i as int], table@) is Undeclared {
                    lemma_types_arguments_stop(self@, i + 1, table@);
                }
            }
            match self.0[i].check_types(table) {
                Ok(()) => {},
                Err(e) => {
                    proof {
                        lemma_types_arguments_stop(self@, i + 1, table@);
                    }
                    return Err(e);
                },
            }
            i = i + 1;
        }
        proof {
            assert(self@.take(self@.len() as int) =~= self@);
        }
        Ok(())
    }
}


impl VariableDeclaration {
    /// A declaration inside a block.
    fn check_local_types(&self, table: &mut SymbolTable) -> (r: Result<(), SemanticError>)
        requires
            symbols_wf(old(table)@),
            !(spec_types_local_variable(self@, old(table)@) is Undeclared),
        ensures
            symbols_wf(final(table)@),
            types_outcome(r, spec_types_local_variable(self@, old(table)@), final(table)@),
    {
        let init = match &self.initialiser {
            Some(e) => Some(e),
            None => None,
        };
        table.block_scope_variable_declared(self.identifier.clone(), init, self.storage_class)?;
        check_optional(&self.initialiser, table)
    }
}

impl FuncDeclaration {
    #[verifier::loop_isolation(false)]
    fn check_types(&self, table: &mut SymbolTable) -> (r: Result<(), SemanticError>)
        requires
            symbols_wf(old(table)@),
            !(spec_types_function(self@, old(table)@) is Undeclared),
        ensures
            symbols_wf(final(table)@),
            types_outcome(r, spec_types_function(self@, old(table)@), final(table)@),
        decreases self, 1nat,
    {
        let ghost names = strings_view(self.parameters.0@);
        table.function_declared(
            self.identifier.clone(),
            #[verifier::truncate] (self.parameters.0.len() as u32),
            self.body.is_some(),
            self.storage_class,
        )?;
        match &self.body {
            Some(b) => {
                let ghost t1 = table@;
                proof {
                    assert(names.take(0) =~= seq![]);
                }
                let mut i: usize = 0;
                while i < self.parameters.0.len()
                    invariant
                        i <= self.parameters.0.len(),
                        names.len() == self.parameters.0.len(),
                        symbols_wf(table@),
                        table@ == spec_declare_params(names.take(i as int), t1),
                    decreases self.parameters.0.len() - i,
                {
                    proof {
                        assert(names.take(i + 1).drop_last() =~= names.take(i as int));
                    }
                    let _ = table.block_scope_variable_declared(
                        self.parameters.0[i].clone(),
                        None,
                        None,
                    );
                    i = i + 1;
                }
                proof {
                    assert(names.take(names.len() as int) =~= names);
                    assert(decreases_to!(*self => self.body));
                }
                b.check_types(table)
            },
            None => Ok(()),
        }
    }
}

impl Declaration {
    /// A declaration inside a block.
    fn check_local_types(&self, table: &mut SymbolTable) -> (r: Result<(), SemanticError>)
        requires
            symbols_wf(old(table)@),
            !(spec_types_local_declaration(self@, old(table)@) is Undeclared),
        ensures
            symbols_wf(final(table)@),
            types_outcome(r, spec_types_local_declaration(self@, old(table)@), final(table)@),
        decreases self, 2nat,
    {
        match self {
            Declaration::Variable(v) => v.check_local_types(table),
            Declaration::Function(f) => f.check_types(table),
        }
    }

    /// A declaration at file scope.
    fn check_types(&self, table: &mut SymbolTable) -> (r: Result<(), SemanticError>)
        requires
            symbols_wf(old(table)@),
            !(spec_types_top_declaration(self@, old(table)@) is Undeclared),
        ensures
            symbols_wf(final(table)@),
            types_outcome(r, spec_types_top_declaration(self@, old(table)@), final(table)@),
    {
        match self {
            Declaration::Variable(v) => {
                let init = match &v.initialiser {
                    Some(e) => Some(e),
                    None => None,
                };
                table.file_scope_variable_declared(v.identifier.clone(), init, v.storage_class)?;
                Ok(())
            },
            Declaration::Function(f) => f.check_types(table),
        }
    }
}

impl Statement {
    fn check_types(&self, table: &mut SymbolTable) -> (r: Result<(), SemanticError>)
        requires
            symbols_wf(old(table)@),
            !(spec_types_statement(self@, old(table)@) is Undeclared),
        ensures
            symbols_wf(final(table)@),
            types_outcome(r, spec_types_statement(self@, old(table)@), final(table)@),
        decreases self, 0nat,
    {
        match self {
            Statement::Return(e) => e.check_types(table),
            Statement::Expression(e) => e.check_types(table),
            Statement::Labeled(_, body) => body.check_types(table),
            Statement::If { condition, then_branch, else_branch } => {
                condition.check_types(table)?;
                then_branch.check_types(table)?;
                match else_branch {
                    Some(e) => e.check_types(table),
                    None => Ok(()),
                }
            },
            Statement::Case(e, body, _) => {
                e.check_types(table)?;
                body.check_types(table)
            },
            Statement::Default(body, _) => body.check_types(table),
            Statement::While { condition, body, label: _ } => {
                condition.check_types(table)?;
                body.check_types(table)
            },
            Statement::DoWhile { body, condition, label: _ } => {
                body.check_types(table)?;
                condition.check_types(table)
            },
            Statement::For { init, condition, post, body, label: _ } => {
                match init {
                    ForInit::Declaration(d) => {
                        if d.storage_class.is_some() {
                            return Err(
                                SemanticError::InvalidStorageClass(
                                    String::from_str("Storage class in for loop initialiser"),
                                ),
                            );
                        }
                        d.check_local_types(table)?;
                    },
                    ForInit::Expression(e) => {
                        check_optional(e, table)?;
                    },
                }
                check_optional(condition, table)?;
                check_optional(post, table)?;
                body.check_types(table)
            },
            Statement::Switch { condition, body, .. } => {
                condition.check_types(table)?;
                body.check_types(table)
            },
            Statement::Block(block) => block.check_types(table),
            _ => Ok(()),
        }
    }
}

impl BlockItem {
    fn check_types(&self, table: &mut SymbolTable) -> (r: Result<(), SemanticError>)
        requires
            symbols_wf(old(table)@),
            !(spec_types_item(self@, old(table)@) is Undeclared),
        ensures
            symbols_wf(final(table)@),
            types_outcome(r, spec_types_item(self@, old(table)@), final(table)@),
        decreases self, 3nat,
    {
        match self {
            BlockItem::Statement(s) => s.check_types(table),
            BlockItem::Declaration(d) => d.check_local_types(table),
        }
    }
}

proof fn lemma_types_items_stop(items: Seq<BlockItemView>, k: int, t: SymbolMap)
    requires
        0 <= k <= items.len(),
        !(spec_types_items(items.take(k), t) is Checked),
    ensures
        spec_types_items(items, t) == spec_types_items(items.take(k), t),
    decreases items.len() - k,
{
    if k < items.len() {
        assert(items.take(k + 1).drop_last() =~= items.take(k));
        lemma_types_items_stop(items, k + 1, t);
    } else {
        assert(items.take(k) =~= items);
    }
}

impl Block {
    #[verifier::loop_isolation(false)]
    fn check_types(&self, table: &mut SymbolTable) -> (r: Result<(), SemanticError>)
        requires
            symbols_wf(old(table)@),
            !(spec_types_items(self@, old(table)@) is Undeclared),
        ensures
            symbols_wf(final(table)@),
            types_outcome(r, spec_types_items(self@, old(table)@), final(table)@),
        decreases self, 4nat,
    {
        let ghost t0 = table@;
        proof {
            lemma_block_items_view_index(self.0@);
            assert(self@.take(0) =~= seq![]);
        }
        let mut i: usize = 0;
        while i < self.0.len()
            invariant
                i <= self.0.len(),
                symbols_wf(table@),
                spec_types_items(self@.take(i as int), t0) == TypesOutcome::Checked(table@),
            decreases self.0.len() - i,
        {
            proof {
                assert(decreases_to!(*self => self.0));
                assert(decreases_to!(self.0 => self.0@));
                assert(decreases_to!(self.0@ => self.0@[i as int]));
                assert(self@.take(i + 1).drop_last() =~= self@.take(i as int));
                if spec_types_item(self@[i as int], table@) is Undeclared {
                    lemma_types_items_stop(self@, i + 1, t0);
                }
            }
            match self.0[i].check_types(table) {
                Ok(()) => {},
                Err(e) => {
                    proof {
                        lemma_types_items_stop(self@, i + 1, t0);
                    }
                    return Err(e);
                },
            }
            i = i + 1;
        }
        proof {
            assert(self@.take(self@.len() as int) =~= self@);
        }
        Ok(())
    }
}

proof fn lemma_types_declarations_stop(ds: Seq<DeclarationView>, k: int, t: SymbolMap)
    requires
        0 <= k <= ds.len(),
        !(spec_types_declarations(ds.take(k), t) is Checked),
    ensures
        spec_types_declarations(ds, t) == spec_types_declarations(ds.take(k), t),
    decreases ds.len() - k,
{
    if k < ds.len() {
        assert(ds.take(k + 1).drop_last() =~= ds.take(k));
        lemma_types_declarations_stop(ds, k + 1, t);
    } else {
        assert(ds.take(k) =~= ds);
    }
}

/// Records every declaration of the program in a symbol table and checks
/// every use of a name against it; the program itself is handed back
/// unchanged.
#[verifier::loop_isolation(false)]
pub fn resolve_types(program: Program) -> (r: Result<(Program, SymbolTable), SemanticError>)
    requires
        !(spec_resolve_types(program@) is Undeclared),
    ensures
        match spec_resolve_types(program@) {
            TypesOutcome::Checked(t) => r matches Ok((p, table)) && p@ == program@ && table@ == t
                && symbols_wf(table@),
            TypesOutcome::Failed(e) => r matches Err(x) && x@ == e,
            TypesOutcome::Undeclared => false,
        },
{
    let mut table = SymbolTable::new();
    let ghost t0 = table@;
    proof {
        lemma_declarations_view_index(program.0@);
        assert(program@.take(0) =~= seq![]);
    }
    let mut i: usize = 0;
    while i < program.0.len()
        invariant
            i <= program.0.len(),
            symbols_wf(table@),
            program@.len() == program.0@.len(),
            forall|j: int| 0 <= j < program.0@.len() ==> #[trigger] program@[j] == program.0@[j].view_of(),
            spec_types_declarations(program@.take(i as int), t0) == TypesOutcome::Checked(table@),
        decreases program.0.len() - i,
    {
        proof {
            assert(program@.take(i + 1).drop_last() =~= program@.take(i as int));
            if spec_types_top_declaration(program@[i as int], table@) is Undeclared {
                lemma_types_declarations_stop(program@, i + 1, t0);
            }
        }
        match program.0[i].check_types(&mut table) {
            Ok(()) => {},
            Err(e) => {
                proof {
                    lemma_types_declarations_stop(program@, i + 1, t0);
                }
                return Err(e);
            },
        }
        i = i + 1;
    }
    proof {
        assert(program@.take(program@.len() as int) =~= program@);
    }
    Ok((program, table))
}

} // verus!
