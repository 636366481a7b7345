//! The types of the language and its constants.
use vstd::prelude::*;

use crate::lexer::{Keyword, Token, TokenType};

verus! {

#[derive(Debug)]
pub enum TypeError {
    InvalidTypeTokens(Vec<Token>),
}

pub enum TypeErrorView {
    InvalidTypeTokens(Seq<Token>),
}

impl View for TypeError {
    type V = TypeErrorView;

    open spec fn view(&self) -> TypeErrorView {
        match self {
            TypeError::InvalidTypeTokens(tokens) => TypeErrorView::InvalidTypeTokens(tokens@),
        }
    }
}

#[derive(Debug, PartialEq, Eq)]
pub enum Type {
    Int,
    Long,
    Function { params: Vec<Type>, return_type: Box<Type> },
}

pub enum TypeView {
    Int,
    Long,
    Function { params: Seq<TypeView>, return_type: Box<TypeView> },
}

impl Type {
    pub open spec fn view_of(self) -> TypeView
        decreases self, 0nat,
    {
        match self {
            Type::Int => TypeView::Int,
            Type::Long => TypeView::Long,
            Type::Function { params, return_type } => TypeView::Function {
                params: types_view(params@),
                return_type: Box::new((*return_type).view_of()),
            },
        }
    }
}

pub open spec fn types_view(s: Seq<Type>) -> Seq<TypeView>
    decreases s, s.len(),
{
    if s.len() == 0 {
        seq![]
    } else {
        seq![s[0].view_of()] + types_view(s.drop_first())
    }
}

impl View for Type {
    type V = TypeView;

    open spec fn view(&self) -> TypeView {
        self.view_of()
    }
}

pub proof fn lemma_types_view_len(s: Seq<Type>)
    ensures
        types_view(s).len() == s.len(),
        forall|i: int| 0 <= i < s.len() ==> #[trigger] types_view(s)[i] == s[i].view_of(),
    decreases s.len(),
{
    if s.len() > 0 {
        lemma_types_view_len(s.drop_first());
        assert forall|i: int| 0 <= i < s.len() implies #[trigger] types_view(s)[i]
            == s[i].view_of() by {
            if i > 0 {
                assert(s.drop_first()[i - 1] == s[i]);
            }
        }
    }
}

pub proof fn lemma_types_view_push(s: Seq<Type>, t: Type)
    ensures
        types_view(s.push(t)) == types_view(s).push(t.view_of()),
{
    lemma_types_view_len(s);
    lemma_types_view_len(s.push(t));
    assert(types_view(s.push(t)) =~= types_view(s).push(t.view_of()));
}

pub open spec fn spec_is_type_keyword(k: Keyword) -> bool {
    k == Keyword::Int || k == Keyword::Long
}

pub open spec fn is_keyword_token(t: Token, k: Keyword) -> bool {
    t.0 matches TokenType::Keyword(kwd) && kwd == k
}

/// The type that a list of type specifier tokens denotes.
pub open spec fn spec_type_from_tokens(tokens: Seq<Token>) -> Result<TypeView, TypeErrorView> {
    if tokens.len() == 1 && is_keyword_token(tokens[0], Keyword::Int) {
        Ok(TypeView::Int)
    } else if (tokens.len() == 1 && is_keyword_token(tokens[0], Keyword::Long)) || (tokens.len()
        == 2 && is_keyword_token(tokens[0], Keyword::Int) && is_keyword_token(
        tokens[1],
        Keyword::Long,
    )) || (tokens.len() == 2 && is_keyword_token(tokens[0], Keyword::Long) && is_keyword_token(
        tokens[1],
        Keyword::Int,
    )) {
        Ok(TypeView::Long)
    } else {
        Err(TypeErrorView::InvalidTypeTokens(tokens))
    }
}

impl Token {
    /// A copy of this token.
    pub fn deep_clone(&self) -> (r: Token)
        ensures
            r == *self,
    {
        let token_type = match &self.0 {
            TokenType::Identifier(s) => TokenType::Identifier(s.clone()),
            TokenType::Constant(v) => TokenType::Constant(*v),
            TokenType::Keyword(k) => TokenType::Keyword(*k),
            TokenType::Symbol(s) => TokenType::Symbol(*s),
            TokenType::EndOfFile => TokenType::EndOfFile,
        };
        Token(token_type, self.1)
    }

    pub fn is_keyword(&self, k: Keyword) -> (r: bool)
        ensures
            r == is_keyword_token(*self, k),
    {
        match &self.0 {
            TokenType::Keyword(kwd) => *kwd == k,
            _ => false,
        }
    }
}

pub fn clone_tokens(tokens: &[Token]) -> (r: Vec<Token>)
    ensures
        r@ == tokens@,
{
    let mut r: Vec<Token> = Vec::new();
    let mut i: usize = 0;
    while i < tokens.len()
        invariant
            i <= tokens.len(),
            r@ == tokens@.take(i as int),
        decreases tokens.len() - i,
    {
        r.push(tokens[i].deep_clone());
        assert(r@ =~= tokens@.take(i + 1));
        i = i + 1;
    }
    assert(r@ =~= tokens@);
    r
}

impl Type {
    /// Reads a list of type specifier tokens: `int` is `Int`; `long`,
    /// `int long` and `long int` are `Long`; anything else is an error that
    /// carries the tokens.
    pub fn from_tokens(tokens: &[Token]) -> (r: Result<Type, TypeError>)
        ensures
            match spec_type_from_tokens(tokens@) {
                Ok(t) => r matches Ok(ty) && ty@ == t,
                Err(e) => r matches Err(err) && err@ == e,
            },
    {
        if tokens.len() == 1 && tokens[0].is_keyword(Keyword::Int) {
            Ok(Type::Int)
        } else if (tokens.len() == 1 && tokens[0].is_keyword(Keyword::Long)) || (tokens.len() == 2
            && tokens[0].is_keyword(Keyword::Int) && tokens[1].is_keyword(Keyword::Long)) || (
        tokens.len() == 2 && tokens[0].is_keyword(Keyword::Long) && tokens[1].is_keyword(
            Keyword::Int,
        )) {
            Ok(Type::Long)
        } else {
            Err(TypeError::InvalidTypeTokens(clone_tokens(tokens)))
        }
    }

    /// A copy of this type.
    #[verifier::loop_isolation(false)]
    pub fn deep_clone(&self) -> (r: Type)
        ensures
            r@ == self@,
        decreases self,
    {
        match self {
            Type::Int => Type::Int,
            Type::Long => Type::Long,
            Type::Function { params, return_type } => {
                let mut ps: Vec<Type> = Vec::new();
                let mut i: usize = 0;
                while i < params.len()
                    invariant
                        i <= params.len(),
                        types_view(ps@) == types_view(params@.take(i as int)),
                    decreases params.len() - i,
                {
                    proof {
                        assert(decreases_to!(*self => *params));
                        assert(decreases_to!(*params => params@));
                        assert(decreases_to!(params@ => params@[i as int]));
                    }
                    let p = params[i].deep_clone();
                    proof {
                        lemma_types_view_push(ps@, p);
                        lemma_types_view_push(params@.take(i as int), params@[i as int]);
                        assert(params@.take(i + 1) =~= params@.take(i as int).push(
                            params@[i as int],
                        ));
                        lemma_types_view_len(ps@.push(p));
                        lemma_types_view_len(params@.take(i + 1));
                        assert(types_view(ps@.push(p)) =~= types_view(params@.take(i + 1)));
                    }
                    ps.push(p);
                    i = i + 1;
                }
                assert(params@.take(params.len() as int) =~= params@);
                Type::Function { params: ps, return_type: Box::new(return_type.deep_clone()) }
            },
        }
    }

    /// Whether two types are the same.
    #[verifier::loop_isolation(false)]
    pub fn same_as(&self, other: &Type) -> (r: bool)
        ensures
            r == (self@ == other@),
        decreases self,
    {
        match (self, other) {
            (Type::Int, Type::Int) => true,
            (Type::Long, Type::Long) => true,
            (
                Type::Function { params: p1, return_type: r1 },
                Type::Function { params: p2, return_type: r2 },
            ) => {
                proof {
                    lemma_types_view_len(p1@);
                    lemma_types_view_len(p2@);
                }
                if p1.len() != p2.len() {
                    return false;
                }
                let mut i: usize = 0;
                while i < p1.len()
                    invariant
                        i <= p1.len(),
                        p1.len() == p2.len(),
                        types_view(p1@).len() == p1.len(),
                        types_view(p2@).len() == p2.len(),
                        forall|j: int| 0 <= j < p1.len() ==> #[trigger] types_view(p1@)[j] == p1@[j].view_of(),
                        forall|j: int| 0 <= j < p2.len() ==> #[trigger] types_view(p2@)[j] == p2@[j].view_of(),
                        forall|j: int| 0 <= j < i ==> types_view(p1@)[j] == types_view(p2@)[j],
                    decreases p1.len() - i,
                {
                    proof {
                        assert(decreases_to!(*self => *p1));
                        assert(decreases_to!(*p1 => p1@));
                        assert(decreases_to!(p1@ => p1@[i as int]));
                    }
                    if !p1[i].same_as(&p2[i]) {
                        assert(self@->params[i as int] != other@->params[i as int]);
                        return false;
                    }
                    i = i + 1;
                }
                assert(types_view(p1@) =~= types_view(p2@));
                r1.same_as(r2)
            },
            _ => false,
        }
    }

    /// The type both operands take in an arithmetic operation: the shared
    /// type if they agree, else `Long`.
    pub fn get_common_type(&self, other: &Type) -> (r: Type)
        ensures
            r@ == (if self@ == other@ {
                self@
            } else {
                TypeView::Long
            }),
    {
        if self.same_as(other) {
            self.deep_clone()
        } else {
            Type::Long
        }
    }

    pub fn get_function_params(&self) -> (r: Option<&Vec<Type>>)
        ensures
            match self {
                Type::Function { params, .. } => r == Some(params),
                _ => r is None,
            },
    {
        match self {
            Type::Function { params, .. } => Some(params),
            _ => None,
        }
    }
}

pub trait IsType {
    fn is_type(&self) -> bool;
}

impl IsType for Keyword {
    fn is_type(&self) -> (r: bool)
        ensures
            r == spec_is_type_keyword(*self),
    {
        match self {
            Keyword::Int | Keyword::Long => true,
            _ => false,
        }
    }
}

#[derive(Debug, Clone, Copy, PartialEq, Eq, Hash, Structural)]
pub enum Constant {
    Int(i32),
    Long(i64),
}

pub open spec fn spec_constant_value(c: Constant) -> i64 {
    match c {
        Constant::Int(v) => v as i64,
        Constant::Long(v) => v,
    }
}

impl Constant {
    pub fn to_integer(&self) -> (r: Option<i64>)
        ensures
            r == Some(spec_constant_value(*self)),
    {
        match self {
            Constant::Int(value) => Some(*value as i64),
            Constant::Long(value) => Some(*value),
        }
    }

    pub fn to_type(&self) -> (r: Type)
        ensures
            r@ == (match self {
                Constant::Int(_) => TypeView::Int,
                Constant::Long(_) => TypeView::Long,
            }),
    {
        match self {
            Constant::Int(_) => Type::Int,
            Constant::Long(_) => Type::Long,
        }
    }

    pub fn zero_with_type(ty: &Type) -> (r: Option<Constant>)
        ensures
            r == (match ty@ {
                TypeView::Int => Some(Constant::Int(0)),
                TypeView::Long => Some(Constant::Long(0)),
                _ => None::<Constant>,
            }),
    {
        match ty {
            Type::Int => Some(Constant::Int(0)),
            Type::Long => Some(Constant::Long(0)),
            _ => None,
        }
    }

    /// The value of this constant in type `ty`, truncated to 32 bits for
    /// `Int`; `None` for a function type.
    pub fn cast_to_type(&self, ty: Type) -> (r: Option<Constant>)
        ensures
            r == (match ty@ {
                TypeView::Int => Some(Constant::Int(spec_constant_value(*self) as i32)),
                TypeView::Long => Some(Constant::Long(spec_constant_value(*self))),
                _ => None::<Constant>,
            }),
    {
        match self.to_integer() {
            Some(value) => match ty {
                Type::Int => Some(Constant::Int(value as i32)),
                Type::Long => Some(Constant::Long(value)),
                _ => None,
            },
            None => None,
        }
    }
}

} // verus!
