//! Typed expressions and statements, and the literal tokens of literal
//! expressions.
use std::rc::Rc;
use vstd::prelude::*;

use crate::ast::{is_first_token, token_fits, LuaAstNode, LuaAstToken};
use crate::syntax::{LuaSyntaxElement, LuaSyntaxKind, LuaSyntaxNode, LuaSyntaxToken, LuaTokenKind};
use crate::tokens::{LuaNumberToken, LuaStringToken};

verus! {

/// The node kinds of expressions.
pub open spec fn is_expr_kind(k: LuaSyntaxKind) -> bool {
    k == LuaSyntaxKind::ParenExpr || k == LuaSyntaxKind::LiteralExpr || k
        == LuaSyntaxKind::ClosureExpr || k == LuaSyntaxKind::UnaryExpr || k
        == LuaSyntaxKind::BinaryExpr || k == LuaSyntaxKind::TableArrayExpr || k
        == LuaSyntaxKind::TableObjectExpr || k == LuaSyntaxKind::TableEmptyExpr || k
        == LuaSyntaxKind::CallExpr || k == LuaSyntaxKind::IndexExpr || k == LuaSyntaxKind::NameExpr
}

/// The node kinds of statements.
pub open spec fn is_stat_kind(k: LuaSyntaxKind) -> bool {
    k == LuaSyntaxKind::EmptyStat || k == LuaSyntaxKind::LocalStat || k
        == LuaSyntaxKind::LocalFuncStat || k == LuaSyntaxKind::IfStat || k == LuaSyntaxKind::WhileStat
        || k == LuaSyntaxKind::DoStat || k == LuaSyntaxKind::ForStat || k
        == LuaSyntaxKind::ForRangeStat || k == LuaSyntaxKind::RepeatStat || k
        == LuaSyntaxKind::FuncStat || k == LuaSyntaxKind::LabelStat || k == LuaSyntaxKind::BreakStat
        || k == LuaSyntaxKind::ReturnStat || k == LuaSyntaxKind::GotoStat || k
        == LuaSyntaxKind::CallExprStat || k == LuaSyntaxKind::AssignStat
}

/// The node kinds that can stand as the single argument of a call without
/// parentheses: table constructors and literals.
pub open spec fn is_single_arg_kind(k: LuaSyntaxKind) -> bool {
    k == LuaSyntaxKind::TableArrayExpr || k == LuaSyntaxKind::TableObjectExpr || k
        == LuaSyntaxKind::TableEmptyExpr || k == LuaSyntaxKind::LiteralExpr
}

/// Whether a node kind is an expression kind.
pub fn expr_kind(k: LuaSyntaxKind) -> (r: bool)
    ensures
        r == is_expr_kind(k),
{
    match k {
        LuaSyntaxKind::ParenExpr | LuaSyntaxKind::LiteralExpr | LuaSyntaxKind::ClosureExpr
        | LuaSyntaxKind::UnaryExpr | LuaSyntaxKind::BinaryExpr | LuaSyntaxKind::TableArrayExpr
        | LuaSyntaxKind::TableObjectExpr | LuaSyntaxKind::TableEmptyExpr | LuaSyntaxKind::CallExpr
        | LuaSyntaxKind::IndexExpr | LuaSyntaxKind::NameExpr => true,
        _ => false,
    }
}

/// An expression.
#[derive(Debug, Clone, PartialEq, Eq, Hash)]
pub struct LuaExpr {
    syntax: Rc<LuaSyntaxNode>,
}

impl LuaAstNode for LuaExpr {
    open spec fn kind_fits(kind: LuaSyntaxKind) -> bool {
        is_expr_kind(kind)
    }

    closed spec fn node_of(&self) -> Rc<LuaSyntaxNode> {
        self.syntax
    }

    fn syntax(&self) -> (r: &Rc<LuaSyntaxNode>) {
        &self.syntax
    }

    fn can_cast(kind: LuaSyntaxKind) -> (r: bool) {
        expr_kind(kind)
    }

    fn cast(syntax: Rc<LuaSyntaxNode>) -> (r: Option<Self>) {
        if expr_kind(syntax.kind) {
            Some(LuaExpr { syntax })
        } else {
            None
        }
    }
}

/// A statement.
#[derive(Debug, Clone, PartialEq, Eq, Hash)]
pub struct LuaStat {
    syntax: Rc<LuaSyntaxNode>,
}

impl LuaAstNode for LuaStat {
    open spec fn kind_fits(kind: LuaSyntaxKind) -> bool {
        is_stat_kind(kind)
    }

    closed spec fn node_of(&self) -> Rc<LuaSyntaxNode> {
        self.syntax
    }

    fn syntax(&self) -> (r: &Rc<LuaSyntaxNode>) {
        &self.syntax
    }

    fn can_cast(kind: LuaSyntaxKind) -> (r: bool) {
        match kind {
            LuaSyntaxKind::EmptyStat | LuaSyntaxKind::LocalStat | LuaSyntaxKind::LocalFuncStat
            | LuaSyntaxKind::IfStat | LuaSyntaxKind::WhileStat | LuaSyntaxKind::DoStat
            | LuaSyntaxKind::ForStat | LuaSyntaxKind::ForRangeStat | LuaSyntaxKind::RepeatStat
            | LuaSyntaxKind::FuncStat | LuaSyntaxKind::LabelStat | LuaSyntaxKind::BreakStat
            | LuaSyntaxKind::ReturnStat | LuaSyntaxKind::GotoStat | LuaSyntaxKind::CallExprStat
            | LuaSyntaxKind::AssignStat => true,
            _ => false,
        }
    }

    fn cast(syntax: Rc<LuaSyntaxNode>) -> (r: Option<Self>) {
        if Self::can_cast(syntax.kind) {
            Some(LuaStat { syntax })
        } else {
            None
        }
    }
}

/// The single argument of a call written without parentheses.
#[derive(Debug, Clone, PartialEq, Eq, Hash)]
pub struct LuaSingleArgExpr {
    syntax: Rc<LuaSyntaxNode>,
}

impl LuaAstNode for LuaSingleArgExpr {
    open spec fn kind_fits(kind: LuaSyntaxKind) -> bool {
        is_single_arg_kind(kind)
    }

    closed spec fn node_of(&self) -> Rc<LuaSyntaxNode> {
        self.syntax
    }

    fn syntax(&self) -> (r: &Rc<LuaSyntaxNode>) {
        &self.syntax
    }

    fn can_cast(kind: LuaSyntaxKind) -> (r: bool) {
        match kind {
            LuaSyntaxKind::TableArrayExpr | LuaSyntaxKind::TableObjectExpr
            | LuaSyntaxKind::TableEmptyExpr | LuaSyntaxKind::LiteralExpr => true,
            _ => false,
        }
    }

    fn cast(syntax: Rc<LuaSyntaxNode>) -> (r: Option<Self>) {
        if Self::can_cast(syntax.kind) {
            Some(LuaSingleArgExpr { syntax })
        } else {
            None
        }
    }
}

/// The token kinds of literals.
pub open spec fn is_literal_token_kind(k: LuaTokenKind) -> bool {
    k == LuaTokenKind::TkString || k == LuaTokenKind::TkLongString || k == LuaTokenKind::TkInt || k
        == LuaTokenKind::TkFloat || k == LuaTokenKind::TkTrue || k == LuaTokenKind::TkFalse || k
        == LuaTokenKind::TkNil || k == LuaTokenKind::TkDots
}

/// The token of a literal expression.
#[derive(Debug, Clone, PartialEq, Eq, Hash)]
pub enum LuaLiteralToken {
    String(LuaStringToken),
    Number(LuaNumberToken),
    Bool(Rc<LuaSyntaxToken>),
    Nil(Rc<LuaSyntaxToken>),
    Dots(Rc<LuaSyntaxToken>),
}

impl LuaAstToken for LuaLiteralToken {
    open spec fn token_kind_fits(kind: LuaTokenKind) -> bool {
        is_literal_token_kind(kind)
    }

    open spec fn token_of(&self) -> Rc<LuaSyntaxToken> {
        match self {
            LuaLiteralToken::String(t) => t.token_of(),
            LuaLiteralToken::Number(t) => t.token_of(),
            LuaLiteralToken::Bool(t) => *t,
            LuaLiteralToken::Nil(t) => *t,
            LuaLiteralToken::Dots(t) => *t,
        }
    }

    fn syntax(&self) -> (r: &Rc<LuaSyntaxToken>) {
        match self {
            LuaLiteralToken::String(t) => t.syntax(),
            LuaLiteralToken::Number(t) => t.syntax(),
            LuaLiteralToken::Bool(t) => t,
            LuaLiteralToken::Nil(t) => t,
            LuaLiteralToken::Dots(t) => t,
        }
    }

    fn can_cast(kind: LuaTokenKind) -> (r: bool) {
        match kind {
            LuaTokenKind::TkString | LuaTokenKind::TkLongString | LuaTokenKind::TkInt
            | LuaTokenKind::TkFloat | LuaTokenKind::TkTrue | LuaTokenKind::TkFalse
            | LuaTokenKind::TkNil | LuaTokenKind::TkDots => true,
            _ => false,
        }
    }

    fn cast(syntax: Rc<LuaSyntaxToken>) -> (r: Option<Self>)
        ensures
            r matches Some(l) ==> literal_kind_ok(l),
    {
        match syntax.kind {
            LuaTokenKind::TkString | LuaTokenKind::TkLongString => match LuaStringToken::cast(syntax) {
                Some(t) => Some(LuaLiteralToken::String(t)),
                None => None,
            },
            LuaTokenKind::TkInt | LuaTokenKind::TkFloat => match LuaNumberToken::cast(syntax) {
                Some(t) => Some(LuaLiteralToken::Number(t)),
                None => None,
            },
            LuaTokenKind::TkTrue | LuaTokenKind::TkFalse => Some(LuaLiteralToken::Bool(syntax)),
            LuaTokenKind::TkNil => Some(LuaLiteralToken::Nil(syntax)),
            LuaTokenKind::TkDots => Some(LuaLiteralToken::Dots(syntax)),
            _ => None,
        }
    }
}

/// A literal expression.
#[derive(Debug, Clone, PartialEq, Eq, Hash)]
pub struct LuaLiteralExpr {
    syntax: Rc<LuaSyntaxNode>,
}

impl LuaAstNode for LuaLiteralExpr {
    open spec fn kind_fits(kind: LuaSyntaxKind) -> bool {
        kind == LuaSyntaxKind::LiteralExpr
    }

    closed spec fn node_of(&self) -> Rc<LuaSyntaxNode> {
        self.syntax
    }

    fn syntax(&self) -> (r: &Rc<LuaSyntaxNode>) {
        &self.syntax
    }

    fn can_cast(kind: LuaSyntaxKind) -> (r: bool) {
        kind == LuaSyntaxKind::LiteralExpr
    }

    fn cast(syntax: Rc<LuaSyntaxNode>) -> (r: Option<Self>) {
        if syntax.kind == LuaSyntaxKind::LiteralExpr {
            Some(LuaLiteralExpr { syntax })
        } else {
            None
        }
    }
}

/// The variant of a literal token agrees with the kind of its token.
pub open spec fn literal_kind_ok(l: LuaLiteralToken) -> bool {
    match l {
        LuaLiteralToken::String(t) => t.token_of().kind == LuaTokenKind::TkString
            || t.token_of().kind == LuaTokenKind::TkLongString,
        LuaLiteralToken::Number(t) => t.token_of().kind == LuaTokenKind::TkInt || t.token_of().kind
            == LuaTokenKind::TkFloat,
        LuaLiteralToken::Bool(t) => t.kind == LuaTokenKind::TkTrue || t.kind == LuaTokenKind::TkFalse,
        LuaLiteralToken::Nil(t) => t.kind == LuaTokenKind::TkNil,
        LuaLiteralToken::Dots(t) => t.kind == LuaTokenKind::TkDots,
    }
}

/// The first token among `s` of a literal kind.
pub open spec fn first_literal(s: Seq<LuaSyntaxElement>) -> Option<Rc<LuaSyntaxToken>>
    decreases s.len(),
{
    if s.len() == 0 {
        None
    } else {
        match s[0] {
            LuaSyntaxElement::Token(t) => if is_literal_token_kind(t.kind) {
                Some(t)
            } else {
                first_literal(s.drop_first())
            },
            LuaSyntaxElement::Node(_) => first_literal(s.drop_first()),
        }
    }
}

impl LuaLiteralExpr {
    /// The first literal token of the expression.
    pub fn get_literal(&self) -> (r: Option<LuaLiteralToken>)
        ensures
            is_first_token::<LuaLiteralToken>(self.node_of().children@, r),
            match r {
                Some(l) => first_literal(self.node_of().children@) == Some(l.token_of())
                    && literal_kind_ok(l),
                None => first_literal(self.node_of().children@) is None,
            },
    {
        let node: &LuaSyntaxNode = &*self.syntax;
        let ghost s = node.children@;
        let mut i: usize = 0;
        proof {
            assert(s.skip(0) =~= s);
        }
        while i < node.children.len()
            invariant
                i <= s.len(),
                s == node.children@,
                s == self.node_of().children@,
                first_literal(s) == first_literal(s.skip(i as int)),
                forall|j: int| 0 <= j < i ==> !token_fits::<LuaLiteralToken>(#[trigger] s[j]),
            decreases node.children.len() - i,
        {
            proof {
                assert(s.skip(i as int)[0] == s[i as int]);
                assert(s.skip(i as int).drop_first() =~= s.skip(i + 1));
            }
            match &node.children[i] {
                LuaSyntaxElement::Token(t) => {
                    if LuaLiteralToken::can_cast(t.kind) {
                        let r = LuaLiteralToken::cast(t.clone());
                        proof {
                            assert(token_fits::<LuaLiteralToken>(s[i as int]));
                        }
                        return r;
                    }
                },
                LuaSyntaxElement::Node(_) => {},
            }
            i = i + 1;
        }
        proof {
            assert(s.skip(i as int) =~= Seq::<LuaSyntaxElement>::empty());
        }
        None
    }
}

/// Every kind of expression node, parenthesised, literal, function, unary,
/// binary, table constructor, call, index and name, is viewed as an expression;
/// no statement and no other node is.
pub proof fn lemma_expression_kinds()
    ensures
        LuaExpr::kind_fits(LuaSyntaxKind::ParenExpr),
        LuaExpr::kind_fits(LuaSyntaxKind::LiteralExpr),
        LuaExpr::kind_fits(LuaSyntaxKind::ClosureExpr),
        LuaExpr::kind_fits(LuaSyntaxKind::UnaryExpr),
        LuaExpr::kind_fits(LuaSyntaxKind::BinaryExpr),
        LuaExpr::kind_fits(LuaSyntaxKind::TableArrayExpr),
        LuaExpr::kind_fits(LuaSyntaxKind::TableObjectExpr),
        LuaExpr::kind_fits(LuaSyntaxKind::TableEmptyExpr),
        LuaExpr::kind_fits(LuaSyntaxKind::CallExpr),
        LuaExpr::kind_fits(LuaSyntaxKind::IndexExpr),
        LuaExpr::kind_fits(LuaSyntaxKind::NameExpr),
        !LuaExpr::kind_fits(LuaSyntaxKind::EmptyStat),
        !LuaExpr::kind_fits(LuaSyntaxKind::LocalStat),
        !LuaExpr::kind_fits(LuaSyntaxKind::LocalFuncStat),
        !LuaExpr::kind_fits(LuaSyntaxKind::IfStat),
        !LuaExpr::kind_fits(LuaSyntaxKind::WhileStat),
        !LuaExpr::kind_fits(LuaSyntaxKind::DoStat),
        !LuaExpr::kind_fits(LuaSyntaxKind::ForStat),
        !LuaExpr::kind_fits(LuaSyntaxKind::ForRangeStat),
        !LuaExpr::kind_fits(LuaSyntaxKind::RepeatStat),
        !LuaExpr::kind_fits(LuaSyntaxKind::FuncStat),
        !LuaExpr::kind_fits(LuaSyntaxKind::LabelStat),
        !LuaExpr::kind_fits(LuaSyntaxKind::BreakStat),
        !LuaExpr::kind_fits(LuaSyntaxKind::ReturnStat),
        !LuaExpr::kind_fits(LuaSyntaxKind::GotoStat),
        !LuaExpr::kind_fits(LuaSyntaxKind::CallExprStat),
        !LuaExpr::kind_fits(LuaSyntaxKind::AssignStat),
        !LuaExpr::kind_fits(LuaSyntaxKind::Chunk),
        !LuaExpr::kind_fits(LuaSyntaxKind::Block),
        !LuaExpr::kind_fits(LuaSyntaxKind::ParamList),
        !LuaExpr::kind_fits(LuaSyntaxKind::ParamName),
        !LuaExpr::kind_fits(LuaSyntaxKind::CallArgList),
        !LuaExpr::kind_fits(LuaSyntaxKind::LocalName),
        !LuaExpr::kind_fits(LuaSyntaxKind::Attribute),
        !LuaExpr::kind_fits(LuaSyntaxKind::TableFieldAssign),
        !LuaExpr::kind_fits(LuaSyntaxKind::TableFieldValue),
        !LuaExpr::kind_fits(LuaSyntaxKind::Comment),
        !LuaExpr::kind_fits(LuaSyntaxKind::OtherNode),
{
}

/// Every kind of statement node, the call statement among them, is viewed as a
/// statement; no expression and no other node is.
pub proof fn lemma_statement_kinds()
    ensures
        LuaStat::kind_fits(LuaSyntaxKind::EmptyStat),
        LuaStat::kind_fits(LuaSyntaxKind::LocalStat),
        LuaStat::kind_fits(LuaSyntaxKind::LocalFuncStat),
        LuaStat::kind_fits(LuaSyntaxKind::IfStat),
        LuaStat::kind_fits(LuaSyntaxKind::WhileStat),
        LuaStat::kind_fits(LuaSyntaxKind::DoStat),
        LuaStat::kind_fits(LuaSyntaxKind::ForStat),
        LuaStat::kind_fits(LuaSyntaxKind::ForRangeStat),
        LuaStat::kind_fits(LuaSyntaxKind::RepeatStat),
        LuaStat::kind_fits(LuaSyntaxKind::FuncStat),
        LuaStat::kind_fits(LuaSyntaxKind::LabelStat),
        LuaStat::kind_fits(LuaSyntaxKind::BreakStat),
        LuaStat::kind_fits(LuaSyntaxKind::ReturnStat),
        LuaStat::kind_fits(LuaSyntaxKind::GotoStat),
        LuaStat::kind_fits(LuaSyntaxKind::CallExprStat),
        LuaStat::kind_fits(LuaSyntaxKind::AssignStat),
        !LuaStat::kind_fits(LuaSyntaxKind::ParenExpr),
        !LuaStat::kind_fits(LuaSyntaxKind::LiteralExpr),
        !LuaStat::kind_fits(LuaSyntaxKind::ClosureExpr),
        !LuaStat::kind_fits(LuaSyntaxKind::UnaryExpr),
        !LuaStat::kind_fits(LuaSyntaxKind::BinaryExpr),
        !LuaStat::kind_fits(LuaSyntaxKind::TableArrayExpr),
        !LuaStat::kind_fits(LuaSyntaxKind::TableObjectExpr),
        !LuaStat::kind_fits(LuaSyntaxKind::TableEmptyExpr),
        !LuaStat::kind_fits(LuaSyntaxKind::CallExpr),
        !LuaStat::kind_fits(LuaSyntaxKind::IndexExpr),
        !LuaStat::kind_fits(LuaSyntaxKind::NameExpr),
        !LuaStat::kind_fits(LuaSyntaxKind::Chunk),
        !LuaStat::kind_fits(LuaSyntaxKind::Block),
        !LuaStat::kind_fits(LuaSyntaxKind::ParamList),
        !LuaStat::kind_fits(LuaSyntaxKind::ParamName),
        !LuaStat::kind_fits(LuaSyntaxKind::CallArgList),
        !LuaStat::kind_fits(LuaSyntaxKind::LocalName),
        !LuaStat::kind_fits(LuaSyntaxKind::Attribute),
        !LuaStat::kind_fits(LuaSyntaxKind::TableFieldAssign),
        !LuaStat::kind_fits(LuaSyntaxKind::TableFieldValue),
        !LuaStat::kind_fits(LuaSyntaxKind::Comment),
        !LuaStat::kind_fits(LuaSyntaxKind::OtherNode),
{
}

/// The single argument of a call written without parentheses is a table
/// constructor of any form or a literal: those kinds are viewed as such an
/// argument, and every kind so viewed is an expression kind other than a name,
/// call, index, parenthesised, function, unary or binary expression.
pub proof fn lemma_single_arg_kinds()
    ensures
        LuaSingleArgExpr::kind_fits(LuaSyntaxKind::TableArrayExpr),
        LuaSingleArgExpr::kind_fits(LuaSyntaxKind::TableObjectExpr),
        LuaSingleArgExpr::kind_fits(LuaSyntaxKind::TableEmptyExpr),
        LuaSingleArgExpr::kind_fits(LuaSyntaxKind::LiteralExpr),
        forall|k: LuaSyntaxKind| #[trigger] LuaSingleArgExpr::kind_fits(k) ==> LuaExpr::kind_fits(k),
        !LuaSingleArgExpr::kind_fits(LuaSyntaxKind::NameExpr),
        !LuaSingleArgExpr::kind_fits(LuaSyntaxKind::CallExpr),
        !LuaSingleArgExpr::kind_fits(LuaSyntaxKind::IndexExpr),
        !LuaSingleArgExpr::kind_fits(LuaSyntaxKind::ParenExpr),
        !LuaSingleArgExpr::kind_fits(LuaSyntaxKind::ClosureExpr),
        !LuaSingleArgExpr::kind_fits(LuaSyntaxKind::UnaryExpr),
        !LuaSingleArgExpr::kind_fits(LuaSyntaxKind::BinaryExpr),
{
}

} // verus!
