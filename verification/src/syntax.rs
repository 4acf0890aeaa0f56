//! Lua syntax trees: nodes and tokens with their kinds, held as plain values.
use std::rc::Rc;
use vstd::prelude::*;

use crate::text::push_char;

verus! {

/// The kinds of syntax nodes.
#[derive(Debug, Clone, Copy, PartialEq, Eq, Hash, Structural)]
pub enum LuaSyntaxKind {
    Chunk,
    Block,
    // statements
    EmptyStat,
    LocalStat,
    LocalFuncStat,
    IfStat,
    WhileStat,
    DoStat,
    ForStat,
    ForRangeStat,
    RepeatStat,
    FuncStat,
    LabelStat,
    BreakStat,
    ReturnStat,
    GotoStat,
    CallExprStat,
    AssignStat,
    // expressions
    ParenExpr,
    LiteralExpr,
    ClosureExpr,
    UnaryExpr,
    BinaryExpr,
    TableArrayExpr,
    TableObjectExpr,
    TableEmptyExpr,
    CallExpr,
    IndexExpr,
    NameExpr,
    // other nodes
    ParamList,
    ParamName,
    CallArgList,
    LocalName,
    Attribute,
    TableFieldAssign,
    TableFieldValue,
    Comment,
    /// Any other node, kept with its children so that its text stays whole.
    OtherNode,
}

/// The kinds of tokens.
#[derive(Debug, Clone, Copy, PartialEq, Eq, Hash, Structural)]
pub enum LuaTokenKind {
    TkWhitespace,
    TkEndOfLine,
    TkName,
    TkString,
    TkLongString,
    TkInt,
    TkFloat,
    TkTrue,
    TkFalse,
    TkNil,
    TkDots,
    TkLeftParen,
    TkRightParen,
    TkLeftBracket,
    TkRightBracket,
    TkLeftBrace,
    TkRightBrace,
    TkAssign,
    TkComma,
    TkSemicolon,
    TkDot,
    TkColon,
    TkLt,
    TkGt,
    TkLocal,
    TkFunction,
    TkReturn,
    TkEnd,
    TkComment,
    // operators
    TkPlus,
    TkMinus,
    TkMul,
    TkDiv,
    TkIDiv,
    TkMod,
    TkPow,
    TkLen,
    TkBitAnd,
    TkBitOr,
    TkBitXor,
    TkShl,
    TkShr,
    TkConcat,
    TkEq,
    TkNe,
    TkLe,
    TkGe,
    TkDbColon,
    // keywords
    TkAnd,
    TkOr,
    TkNot,
    TkBreak,
    TkDo,
    TkElse,
    TkElseIf,
    TkFor,
    TkGoto,
    TkIf,
    TkIn,
    TkRepeat,
    TkThen,
    TkUntil,
    TkWhile,
    /// Any other token, kept with its text.
    TkOther,
}

/// A token: its kind and its text.
#[derive(Debug, PartialEq, Eq, Hash)]
pub struct LuaSyntaxToken {
    pub kind: LuaTokenKind,
    pub text: String,
}

/// A child of a syntax node: a node or a token, shared.
#[derive(Debug, PartialEq, Eq, Hash)]
pub enum LuaSyntaxElement {
    Node(Rc<LuaSyntaxNode>),
    Token(Rc<LuaSyntaxToken>),
}

/// A syntax node: its kind and its children, nodes and tokens, in source order.
#[derive(Debug, PartialEq, Eq, Hash)]
pub struct LuaSyntaxNode {
    pub kind: LuaSyntaxKind,
    pub children: Vec<LuaSyntaxElement>,
}

impl Clone for LuaSyntaxElement {
    fn clone(&self) -> (r: Self)
        ensures
            r == *self,
    {
        match self {
            LuaSyntaxElement::Node(n) => LuaSyntaxElement::Node(n.clone()),
            LuaSyntaxElement::Token(t) => LuaSyntaxElement::Token(t.clone()),
        }
    }
}

/// The source text of a node: the texts of all tokens below it, in order.
pub open spec fn node_text(n: LuaSyntaxNode) -> Seq<char>
    decreases n,
{
    elements_text(n.children@)
}

/// The source text of a list of children.
pub open spec fn elements_text(s: Seq<LuaSyntaxElement>) -> Seq<char>
    decreases s,
{
    if s.len() == 0 {
        Seq::<char>::empty()
    } else {
        elements_text(s.drop_last()) + element_text(s.last())
    }
}

/// The source text of one child.
pub open spec fn element_text(e: LuaSyntaxElement) -> Seq<char>
    decreases e,
{
    match e {
        LuaSyntaxElement::Node(n) => node_text(*n),
        LuaSyntaxElement::Token(t) => t.text@,
    }
}

impl LuaSyntaxNode {
    /// Appends the source text of this node to `out`.
    pub fn push_text(&self, out: &mut String)
        ensures
            final(out)@ == old(out)@ + node_text(*self),
        decreases *self,
    {
        let ghost start = out@;
        let mut i: usize = 0;
        while i < self.children.len()
            invariant
                i <= self.children@.len(),
                out@ == start + elements_text(self.children@.take(i as int)),
            decreases self.children.len() - i,
        {
            proof {
                assert(self.children@.take(i + 1).drop_last() =~= self.children@.take(i as int));
                assert(self.children@.take(i + 1).last() == self.children@[i as int]);
            }
            let ghost before = out@;
            match &self.children[i] {
                LuaSyntaxElement::Node(n) => {
                    proof {
                        assert(decreases_to!(*self => self.children@[i as int]));
                    }
                    n.push_text(out);
                    proof {
                        assert(element_text(self.children@[i as int]) == node_text(**n));
                        assert(out@ == before + element_text(self.children@[i as int]));
                    }
                },
                LuaSyntaxElement::Token(t) => {
                    out.append(t.text.as_str());
                    proof {
                        assert(element_text(self.children@[i as int]) == t.text@);
                        assert(out@ == before + element_text(self.children@[i as int]));
                    }
                },
            }
            proof {
                assert(elements_text(self.children@.take(i + 1)) == elements_text(self.children@.take(i as int)) + element_text(self.children@[i as int]));
                assert(out@ =~= start + elements_text(self.children@.take(i + 1)));
            }
            i = i + 1;
        }
        proof {
            assert(self.children@.take(i as int) =~= self.children@);
        }
    }

    /// The source text of this node.
    pub fn text(&self) -> (r: String)
        ensures
            r@ == node_text(*self),
    {
        let mut r = String::new();
        self.push_text(&mut r);
        proof {
            assert(r@ =~= node_text(*self));
        }
        r
    }
}

} // verus!
