//! Typed Lua syntax nodes: chunks, blocks, local names and attributes, call
//! arguments, table fields and parameters.
use std::rc::Rc;
use vstd::prelude::*;

use crate::ast::{
    child, children, fitting, is_first_child, is_first_token, is_first_token_of_kind, is_last_child,
    last_child, token, token_by_kind, LuaAstNode, LuaAstToken,
};
use crate::expr::{
    expr_kind, first_literal, is_expr_kind, LuaExpr, LuaLiteralExpr, LuaLiteralToken, LuaSingleArgExpr, LuaStat,
};
use crate::syntax::{
    node_text, LuaSyntaxElement, LuaSyntaxKind, LuaSyntaxNode, LuaSyntaxToken, LuaTokenKind,
};
use crate::text::{i64_to_decimal, push_char, signed_decimal, str_eq};
use crate::tokens::{int_value, string_value, LuaNameToken, LuaNumberToken, LuaStringToken};

verus! {

/// A whole source file.
#[derive(Debug, Clone, PartialEq, Eq, Hash)]
pub struct LuaChunk {
    syntax: Rc<LuaSyntaxNode>,
}

impl LuaAstNode for LuaChunk {
    open spec fn kind_fits(kind: LuaSyntaxKind) -> bool {
        kind == LuaSyntaxKind::Chunk
    }

    closed spec fn node_of(&self) -> Rc<LuaSyntaxNode> {
        self.syntax
    }

    fn syntax(&self) -> (r: &Rc<LuaSyntaxNode>) {
        &self.syntax
    }

    fn can_cast(kind: LuaSyntaxKind) -> (r: bool) {
        kind == LuaSyntaxKind::Chunk
    }

    fn cast(syntax: Rc<LuaSyntaxNode>) -> (r: Option<Self>) {
        if syntax.kind == LuaSyntaxKind::Chunk {
            Some(Self { syntax })
        } else {
            None
        }
    }
}

impl LuaChunk {
    /// The block of the chunk.
    pub fn get_block(&self) -> (r: Option<LuaBlock>)
        ensures
            is_first_child::<LuaBlock>(self.node_of().children@, r),
    {
        child::<LuaBlock>(&*self.syntax)
    }
}

/// A block of statements.
#[derive(Debug, Clone, PartialEq, Eq, Hash)]
pub struct LuaBlock {
    syntax: Rc<LuaSyntaxNode>,
}

impl LuaAstNode for LuaBlock {
    open spec fn kind_fits(kind: LuaSyntaxKind) -> bool {
        kind == LuaSyntaxKind::Block
    }

    closed spec fn node_of(&self) -> Rc<LuaSyntaxNode> {
        self.syntax
    }

    fn syntax(&self) -> (r: &Rc<LuaSyntaxNode>) {
        &self.syntax
    }

    fn can_cast(kind: LuaSyntaxKind) -> (r: bool) {
        kind == LuaSyntaxKind::Block
    }

    fn cast(syntax: Rc<LuaSyntaxNode>) -> (r: Option<Self>) {
        if syntax.kind == LuaSyntaxKind::Block {
            Some(Self { syntax })
        } else {
            None
        }
    }
}

impl LuaBlock {
    /// The statements of the block, in order.
    pub fn get_stats(&self) -> (r: Vec<LuaStat>)
        ensures
            r@.map_values(|n: LuaStat| n.node_of()) == fitting::<LuaStat>(self.node_of().children@),
    {
        children::<LuaStat>(&*self.syntax)
    }
}

/// A name declared by a local statement.
#[derive(Debug, Clone, PartialEq, Eq, Hash)]
pub struct LuaLocalName {
    syntax: Rc<LuaSyntaxNode>,
}

impl LuaAstNode for LuaLocalName {
    open spec fn kind_fits(kind: LuaSyntaxKind) -> bool {
        kind == LuaSyntaxKind::LocalName
    }

    closed spec fn node_of(&self) -> Rc<LuaSyntaxNode> {
        self.syntax
    }

    fn syntax(&self) -> (r: &Rc<LuaSyntaxNode>) {
        &self.syntax
    }

    fn can_cast(kind: LuaSyntaxKind) -> (r: bool) {
        kind == LuaSyntaxKind::LocalName
    }

    fn cast(syntax: Rc<LuaSyntaxNode>) -> (r: Option<Self>) {
        if Self::can_cast(syntax.kind) {
            Some(Self { syntax })
        } else {
            None
        }
    }
}

impl LuaLocalName {
    /// The name token.
    pub fn get_name_token(&self) -> (r: Option<LuaNameToken>)
        ensures
            is_first_token::<LuaNameToken>(self.node_of().children@, r),
    {
        token::<LuaNameToken>(&*self.syntax)
    }

    /// The attribute, such as `<const>` or `<close>`.
    pub fn get_attrib(&self) -> (r: Option<LuaLocalAttribute>)
        ensures
            is_first_child::<LuaLocalAttribute>(self.node_of().children@, r),
    {
        child::<LuaLocalAttribute>(&*self.syntax)
    }
}

/// The arguments of a call.
#[derive(Debug, Clone, PartialEq, Eq, Hash)]
pub struct LuaCallArgList {
    syntax: Rc<LuaSyntaxNode>,
}

impl LuaAstNode for LuaCallArgList {
    open spec fn kind_fits(kind: LuaSyntaxKind) -> bool {
        kind == LuaSyntaxKind::CallArgList
    }

    closed spec fn node_of(&self) -> Rc<LuaSyntaxNode> {
        self.syntax
    }

    fn syntax(&self) -> (r: &Rc<LuaSyntaxNode>) {
        &self.syntax
    }

    fn can_cast(kind: LuaSyntaxKind) -> (r: bool) {
        kind == LuaSyntaxKind::CallArgList
    }

    fn cast(syntax: Rc<LuaSyntaxNode>) -> (r: Option<Self>) {
        if Self::can_cast(syntax.kind) {
            Some(Self { syntax })
        } else {
            None
        }
    }
}

impl LuaCallArgList {
    /// Whether the arguments are written without parentheses, as in `f "x"` or
    /// `f {}`.
    pub fn is_single_arg_no_parens(&self) -> (r: bool)
        ensures
            r == forall|i: int|
                0 <= i < self.node_of().children@.len() ==> !crate::ast::token_is(
                    #[trigger] self.node_of().children@[i],
                    LuaTokenKind::TkLeftParen,
                ),
    {
        token_by_kind(&*self.syntax, LuaTokenKind::TkLeftParen).is_none()
    }

    /// The argument expressions, in order.
    pub fn get_args(&self) -> (r: Vec<LuaExpr>)
        ensures
            r@.map_values(|n: LuaExpr| n.node_of()) == fitting::<LuaExpr>(self.node_of().children@),
    {
        children::<LuaExpr>(&*self.syntax)
    }

    /// The single argument of a call written without parentheses.
    pub fn get_single_arg_expr(&self) -> (r: Option<LuaSingleArgExpr>)
        ensures
            is_first_child::<LuaSingleArgExpr>(self.node_of().children@, r),
    {
        child::<LuaSingleArgExpr>(&*self.syntax)
    }
}

/// The attribute of a local name, such as `<const>` or `<close>`.
#[derive(Debug, Clone, PartialEq, Eq, Hash)]
pub struct LuaLocalAttribute {
    syntax: Rc<LuaSyntaxNode>,
}

impl LuaAstNode for LuaLocalAttribute {
    open spec fn kind_fits(kind: LuaSyntaxKind) -> bool {
        kind == LuaSyntaxKind::Attribute
    }

    closed spec fn node_of(&self) -> Rc<LuaSyntaxNode> {
        self.syntax
    }

    fn syntax(&self) -> (r: &Rc<LuaSyntaxNode>) {
        &self.syntax
    }

    fn can_cast(kind: LuaSyntaxKind) -> (r: bool) {
        kind == LuaSyntaxKind::Attribute
    }

    fn cast(syntax: Rc<LuaSyntaxNode>) -> (r: Option<Self>) {
        if Self::can_cast(syntax.kind) {
            Some(Self { syntax })
        } else {
            None
        }
    }
}

/// The attribute has a name token and it reads `word`.
pub open spec fn attribute_named(a: LuaLocalAttribute, word: Seq<char>) -> bool {
    exists|t: LuaNameToken|
        is_first_token::<LuaNameToken>(a.node_of().children@, Some(t)) && #[trigger] t.token_of().text@
            == word
}

impl LuaLocalAttribute {
    /// The name token of the attribute.
    pub fn get_name_token(&self) -> (r: Option<LuaNameToken>)
        ensures
            is_first_token::<LuaNameToken>(self.node_of().children@, r),
    {
        token::<LuaNameToken>(&*self.syntax)
    }

    /// Whether this is the attribute `<close>`.
    pub fn is_close(&self) -> (r: bool)
        ensures
            r == attribute_named(*self, "close"@),
    {
        match self.get_name_token() {
            None => {
                proof {
                    self.lemma_first_name_unique(None);
                }
                false
            },
            Some(name_token) => {
                proof {
                    self.lemma_first_name_unique(Some(name_token));
                }
                str_eq(name_token.get_name_text(), "close")
            },
        }
    }

    /// Whether this is the attribute `<const>`.
    pub fn is_const(&self) -> (r: bool)
        ensures
            r == attribute_named(*self, "const"@),
    {
        match self.get_name_token() {
            None => {
                proof {
                    self.lemma_first_name_unique(None);
                }
                false
            },
            Some(name_token) => {
                proof {
                    self.lemma_first_name_unique(Some(name_token));
                }
                str_eq(name_token.get_name_text(), "const")
            },
        }
    }

    /// There is one first name token.
    proof fn lemma_first_name_unique(&self, r: Option<LuaNameToken>)
        requires
            is_first_token::<LuaNameToken>(self.node_of().children@, r),
        ensures
            forall|t: LuaNameToken|
                #![trigger t.token_of()]
                is_first_token::<LuaNameToken>(self.node_of().children@, Some(t)) ==> r == Some(t)
                    || (r matches Some(u) && u.token_of() == t.token_of()),
            r is None ==> forall|t: LuaNameToken|
                !is_first_token::<LuaNameToken>(self.node_of().children@, Some(t)),
    {
        let s = self.node_of().children@;
        assert forall|t: LuaNameToken|
            #![trigger t.token_of()]
            is_first_token::<LuaNameToken>(s, Some(t)) implies r == Some(t) || (r matches Some(u)
                && u.token_of() == t.token_of()) by {
            let i = choose|i: int|
                0 <= i < s.len() && crate::ast::token_fits::<LuaNameToken>(#[trigger] s[i])
                    && crate::ast::elem_token(s[i]) == t.token_of() && forall|j: int|
                    0 <= j < i ==> !crate::ast::token_fits::<LuaNameToken>(#[trigger] s[j]);
            match r {
                Some(u) => {
                    let k = choose|k: int|
                        0 <= k < s.len() && crate::ast::token_fits::<LuaNameToken>(#[trigger] s[k])
                            && crate::ast::elem_token(s[k]) == u.token_of() && forall|j: int|
                            0 <= j < k ==> !crate::ast::token_fits::<LuaNameToken>(#[trigger] s[j]);
                    if i < k {
                        assert(!crate::ast::token_fits::<LuaNameToken>(s[i]));
                    } else if k < i {
                        assert(!crate::ast::token_fits::<LuaNameToken>(s[k]));
                    }
                },
                None => {
                    assert(!crate::ast::token_fits::<LuaNameToken>(s[i]));
                },
            }
        }
    }
}

/// A field of a table constructor: `k = v`, `[k] = v` or a bare value.
#[derive(Debug, Clone, PartialEq, Eq, Hash)]
pub struct LuaTableField {
    syntax: Rc<LuaSyntaxNode>,
}

impl LuaAstNode for LuaTableField {
    open spec fn kind_fits(kind: LuaSyntaxKind) -> bool {
        kind == LuaSyntaxKind::TableFieldAssign || kind == LuaSyntaxKind::TableFieldValue
    }

    closed spec fn node_of(&self) -> Rc<LuaSyntaxNode> {
        self.syntax
    }

    fn syntax(&self) -> (r: &Rc<LuaSyntaxNode>) {
        &self.syntax
    }

    fn can_cast(kind: LuaSyntaxKind) -> (r: bool) {
        kind == LuaSyntaxKind::TableFieldAssign || kind == LuaSyntaxKind::TableFieldValue
    }

    fn cast(syntax: Rc<LuaSyntaxNode>) -> (r: Option<Self>) {
        if Self::can_cast(syntax.kind) {
            Some(Self { syntax })
        } else {
            None
        }
    }
}

/// A field key as plain values.
pub enum FieldKeyView {
    Name(Rc<LuaSyntaxToken>),
    String(Rc<LuaSyntaxToken>),
    Integer(Rc<LuaSyntaxToken>),
    Expr(Rc<LuaSyntaxNode>),
}

/// The key that the child right after `[` gives: a string or number literal
/// gives itself, any other expression gives the expression; a token gives none.
pub open spec fn key_after_bracket(e: LuaSyntaxElement) -> Option<FieldKeyView> {
    match e {
        LuaSyntaxElement::Token(_) => None,
        LuaSyntaxElement::Node(n) => if n.kind == LuaSyntaxKind::LiteralExpr {
            match first_literal(n.children@) {
                Some(t) => if t.kind == LuaTokenKind::TkString || t.kind == LuaTokenKind::TkLongString {
                    Some(FieldKeyView::String(t))
                } else if t.kind == LuaTokenKind::TkInt || t.kind == LuaTokenKind::TkFloat {
                    Some(FieldKeyView::Integer(t))
                } else {
                    Some(FieldKeyView::Expr(n))
                },
                None => Some(FieldKeyView::Expr(n)),
            }
        } else {
            Some(FieldKeyView::Expr(n))
        },
    }
}

/// The key found by scanning the children of a field from position `i`: before
/// a `[`, the first name token is the key; after it, the next child decides.
pub open spec fn scan_key(s: Seq<LuaSyntaxElement>, i: int, meet: bool) -> Option<FieldKeyView>
    decreases s.len() - i,
{
    if i < 0 || i >= s.len() {
        None
    } else if meet {
        key_after_bracket(s[i])
    } else {
        match s[i] {
            LuaSyntaxElement::Token(t) => if t.kind == LuaTokenKind::TkLeftBracket {
                scan_key(s, i + 1, true)
            } else if t.kind == LuaTokenKind::TkName {
                Some(FieldKeyView::Name(t))
            } else {
                scan_key(s, i + 1, false)
            },
            LuaSyntaxElement::Node(_) => scan_key(s, i + 1, false),
        }
    }
}

/// The scan of the children of a field from position `i` meets, right after a
/// `[`, either a token or an expression node.
pub open spec fn scan_key_ok(s: Seq<LuaSyntaxElement>, i: int, meet: bool) -> bool
    decreases s.len() - i,
{
    if i < 0 || i >= s.len() {
        true
    } else if meet {
        match s[i] {
            LuaSyntaxElement::Node(n) => is_expr_kind(n.kind),
            LuaSyntaxElement::Token(_) => true,
        }
    } else {
        match s[i] {
            LuaSyntaxElement::Token(t) => if t.kind == LuaTokenKind::TkLeftBracket {
                scan_key_ok(s, i + 1, true)
            } else if t.kind == LuaTokenKind::TkName {
                true
            } else {
                scan_key_ok(s, i + 1, false)
            },
            LuaSyntaxElement::Node(_) => scan_key_ok(s, i + 1, false),
        }
    }
}

/// The key of a table field, for fields of the form `k = v` or `[k] = v`.
pub open spec fn field_key(n: LuaSyntaxNode) -> Option<FieldKeyView> {
    if n.kind != LuaSyntaxKind::TableFieldAssign {
        None
    } else {
        scan_key(n.children@, 0, false)
    }
}

/// A key of a field as plain values.
pub open spec fn key_view(k: LuaIndexKey) -> FieldKeyView {
    match k {
        LuaIndexKey::Name(t) => FieldKeyView::Name(t.token_of()),
        LuaIndexKey::String(t) => FieldKeyView::String(t.token_of()),
        LuaIndexKey::Integer(t) => FieldKeyView::Integer(t.token_of()),
        LuaIndexKey::Expr(e) => FieldKeyView::Expr(e.node_of()),
    }
}

/// An optional key as plain values.
pub open spec fn opt_key_view(k: Option<LuaIndexKey>) -> Option<FieldKeyView> {
    match k {
        Some(x) => Some(key_view(x)),
        None => None,
    }
}

impl LuaTableField {
    /// Whether the field has the form `k = v` or `[k] = v`.
    pub fn is_assign_field(&self) -> (r: bool)
        ensures
            r == (self.node_of().kind == LuaSyntaxKind::TableFieldAssign),
    {
        self.syntax.kind == LuaSyntaxKind::TableFieldAssign
    }

    /// Whether the field is a bare value.
    pub fn is_value_field(&self) -> (r: bool)
        ensures
            r == (self.node_of().kind == LuaSyntaxKind::TableFieldValue),
    {
        self.syntax.kind == LuaSyntaxKind::TableFieldValue
    }

    /// Whether `get_field_key` may be asked for the key: the field is a bare
    /// value, or what follows its `[`, if anything, is a token or an expression.
    pub fn has_well_formed_key(&self) -> (r: bool)
        ensures
            r == (self.node_of().kind == LuaSyntaxKind::TableFieldAssign ==> scan_key_ok(
                self.node_of().children@,
                0,
                false,
            )),
    {
        if !self.is_assign_field() {
            return true;
        }
        let node: &LuaSyntaxNode = &*self.syntax;
        let ghost s = node.children@;
        let mut meet_left_bracket = false;
        let mut i: usize = 0;
        while i < node.children.len()
            invariant
                i <= s.len(),
                s == node.children@,
                s == self.node_of().children@,
                self.node_of().kind == LuaSyntaxKind::TableFieldAssign,
                scan_key_ok(s, 0, false) == scan_key_ok(s, i as int, meet_left_bracket),
            decreases node.children.len() - i,
        {
            if meet_left_bracket {
                match &node.children[i] {
                    LuaSyntaxElement::Node(n) => {
                        return expr_kind(n.kind);
                    },
                    LuaSyntaxElement::Token(_) => {
                        return true;
                    },
                }
            } else {
                match &node.children[i] {
                    LuaSyntaxElement::Token(t) => {
                        if t.kind == LuaTokenKind::TkLeftBracket {
                            meet_left_bracket = true;
                        } else if t.kind == LuaTokenKind::TkName {
                            return true;
                        }
                    },
                    LuaSyntaxElement::Node(_) => {},
                }
            }
            i = i + 1;
        }
        true
    }

    /// The key of a field of the form `k = v` or `[k] = v`; see `field_key`.
    pub fn get_field_key(&self) -> (r: Option<LuaIndexKey>)
        requires
            self.node_of().kind == LuaSyntaxKind::TableFieldAssign ==> scan_key_ok(
                self.node_of().children@,
                0,
                false,
            ),
        ensures
            opt_key_view(r) == field_key(*self.node_of()),
    {
        if !self.is_assign_field() {
            return None;
        }
        let node: &LuaSyntaxNode = &*self.syntax;
        let ghost s = node.children@;
        let mut meet_left_bracket = false;
        let mut i: usize = 0;
        while i < node.children.len()
            invariant
                i <= s.len(),
                s == node.children@,
                s == self.node_of().children@,
                self.node_of().kind == LuaSyntaxKind::TableFieldAssign,
                scan_key(s, 0, false) == scan_key(s, i as int, meet_left_bracket),
                scan_key_ok(s, i as int, meet_left_bracket),
            decreases node.children.len() - i,
        {
            if meet_left_bracket {
                match &node.children[i] {
                    LuaSyntaxElement::Node(n) => {
                        if LuaLiteralExpr::can_cast(n.kind) {
                            let literal_expr = LuaLiteralExpr::cast(n.clone()).unwrap();
                            if let Some(literal_token) = literal_expr.get_literal() {
                                match literal_token {
                                    LuaLiteralToken::String(t) => {
                                        return Some(LuaIndexKey::String(t));
                                    },
                                    LuaLiteralToken::Number(t) => {
                                        return Some(LuaIndexKey::Integer(t));
                                    },
                                    _ => {},
                                }
                            }
                        }
                        return Some(LuaIndexKey::Expr(LuaExpr::cast(n.clone()).unwrap()));
                    },
                    _ => {
                        return None;
                    },
                }
            } else {
                match &node.children[i] {
                    LuaSyntaxElement::Token(t) => {
                        if t.kind == LuaTokenKind::TkLeftBracket {
                            meet_left_bracket = true;
                        } else if t.kind == LuaTokenKind::TkName {
                            return Some(LuaIndexKey::Name(LuaNameToken::cast(t.clone()).unwrap()));
                        }
                    },
                    LuaSyntaxElement::Node(_) => {},
                }
            }
            i = i + 1;
        }
        None
    }

    /// The value expression: the last expression of a field `k = v` or
    /// `[k] = v`, the only one of a bare value.
    pub fn get_value_expr(&self) -> (r: Option<LuaExpr>)
        ensures
            self.node_of().kind == LuaSyntaxKind::TableFieldAssign ==> is_last_child::<LuaExpr>(
                self.node_of().children@,
                r,
            ),
            self.node_of().kind != LuaSyntaxKind::TableFieldAssign ==> is_first_child::<LuaExpr>(
                self.node_of().children@,
                r,
            ),
    {
        if self.is_assign_field() {
            last_child::<LuaExpr>(&*self.syntax)
        } else {
            child::<LuaExpr>(&*self.syntax)
        }
    }
}

/// The key of a table field or of an index expression.
#[derive(Debug, Clone, PartialEq, Eq, Hash)]
pub enum LuaIndexKey {
    Name(LuaNameToken),
    String(LuaStringToken),
    Integer(LuaNumberToken),
    Expr(LuaExpr),
}

/// The segment that a key contributes to a path: a name as it reads, the value
/// of a string, and an integer or any other expression in square brackets.
pub open spec fn path_part(k: LuaIndexKey) -> Seq<char> {
    match k {
        LuaIndexKey::String(t) => string_value(t.token_of().text@),
        LuaIndexKey::Name(t) => t.token_of().text@,
        LuaIndexKey::Integer(t) => seq!['['] + signed_decimal(int_value(t.token_of().text@)) + seq![']'],
        LuaIndexKey::Expr(e) => seq!['['] + node_text(*e.node_of()) + seq![']'],
    }
}

impl LuaIndexKey {
    /// Whether the key is a name.
    pub fn is_name(&self) -> (r: bool)
        ensures
            r == (*self is Name),
    {
        matches!(self, LuaIndexKey::Name(_))
    }

    /// Whether the key is a string literal.
    pub fn is_string(&self) -> (r: bool)
        ensures
            r == (*self is String),
    {
        matches!(self, LuaIndexKey::String(_))
    }

    /// Whether the key is a number literal.
    pub fn is_integer(&self) -> (r: bool)
        ensures
            r == (*self is Integer),
    {
        matches!(self, LuaIndexKey::Integer(_))
    }

    /// Whether the key is another expression.
    pub fn is_expr(&self) -> (r: bool)
        ensures
            r == (*self is Expr),
    {
        matches!(self, LuaIndexKey::Expr(_))
    }

    /// The name token of a name key.
    pub fn get_name(&self) -> (r: Option<&LuaNameToken>)
        ensures
            match *self {
                LuaIndexKey::Name(t) => r == Some(&t),
                _ => r is None,
            },
    {
        match self {
            LuaIndexKey::Name(token) => Some(token),
            _ => None,
        }
    }

    /// The string token of a string key.
    pub fn get_string(&self) -> (r: Option<&LuaStringToken>)
        ensures
            match *self {
                LuaIndexKey::String(t) => r == Some(&t),
                _ => r is None,
            },
    {
        match self {
            LuaIndexKey::String(token) => Some(token),
            _ => None,
        }
    }

    /// The number token of an integer key.
    pub fn get_integer(&self) -> (r: Option<&LuaNumberToken>)
        ensures
            match *self {
                LuaIndexKey::Integer(t) => r == Some(&t),
                _ => r is None,
            },
    {
        match self {
            LuaIndexKey::Integer(token) => Some(token),
            _ => None,
        }
    }

    /// The expression of an expression key.
    pub fn get_expr(&self) -> (r: Option<&LuaExpr>)
        ensures
            match *self {
                LuaIndexKey::Expr(e) => r == Some(&e),
                _ => r is None,
            },
    {
        match self {
            LuaIndexKey::Expr(expr) => Some(expr),
            _ => None,
        }
    }

    /// The segment that the key contributes to a path; see `path_part`.
    pub fn get_path_part(&self) -> (r: String)
        ensures
            r@ == path_part(*self),
    {
        match self {
            LuaIndexKey::String(s) => s.get_value(),
            LuaIndexKey::Name(name) => name.get_name_text().to_owned(),
            LuaIndexKey::Integer(i) => {
                let mut r = String::new();
                push_char(&mut r, '[');
                let digits = i64_to_decimal(i.get_int_value());
                r.append(digits.as_str());
                push_char(&mut r, ']');
                proof {
                    assert(r@ =~= path_part(*self));
                }
                r
            },
            LuaIndexKey::Expr(expr) => {
                let mut r = String::new();
                push_char(&mut r, '[');
                expr.syntax().push_text(&mut r);
                push_char(&mut r, ']');
                proof {
                    assert(r@ =~= path_part(*self));
                }
                r
            },
        }
    }
}

/// A parameter name.
#[derive(Debug, Clone, PartialEq, Eq, Hash)]
pub struct LuaParamName {
    syntax: Rc<LuaSyntaxNode>,
}

impl LuaAstNode for LuaParamName {
    open spec fn kind_fits(kind: LuaSyntaxKind) -> bool {
        kind == LuaSyntaxKind::ParamName
    }

    closed spec fn node_of(&self) -> Rc<LuaSyntaxNode> {
        self.syntax
    }

    fn syntax(&self) -> (r: &Rc<LuaSyntaxNode>) {
        &self.syntax
    }

    fn can_cast(kind: LuaSyntaxKind) -> (r: bool) {
        kind == LuaSyntaxKind::ParamName
    }

    fn cast(syntax: Rc<LuaSyntaxNode>) -> (r: Option<Self>) {
        if Self::can_cast(syntax.kind) {
            Some(Self { syntax })
        } else {
            None
        }
    }
}

impl LuaParamName {
    /// The name token of the parameter.
    pub fn get_name_token(&self) -> (r: Option<LuaNameToken>)
        ensures
            is_first_token::<LuaNameToken>(self.node_of().children@, r),
    {
        token::<LuaNameToken>(&*self.syntax)
    }

    /// Whether the parameter is `...`.
    pub fn is_dots(&self) -> (r: bool)
        ensures
            r == exists|i: int|
                0 <= i < self.node_of().children@.len() && crate::ast::token_is(
                    #[trigger] self.node_of().children@[i],
                    LuaTokenKind::TkDots,
                ),
    {
        token_by_kind(&*self.syntax, LuaTokenKind::TkDots).is_some()
    }
}

/// A parameter list.
#[derive(Debug, Clone, PartialEq, Eq, Hash)]
pub struct LuaParamList {
    syntax: Rc<LuaSyntaxNode>,
}

impl LuaAstNode for LuaParamList {
    open spec fn kind_fits(kind: LuaSyntaxKind) -> bool {
        kind == LuaSyntaxKind::ParamList
    }

    closed spec fn node_of(&self) -> Rc<LuaSyntaxNode> {
        self.syntax
    }

    fn syntax(&self) -> (r: &Rc<LuaSyntaxNode>) {
        &self.syntax
    }

    fn can_cast(kind: LuaSyntaxKind) -> (r: bool) {
        kind == LuaSyntaxKind::ParamList
    }

    fn cast(syntax: Rc<LuaSyntaxNode>) -> (r: Option<Self>) {
        if Self::can_cast(syntax.kind) {
            Some(Self { syntax })
        } else {
            None
        }
    }
}

impl LuaParamList {
    /// The parameters, in order.
    pub fn get_params(&self) -> (r: Vec<LuaParamName>)
        ensures
            r@.map_values(|n: LuaParamName| n.node_of()) == fitting::<LuaParamName>(
                self.node_of().children@,
            ),
    {
        children::<LuaParamName>(&*self.syntax)
    }
}

} // verus!
