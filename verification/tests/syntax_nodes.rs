use std::rc::Rc;

use emmylua_index::ast::{LuaAstNode, LuaAstToken};
use emmylua_index::expr::{LuaExpr, LuaLiteralExpr, LuaLiteralToken, LuaStat};
use emmylua_index::lua_nodes::{
    LuaBlock, LuaCallArgList, LuaChunk, LuaIndexKey, LuaLocalAttribute, LuaLocalName, LuaParamList,
    LuaParamName, LuaTableField,
};
use emmylua_index::syntax::{LuaSyntaxElement, LuaSyntaxKind, LuaSyntaxNode, LuaSyntaxToken, LuaTokenKind};
use emmylua_index::tokens::{LuaNameToken, LuaNumberToken, LuaStringToken};

fn token(kind: LuaTokenKind, text: &str) -> Rc<LuaSyntaxToken> {
    Rc::new(LuaSyntaxToken { kind, text: text.to_string() })
}

fn tok(kind: LuaTokenKind, text: &str) -> LuaSyntaxElement {
    LuaSyntaxElement::Token(token(kind, text))
}

fn node(kind: LuaSyntaxKind, children: Vec<LuaSyntaxElement>) -> Rc<LuaSyntaxNode> {
    Rc::new(LuaSyntaxNode { kind, children })
}

fn sub(kind: LuaSyntaxKind, children: Vec<LuaSyntaxElement>) -> LuaSyntaxElement {
    LuaSyntaxElement::Node(node(kind, children))
}

fn literal(kind: LuaTokenKind, text: &str) -> LuaSyntaxElement {
    sub(LuaSyntaxKind::LiteralExpr, vec![tok(kind, text)])
}

fn name_expr(name: &str) -> LuaSyntaxElement {
    sub(LuaSyntaxKind::NameExpr, vec![tok(LuaTokenKind::TkName, name)])
}

fn field(children: Vec<LuaSyntaxElement>) -> LuaTableField {
    LuaTableField::cast(node(LuaSyntaxKind::TableFieldAssign, children)).expect("field")
}

#[test]
fn casts_follow_the_node_kind() {
    let chunk_node = node(LuaSyntaxKind::Chunk, vec![]);
    let chunk = LuaChunk::cast(chunk_node.clone()).expect("chunk");
    assert!(Rc::ptr_eq(chunk.syntax(), &chunk_node));
    assert!(LuaChunk::cast(node(LuaSyntaxKind::Block, vec![])).is_none());
    assert!(LuaBlock::can_cast(LuaSyntaxKind::Block));
    assert!(!LuaBlock::can_cast(LuaSyntaxKind::Chunk));
    assert!(LuaExpr::cast(node(LuaSyntaxKind::CallExpr, vec![])).is_some());
    assert!(LuaExpr::cast(node(LuaSyntaxKind::LocalStat, vec![])).is_none());
    assert!(LuaStat::cast(node(LuaSyntaxKind::LocalStat, vec![])).is_some());
    assert!(LuaTableField::cast(node(LuaSyntaxKind::TableFieldValue, vec![])).is_some());
    assert!(LuaNameToken::cast(token(LuaTokenKind::TkString, "\"x\"")).is_none());
    assert!(LuaNumberToken::can_cast(LuaTokenKind::TkFloat));
}

#[test]
fn chunk_block_and_statements() {
    let block = sub(
        LuaSyntaxKind::Block,
        vec![
            sub(LuaSyntaxKind::LocalStat, vec![]),
            tok(LuaTokenKind::TkWhitespace, " "),
            sub(LuaSyntaxKind::Comment, vec![]),
            sub(LuaSyntaxKind::ReturnStat, vec![]),
        ],
    );
    let chunk = LuaChunk::cast(node(LuaSyntaxKind::Chunk, vec![tok(LuaTokenKind::TkEndOfLine, "\n"), block]))
        .unwrap();
    let block = chunk.get_block().expect("block");
    let stats = block.get_stats();
    assert_eq!(stats.len(), 2);
    assert_eq!(stats[0].syntax().kind, LuaSyntaxKind::LocalStat);
    assert_eq!(stats[1].syntax().kind, LuaSyntaxKind::ReturnStat);
    let empty = LuaChunk::cast(node(LuaSyntaxKind::Chunk, vec![])).unwrap();
    assert!(empty.get_block().is_none());
}

#[test]
fn local_names_and_their_attributes() {
    let attrib = |word: &str| {
        sub(
            LuaSyntaxKind::Attribute,
            vec![tok(LuaTokenKind::TkLt, "<"), tok(LuaTokenKind::TkName, word), tok(LuaTokenKind::TkGt, ">")],
        )
    };
    let closing = LuaLocalName::cast(node(
        LuaSyntaxKind::LocalName,
        vec![tok(LuaTokenKind::TkName, "x"), attrib("close")],
    ))
    .unwrap();
    assert_eq!(closing.get_name_token().unwrap().get_name_text(), "x");
    let a = closing.get_attrib().expect("attribute");
    assert!(a.is_close());
    assert!(!a.is_const());
    assert_eq!(a.get_name_token().unwrap().get_name_text(), "close");
    let constant = LuaLocalName::cast(node(LuaSyntaxKind::LocalName, vec![tok(LuaTokenKind::TkName, "y"), attrib("const")]))
        .unwrap();
    assert!(constant.get_attrib().unwrap().is_const());
    let plain = LuaLocalName::cast(node(LuaSyntaxKind::LocalName, vec![tok(LuaTokenKind::TkName, "z")])).unwrap();
    assert!(plain.get_attrib().is_none());
    let bare = LuaLocalAttribute::cast(node(LuaSyntaxKind::Attribute, vec![])).unwrap();
    assert!(!bare.is_close());
    assert!(!bare.is_const());
}

#[test]
fn call_arguments_with_and_without_parentheses() {
    let args = LuaCallArgList::cast(node(
        LuaSyntaxKind::CallArgList,
        vec![
            tok(LuaTokenKind::TkLeftParen, "("),
            literal(LuaTokenKind::TkInt, "1"),
            tok(LuaTokenKind::TkComma, ","),
            name_expr("a"),
            tok(LuaTokenKind::TkRightParen, ")"),
        ],
    ))
    .unwrap();
    assert!(!args.is_single_arg_no_parens());
    let list = args.get_args();
    assert_eq!(list.len(), 2);
    assert_eq!(list[0].syntax().kind, LuaSyntaxKind::LiteralExpr);
    assert_eq!(list[1].syntax().kind, LuaSyntaxKind::NameExpr);
    assert!(args.get_single_arg_expr().is_some());

    let single = LuaCallArgList::cast(node(
        LuaSyntaxKind::CallArgList,
        vec![sub(LuaSyntaxKind::TableEmptyExpr, vec![])],
    ))
    .unwrap();
    assert!(single.is_single_arg_no_parens());
    assert_eq!(single.get_single_arg_expr().unwrap().syntax().kind, LuaSyntaxKind::TableEmptyExpr);

    let by_name = LuaCallArgList::cast(node(LuaSyntaxKind::CallArgList, vec![name_expr("v")])).unwrap();
    assert!(by_name.get_single_arg_expr().is_none());
}

#[test]
fn field_keys_by_form() {
    let named = field(vec![tok(LuaTokenKind::TkName, "k"), tok(LuaTokenKind::TkAssign, "="), literal(LuaTokenKind::TkInt, "1")]);
    assert!(named.is_assign_field());
    assert!(!named.is_value_field());
    let key = named.get_field_key().expect("key");
    assert!(key.is_name());
    assert_eq!(key.get_name().unwrap().get_name_text(), "k");
    assert_eq!(key.get_path_part(), "k");
    assert_eq!(named.get_value_expr().unwrap().syntax().kind, LuaSyntaxKind::LiteralExpr);

    let bracket = |inner: LuaSyntaxElement| {
        field(vec![
            tok(LuaTokenKind::TkLeftBracket, "["),
            inner,
            tok(LuaTokenKind::TkRightBracket, "]"),
            tok(LuaTokenKind::TkAssign, "="),
            name_expr("v"),
        ])
    };

    let string_key = bracket(literal(LuaTokenKind::TkString, "'a\\nb'")).get_field_key().unwrap();
    assert!(string_key.is_string());
    assert_eq!(string_key.get_path_part(), "a\nb");
    assert_eq!(string_key.get_string().unwrap().get_value(), "a\nb");

    let int_key = bracket(literal(LuaTokenKind::TkInt, "0x10")).get_field_key().unwrap();
    assert!(int_key.is_integer());
    assert_eq!(int_key.get_integer().unwrap().get_int_value(), 16);
    assert_eq!(int_key.get_path_part(), "[16]");

    let expr_key = bracket(name_expr("x")).get_field_key().unwrap();
    assert!(expr_key.is_expr());
    assert_eq!(expr_key.get_expr().unwrap().syntax().kind, LuaSyntaxKind::NameExpr);
    assert!(expr_key.get_name().is_none());
    assert!(int_key.get_expr().is_none());
    assert_eq!(expr_key.get_path_part(), "[x]");

    let bool_key = bracket(literal(LuaTokenKind::TkTrue, "true")).get_field_key().unwrap();
    assert!(bool_key.is_expr());
    assert_eq!(bool_key.get_path_part(), "[true]");

    let value = LuaTableField::cast(node(LuaSyntaxKind::TableFieldValue, vec![name_expr("w")])).unwrap();
    assert!(value.is_value_field());
    assert!(value.get_field_key().is_none());
    assert_eq!(value.get_value_expr().unwrap().syntax().kind, LuaSyntaxKind::NameExpr);

    let broken = field(vec![tok(LuaTokenKind::TkLeftBracket, "["), tok(LuaTokenKind::TkRightBracket, "]")]);
    assert!(broken.get_field_key().is_none());
}

#[test]
fn parameters_in_order() {
    let params = LuaParamList::cast(node(
        LuaSyntaxKind::ParamList,
        vec![
            tok(LuaTokenKind::TkLeftParen, "("),
            sub(LuaSyntaxKind::ParamName, vec![tok(LuaTokenKind::TkName, "a")]),
            tok(LuaTokenKind::TkComma, ","),
            sub(LuaSyntaxKind::ParamName, vec![tok(LuaTokenKind::TkDots, "...")]),
            tok(LuaTokenKind::TkRightParen, ")"),
        ],
    ))
    .unwrap();
    let list = params.get_params();
    assert_eq!(list.len(), 2);
    assert_eq!(list[0].get_name_token().unwrap().get_name_text(), "a");
    assert!(!list[0].is_dots());
    assert!(list[1].is_dots());
    assert!(list[1].get_name_token().is_none());
    assert!(LuaParamName::cast(node(LuaSyntaxKind::ParamList, vec![])).is_none());
}

#[test]
fn string_literal_values() {
    let value = |kind: LuaTokenKind, text: &str| LuaStringToken::cast(token(kind, text)).unwrap().get_value();
    assert_eq!(value(LuaTokenKind::TkString, "\"hello\""), "hello");
    assert_eq!(value(LuaTokenKind::TkString, "'tab\\there'"), "tab\there");
    assert_eq!(value(LuaTokenKind::TkString, "\"q\\\"q\""), "q\"q");
    assert_eq!(value(LuaTokenKind::TkString, "\"open"), "open");
    assert_eq!(value(LuaTokenKind::TkLongString, "[[abc]]"), "abc");
    assert_eq!(value(LuaTokenKind::TkLongString, "[==[\nline]==]"), "line");
    assert_eq!(value(LuaTokenKind::TkLongString, "[==[\r\nx]]]==]"), "x]]");
}

#[test]
fn integer_literal_values() {
    let value = |kind: LuaTokenKind, text: &str| LuaNumberToken::cast(token(kind, text)).unwrap().get_int_value();
    assert_eq!(value(LuaTokenKind::TkInt, "123"), 123);
    assert_eq!(value(LuaTokenKind::TkInt, "0xff"), 255);
    assert_eq!(value(LuaTokenKind::TkInt, "0XFF"), 255);
    assert_eq!(value(LuaTokenKind::TkInt, "9223372036854775807"), i64::MAX);
    assert_eq!(value(LuaTokenKind::TkInt, "9223372036854775808"), 0);
    assert_eq!(value(LuaTokenKind::TkFloat, "1.5"), 0);
    assert_eq!(value(LuaTokenKind::TkInt, "0x"), 0);
}

#[test]
fn literal_expressions_give_their_token() {
    let lit = |kind: LuaTokenKind, text: &str| {
        LuaLiteralExpr::cast(node(LuaSyntaxKind::LiteralExpr, vec![tok(kind, text)])).unwrap().get_literal()
    };
    assert!(matches!(lit(LuaTokenKind::TkNil, "nil"), Some(LuaLiteralToken::Nil(_))));
    assert!(matches!(lit(LuaTokenKind::TkFalse, "false"), Some(LuaLiteralToken::Bool(_))));
    assert!(matches!(lit(LuaTokenKind::TkDots, "..."), Some(LuaLiteralToken::Dots(_))));
    assert!(matches!(lit(LuaTokenKind::TkLongString, "[[s]]"), Some(LuaLiteralToken::String(_))));
    assert!(matches!(lit(LuaTokenKind::TkFloat, "2.0"), Some(LuaLiteralToken::Number(_))));
    assert!(lit(LuaTokenKind::TkName, "x").is_none());
    assert_eq!(lit(LuaTokenKind::TkInt, "7").unwrap().syntax().text, "7");
}

#[test]
fn node_text_joins_the_tokens() {
    let n = node(
        LuaSyntaxKind::CallExpr,
        vec![name_expr("f"), sub(LuaSyntaxKind::CallArgList, vec![tok(LuaTokenKind::TkLeftParen, "("), tok(LuaTokenKind::TkRightParen, ")")])],
    );
    assert_eq!(n.text(), "f()");
    let key = LuaIndexKey::Expr(LuaExpr::cast(n).unwrap());
    assert_eq!(key.get_path_part(), "[f()]");
}

fn binary(left: LuaSyntaxElement, op: &str, right: LuaSyntaxElement) -> LuaSyntaxElement {
    sub(LuaSyntaxKind::BinaryExpr, vec![left, tok(LuaTokenKind::TkPlus, op), right])
}

#[test]
fn expression_keys_keep_their_whole_text() {
    let bracket = |inner: LuaSyntaxElement| {
        field(vec![
            tok(LuaTokenKind::TkLeftBracket, "["),
            inner,
            tok(LuaTokenKind::TkRightBracket, "]"),
            tok(LuaTokenKind::TkAssign, "="),
            name_expr("v"),
        ])
    };
    let sum = bracket(binary(name_expr("x"), "+", literal(LuaTokenKind::TkInt, "1")));
    assert!(sum.has_well_formed_key());
    let key = sum.get_field_key().unwrap();
    assert!(key.is_expr());
    assert_eq!(key.get_expr().unwrap().syntax().text(), "x+1");
    assert_eq!(key.get_path_part(), "[x+1]");
    let negative = bracket(sub(
        LuaSyntaxKind::UnaryExpr,
        vec![tok(LuaTokenKind::TkMinus, "-"), literal(LuaTokenKind::TkInt, "1")],
    ));
    assert_eq!(negative.get_field_key().unwrap().get_path_part(), "[-1]");
    let unknown = bracket(sub(
        LuaSyntaxKind::ParenExpr,
        vec![tok(LuaTokenKind::TkOther, "@"), sub(LuaSyntaxKind::OtherNode, vec![tok(LuaTokenKind::TkOther, "q")])],
    ));
    assert_eq!(unknown.get_field_key().unwrap().get_path_part(), "[@q]");
}

#[test]
fn call_arguments_keep_their_text() {
    let args = LuaCallArgList::cast(node(
        LuaSyntaxKind::CallArgList,
        vec![
            tok(LuaTokenKind::TkLeftParen, "("),
            name_expr("a"),
            tok(LuaTokenKind::TkComma, ","),
            tok(LuaTokenKind::TkWhitespace, " "),
            binary(name_expr("b"), "+", literal(LuaTokenKind::TkInt, "1")),
            tok(LuaTokenKind::TkRightParen, ")"),
        ],
    ))
    .unwrap();
    let list = args.get_args();
    assert_eq!(list.len(), 2);
    assert_eq!(list[0].syntax().text(), "a");
    assert_eq!(list[1].syntax().text(), "b+1");
    let empty = LuaCallArgList::cast(node(
        LuaSyntaxKind::CallArgList,
        vec![tok(LuaTokenKind::TkLeftParen, "("), tok(LuaTokenKind::TkRightParen, ")")],
    ))
    .unwrap();
    assert!(empty.get_args().is_empty());
}

#[test]
fn keys_that_would_not_read_are_detected() {
    let bad = field(vec![
        tok(LuaTokenKind::TkLeftBracket, "["),
        sub(LuaSyntaxKind::Block, vec![]),
        tok(LuaTokenKind::TkRightBracket, "]"),
    ]);
    assert!(!bad.has_well_formed_key());
    let named = field(vec![tok(LuaTokenKind::TkName, "k"), tok(LuaTokenKind::TkAssign, "=")]);
    assert!(named.has_well_formed_key());
    let value = LuaTableField::cast(node(LuaSyntaxKind::TableFieldValue, vec![sub(LuaSyntaxKind::Block, vec![])])).unwrap();
    assert!(value.has_well_formed_key());
    assert!(value.get_field_key().is_none());
}
