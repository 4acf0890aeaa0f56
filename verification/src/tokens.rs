//! Typed tokens: names, string literals and number literals.
use std::rc::Rc;
use vstd::prelude::*;

use crate::ast::LuaAstToken;
use crate::syntax::{LuaSyntaxToken, LuaTokenKind};
use crate::text::{chars_of, push_char};

verus! {

/// A name token.
#[derive(Debug, Clone, PartialEq, Eq, Hash)]
pub struct LuaNameToken {
    token: Rc<LuaSyntaxToken>,
}

impl LuaAstToken for LuaNameToken {
    open spec fn token_kind_fits(kind: LuaTokenKind) -> bool {
        kind == LuaTokenKind::TkName
    }

    closed spec fn token_of(&self) -> Rc<LuaSyntaxToken> {
        self.token
    }

    fn syntax(&self) -> (r: &Rc<LuaSyntaxToken>) {
        &self.token
    }

    fn can_cast(kind: LuaTokenKind) -> (r: bool) {
        kind == LuaTokenKind::TkName
    }

    fn cast(syntax: Rc<LuaSyntaxToken>) -> (r: Option<Self>) {
        if syntax.kind == LuaTokenKind::TkName {
            Some(LuaNameToken { token: syntax })
        } else {
            None
        }
    }
}

impl LuaNameToken {
    /// The name.
    pub fn get_name_text(&self) -> (r: &str)
        ensures
            r@ == self.token_of().text@,
    {
        self.token.text.as_str()
    }
}

/// The character that a backslash escape stands for in a short string.
pub open spec fn escaped_char(c: char) -> char {
    if c == 'n' {
        '\n'
    } else if c == 't' {
        '\t'
    } else if c == 'r' {
        '\r'
    } else if c == 'a' {
        '\x07'
    } else if c == 'b' {
        '\x08'
    } else if c == 'f' {
        '\x0C'
    } else if c == 'v' {
        '\x0B'
    } else {
        c
    }
}

/// The contents of a short string with its backslash escapes resolved: a
/// backslash and the character after it give one character; a backslash at the
/// very end stays.
pub open spec fn unescape(s: Seq<char>) -> Seq<char>
    decreases s.len(),
{
    if s.len() == 0 {
        s
    } else if s.len() >= 2 && s[0] == '\\' {
        seq![escaped_char(s[1])] + unescape(s.skip(2))
    } else {
        seq![s[0]] + unescape(s.skip(1))
    }
}

/// The number of `=` signs in `s` from position `i` on, up to the first other
/// character.
pub open spec fn eq_run(s: Seq<char>, i: int) -> nat
    decreases s.len() - i,
{
    if 0 <= i < s.len() && s[i] == '=' {
        1 + eq_run(s, i + 1)
    } else {
        0
    }
}

/// `s` without one leading line break.
pub open spec fn without_first_newline(s: Seq<char>) -> Seq<char> {
    if s.len() >= 2 && s[0] == '\r' && s[1] == '\n' {
        s.skip(2)
    } else if s.len() >= 1 && (s[0] == '\n' || s[0] == '\r') {
        s.skip(1)
    } else {
        s
    }
}

/// The value of a string literal. A long string `[==[ ... ]==]` gives the text
/// between its brackets without a leading line break. A short string gives the
/// text between its quotes (up to the end when the closing quote is missing)
/// with escapes resolved. Any other text stays as it is.
pub open spec fn string_value(text: Seq<char>) -> Seq<char> {
    if text.len() >= 2 && text[0] == '[' {
        let w = eq_run(text, 1) + 2;
        if text.len() >= 2 * w {
            without_first_newline(text.subrange(w as int, text.len() - w))
        } else {
            text
        }
    } else if text.len() >= 1 && (text[0] == '"' || text[0] == '\'') {
        if text.len() >= 2 && text.last() == text[0] {
            unescape(text.subrange(1, text.len() - 1))
        } else {
            unescape(text.skip(1))
        }
    } else {
        text
    }
}

/// A string literal token.
#[derive(Debug, Clone, PartialEq, Eq, Hash)]
pub struct LuaStringToken {
    token: Rc<LuaSyntaxToken>,
}

impl LuaAstToken for LuaStringToken {
    open spec fn token_kind_fits(kind: LuaTokenKind) -> bool {
        kind == LuaTokenKind::TkString || kind == LuaTokenKind::TkLongString
    }

    closed spec fn token_of(&self) -> Rc<LuaSyntaxToken> {
        self.token
    }

    fn syntax(&self) -> (r: &Rc<LuaSyntaxToken>) {
        &self.token
    }

    fn can_cast(kind: LuaTokenKind) -> (r: bool) {
        kind == LuaTokenKind::TkString || kind == LuaTokenKind::TkLongString
    }

    fn cast(syntax: Rc<LuaSyntaxToken>) -> (r: Option<Self>) {
        if Self::can_cast(syntax.kind) {
            Some(LuaStringToken { token: syntax })
        } else {
            None
        }
    }
}

/// The characters `cs[from..to]` with backslash escapes resolved.
fn unescape_range(cs: &Vec<char>, from: usize, to: usize) -> (r: String)
    requires
        from <= to <= cs@.len(),
    ensures
        r@ == unescape(cs@.subrange(from as int, to as int)),
{
    let mut r = String::new();
    let mut i: usize = from;
    proof {
        assert(r@ + unescape(cs@.subrange(i as int, to as int)) =~= unescape(
            cs@.subrange(from as int, to as int),
        ));
    }
    while i < to
        invariant
            from <= i <= to <= cs@.len(),
            r@ + unescape(cs@.subrange(i as int, to as int)) == unescape(
                cs@.subrange(from as int, to as int),
            ),
        decreases to - i,
    {
        let ghost rest = cs@.subrange(i as int, to as int);
        let ghost r0 = r@;
        if i + 1 < to && cs[i] == '\\' {
            let c = cs[i + 1];
            let e = if c == 'n' {
                '\n'
            } else if c == 't' {
                '\t'
            } else if c == 'r' {
                '\r'
            } else if c == 'a' {
                '\x07'
            } else if c == 'b' {
                '\x08'
            } else if c == 'f' {
                '\x0C'
            } else if c == 'v' {
                '\x0B'
            } else {
                c
            };
            push_char(&mut r, e);
            proof {
                assert(rest[0] == '\\' && rest[1] == c);
                assert(rest.skip(2) =~= cs@.subrange(i + 2, to as int));
                assert(r@ + unescape(cs@.subrange(i + 2, to as int)) =~= r0 + unescape(rest));
            }
            i = i + 2;
        } else {
            push_char(&mut r, cs[i]);
            proof {
                assert(rest[0] == cs@[i as int]);
                assert(rest.skip(1) =~= cs@.subrange(i + 1, to as int));
                assert(r@ + unescape(cs@.subrange(i + 1, to as int)) =~= r0 + unescape(rest));
            }
            i = i + 1;
        }
    }
    proof {
        assert(cs@.subrange(i as int, to as int) =~= Seq::<char>::empty());
        assert(r@ + Seq::<char>::empty() =~= r@);
    }
    r
}

impl LuaStringToken {
    /// The value of the string literal; see `string_value`.
    pub fn get_value(&self) -> (r: String)
        ensures
            r@ == string_value(self.token_of().text@),
    {
        let cs = chars_of(self.token.text.as_str());
        let n = cs.len();
        if n >= 2 && cs[0] == '[' {
            let mut k: usize = 1;
            while k < n && cs[k] == '='
                invariant
                    1 <= k <= n,
                    n == cs@.len(),
                    eq_run(cs@, 1) == (k - 1) + eq_run(cs@, k as int),
                decreases n - k,
            {
                k = k + 1;
            }
            proof {
                assert(eq_run(cs@, k as int) == 0);
            }
            if k < n / 2 {
                let w = k + 1;
                proof {
                    assert(w == eq_run(cs@, 1) + 2);
                    assert(n >= 2 * w);
                }
                let mut start = w;
                let end = n - w;
                if start + 1 < end && cs[start] == '\r' && cs[start + 1] == '\n' {
                    start = start + 2;
                } else if start < end && (cs[start] == '\n' || cs[start] == '\r') {
                    start = start + 1;
                }
                proof {
                    let body = cs@.subrange(w as int, end as int);
                    assert(without_first_newline(body) =~= cs@.subrange(start as int, end as int));
                }
                let mut r = String::new();
                let mut i = start;
                while i < end
                    invariant
                        start <= i <= end <= cs@.len(),
                        r@ == cs@.subrange(start as int, i as int),
                    decreases end - i,
                {
                    push_char(&mut r, cs[i]);
                    proof {
                        assert(r@ =~= cs@.subrange(start as int, i + 1));
                    }
                    i = i + 1;
                }
                r
            } else {
                proof {
                    assert(!(cs@.len() >= 2 * (eq_run(cs@, 1) + 2)));
                }
                self.token.text.clone()
            }
        } else if n >= 1 && (cs[0] == '"' || cs[0] == '\'') {
            if n >= 2 && cs[n - 1] == cs[0] {
                unescape_range(&cs, 1, n - 1)
            } else {
                proof {
                    assert(cs@.skip(1) =~= cs@.subrange(1, n as int));
                }
                unescape_range(&cs, 1, n)
            }
        } else {
            self.token.text.clone()
        }
    }
}

/// The value of a digit in base 16 or below.
pub open spec fn digit_value(c: char) -> int {
    if '0' <= c <= '9' {
        c as int - '0' as int
    } else if 'a' <= c <= 'f' {
        c as int - 'a' as int + 10
    } else if 'A' <= c <= 'F' {
        c as int - 'A' as int + 10
    } else {
        0
    }
}

/// A decimal digit.
pub open spec fn is_dec_digit(c: char) -> bool {
    '0' <= c <= '9'
}

/// A hexadecimal digit.
pub open spec fn is_hex_digit(c: char) -> bool {
    ('0' <= c <= '9') || ('a' <= c <= 'f') || ('A' <= c <= 'F')
}

/// The number that the digits `s` write in `base`.
pub open spec fn digits_value(s: Seq<char>, base: int) -> int
    decreases s.len(),
{
    if s.len() == 0 {
        0
    } else {
        digits_value(s.drop_last(), base) * base + digit_value(s.last())
    }
}

/// The value of an integer literal: decimal digits, or hexadecimal digits after
/// "0x" or "0X"; none for any other text.
pub open spec fn int_literal(text: Seq<char>) -> Option<int> {
    if text.len() > 2 && text[0] == '0' && (text[1] == 'x' || text[1] == 'X') && forall|i: int|
        2 <= i < text.len() ==> is_hex_digit(#[trigger] text[i]) {
        Some(digits_value(text.skip(2), 16))
    } else if text.len() > 0 && forall|i: int| 0 <= i < text.len() ==> is_dec_digit(#[trigger] text[i]) {
        Some(digits_value(text, 10))
    } else {
        None
    }
}

/// The integer value of a number literal: its value when it is an integer
/// literal that fits in an `i64`, and 0 otherwise.
pub open spec fn int_value(text: Seq<char>) -> int {
    match int_literal(text) {
        Some(v) => if v <= i64::MAX {
            v
        } else {
            0
        },
        None => 0,
    }
}

/// The value of digits never falls as digits are added.
pub proof fn lemma_digits_grow(s: Seq<char>, i: int, base: int)
    requires
        0 <= i <= s.len(),
        base >= 1,
    ensures
        0 <= digits_value(s.take(i), base) <= digits_value(s, base),
    decreases s.len(),
{
    if i == s.len() {
        assert(s.take(i) =~= s);
        lemma_digits_nonneg(s, base);
    } else {
        assert(s.drop_last().take(i) =~= s.take(i));
        lemma_digits_grow(s.drop_last(), i, base);
        lemma_digits_nonneg(s.drop_last(), base);
        let v = digits_value(s.drop_last(), base);
        assert(v * base >= v) by (nonlinear_arith)
            requires
                v >= 0,
                base >= 1,
        ;
    }
}

/// The value of digits is not negative.
pub proof fn lemma_digits_nonneg(s: Seq<char>, base: int)
    requires
        base >= 1,
    ensures
        digits_value(s, base) >= 0,
    decreases s.len(),
{
    if s.len() > 0 {
        lemma_digits_nonneg(s.drop_last(), base);
        let v = digits_value(s.drop_last(), base);
        assert(v * base >= 0) by (nonlinear_arith)
            requires
                v >= 0,
                base >= 1,
        ;
    }
}

/// The value of a digit of base 16 or below.
fn digit_of(c: char) -> (r: u64)
    requires
        is_hex_digit(c),
    ensures
        r == digit_value(c),
        r < 16,
{
    if '0' <= c && c <= '9' {
        (c as u32 - '0' as u32) as u64
    } else if 'a' <= c && c <= 'f' {
        (c as u32 - 'a' as u32 + 10) as u64
    } else {
        (c as u32 - 'A' as u32 + 10) as u64
    }
}

/// The value of the digits `cs[from..]` in `base`, if it fits in an `i64`.
fn parse_digits(cs: &Vec<char>, from: usize, base: u64) -> (r: Option<i64>)
    requires
        from <= cs@.len(),
        base == 10 || base == 16,
        forall|i: int| from <= i < cs@.len() ==> is_hex_digit(#[trigger] cs@[i]),
    ensures
        match r {
            Some(v) => v == digits_value(cs@.skip(from as int), base as int),
            None => digits_value(cs@.skip(from as int), base as int) > i64::MAX,
        },
{
    let ghost s = cs@.skip(from as int);
    let mut acc: u64 = 0;
    let mut i: usize = from;
    while i < cs.len()
        invariant
            from <= i <= cs@.len(),
            s == cs@.skip(from as int),
            base == 10 || base == 16,
            forall|j: int| from <= j < cs@.len() ==> is_hex_digit(#[trigger] cs@[j]),
            acc == digits_value(s.take(i - from), base as int),
            acc <= i64::MAX,
        decreases cs.len() - i,
    {
        proof {
            assert(s.take(i - from + 1).drop_last() =~= s.take(i - from));
            assert(s.take(i - from + 1).last() == cs@[i as int]);
        }
        let d = digit_of(cs[i]);
        let next = match acc.checked_mul(base) {
            Some(m) => m.checked_add(d),
            None => None,
        };
        match next {
            Some(v) if v <= i64::MAX as u64 => {
                acc = v;
            },
            _ => {
                proof {
                    lemma_digits_grow(s, i - from + 1, base as int);
                }
                return None;
            },
        }
        i = i + 1;
    }
    proof {
        assert(s.take(i - from) =~= s);
    }
    Some(acc as i64)
}

/// A number literal token.
#[derive(Debug, Clone, PartialEq, Eq, Hash)]
pub struct LuaNumberToken {
    token: Rc<LuaSyntaxToken>,
}

impl LuaAstToken for LuaNumberToken {
    open spec fn token_kind_fits(kind: LuaTokenKind) -> bool {
        kind == LuaTokenKind::TkInt || kind == LuaTokenKind::TkFloat
    }

    closed spec fn token_of(&self) -> Rc<LuaSyntaxToken> {
        self.token
    }

    fn syntax(&self) -> (r: &Rc<LuaSyntaxToken>) {
        &self.token
    }

    fn can_cast(kind: LuaTokenKind) -> (r: bool) {
        kind == LuaTokenKind::TkInt || kind == LuaTokenKind::TkFloat
    }

    fn cast(syntax: Rc<LuaSyntaxToken>) -> (r: Option<Self>) {
        if Self::can_cast(syntax.kind) {
            Some(LuaNumberToken { token: syntax })
        } else {
            None
        }
    }
}

impl LuaNumberToken {
    /// The integer value of the literal; see `int_value`.
    pub fn get_int_value(&self) -> (r: i64)
        ensures
            r == int_value(self.token_of().text@),
    {
        let cs = chars_of(self.token.text.as_str());
        let n = cs.len();
        if n > 2 && cs[0] == '0' && (cs[1] == 'x' || cs[1] == 'X') {
            let mut i: usize = 2;
            while i < n
                invariant
                    2 <= i <= n,
                    n == cs@.len(),
                    cs@ == self.token_of().text@,
                    cs@[0] == '0' && (cs@[1] == 'x' || cs@[1] == 'X'),
                    forall|j: int| 2 <= j < i ==> is_hex_digit(#[trigger] cs@[j]),
                decreases n - i,
            {
                let c = cs[i];
                if !(('0' <= c && c <= '9') || ('a' <= c && c <= 'f') || ('A' <= c && c <= 'F')) {
                    proof {
                        assert(!is_hex_digit(cs@[i as int]));
                        assert(int_literal(cs@) is None) by {
                            assert(!is_dec_digit(cs@[1]));
                        }
                    }
                    return 0;
                }
                i = i + 1;
            }
            match parse_digits(&cs, 2, 16) {
                Some(v) => v,
                None => 0,
            }
        } else {
            if n == 0 {
                return 0;
            }
            let mut i: usize = 0;
            while i < n
                invariant
                    i <= n,
                    n == cs@.len(),
                    n > 0,
                    cs@ == self.token_of().text@,
                    !(n > 2 && cs@[0] == '0' && (cs@[1] == 'x' || cs@[1] == 'X')),
                    forall|j: int| 0 <= j < i ==> is_dec_digit(#[trigger] cs@[j]),
                decreases n - i,
            {
                let c = cs[i];
                if !('0' <= c && c <= '9') {
                    proof {
                        assert(!is_dec_digit(cs@[i as int]));
                    }
                    return 0;
                }
                i = i + 1;
            }
            proof {
                assert(cs@.skip(0) =~= cs@);
            }
            match parse_digits(&cs, 0, 10) {
                Some(v) => v,
                None => 0,
            }
        }
    }
}

} // verus!
