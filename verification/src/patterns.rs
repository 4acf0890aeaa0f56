//! Module patterns such as "?.lua" and "?/init.lua", the regular expressions built
//! from them, and the file paths they turn into module paths.
use vstd::prelude::*;
use vstd::utf8::encode_utf8;

use crate::module_lemmas::lemma_filter_from;
use crate::text::{chars_of, has_prefix, push_char, replace_all_char, replace_char};

verus! {

/// The characters that `regex::escape` prefixes with a backslash.
pub open spec fn is_regex_meta(c: char) -> bool {
    c == '\\' || c == '.' || c == '+' || c == '*' || c == '?' || c == '(' || c == ')' || c == '|'
        || c == '[' || c == ']' || c == '{' || c == '}' || c == '^' || c == '$' || c == '#'
        || c == '&' || c == '-' || c == '~'
}

/// `s` with a backslash put before every regular-expression meta character.
pub open spec fn regex_escaped(s: Seq<char>) -> Seq<char>
    decreases s.len(),
{
    if s.len() == 0 {
        s
    } else {
        regex_escaped(s.drop_last()) + if is_regex_meta(s.last()) {
            seq!['\\', s.last()]
        } else {
            seq![s.last()]
        }
    }
}

/// `s` with every escaped question mark, a backslash followed by `?`, replaced
/// by the capture group `(.*)`, scanning from the left.
pub open spec fn question_groups(s: Seq<char>) -> Seq<char>
    decreases s.len(),
{
    if s.len() == 0 {
        s
    } else if s.len() >= 2 && s[0] == '\\' && s[1] == '?' {
        seq!['(', '.', '*', ')'] + question_groups(s.skip(2))
    } else {
        seq![s[0]] + question_groups(s.skip(1))
    }
}

/// The regular expression for a module pattern: the pattern with backslashes
/// read as slashes, matched literally and in full, with each `?` capturing any
/// text.
pub open spec fn pattern_regex(item: Seq<char>) -> Seq<char> {
    seq!['^'] + question_groups(regex_escaped(replace_char(item, '\\', '/'))) + seq!['$']
}

/// The length of a string in UTF-8 bytes, as `str::len` gives it.
pub open spec fn byte_len(s: Seq<char>) -> usize {
    encode_utf8(s).len() as usize
}

/// Where a string goes in a list ordered from the longest down: after every
/// entry at least as long.
pub open spec fn insert_pos(r: Seq<Seq<char>>, x: Seq<char>) -> int
    decreases r.len(),
{
    if r.len() == 0 {
        0
    } else if byte_len(r[0]) < byte_len(x) {
        0
    } else {
        1 + insert_pos(r.drop_first(), x)
    }
}

/// The strings ordered from the longest down by UTF-8 length; strings of equal
/// length keep their order.
pub open spec fn longest_first(s: Seq<Seq<char>>) -> Seq<Seq<char>>
    decreases s.len(),
{
    if s.len() == 0 {
        s
    } else {
        let r = longest_first(s.drop_last());
        r.insert(insert_pos(r, s.last()), s.last())
    }
}

/// The place found for `x` follows every entry at least as long as `x`, and
/// comes before an entry shorter than `x` when there is one after it.
proof fn lemma_insert_pos(r: Seq<Seq<char>>, x: Seq<char>)
    ensures
        0 <= insert_pos(r, x) <= r.len(),
        forall|j: int| 0 <= j < insert_pos(r, x) ==> byte_len(#[trigger] r[j]) >= byte_len(x),
        insert_pos(r, x) < r.len() ==> byte_len(r[insert_pos(r, x)]) < byte_len(x),
    decreases r.len(),
{
    if r.len() > 0 && byte_len(r[0]) >= byte_len(x) {
        lemma_insert_pos(r.drop_first(), x);
        assert forall|j: int| 0 <= j < insert_pos(r, x) implies byte_len(#[trigger] r[j]) >= byte_len(x) by {
            if j > 0 {
                assert(r[j] == r.drop_first()[j - 1]);
            }
        }
    }
}

/// Ordering from the longest down keeps every string, as often as it occurs,
/// and leaves no string before a longer one.
pub proof fn lemma_longest_first(s: Seq<Seq<char>>)
    ensures
        longest_first(s).to_multiset() == s.to_multiset(),
        longest_first(s).len() == s.len(),
        forall|i: int, j: int|
            0 <= i < j < s.len() ==> byte_len(#[trigger] longest_first(s)[i]) >= byte_len(
                #[trigger] longest_first(s)[j],
            ),
    decreases s.len(),
{
    broadcast use vstd::seq_lib::group_to_multiset_ensures;

    if s.len() > 0 {
        let init = s.drop_last();
        let x = s.last();
        lemma_longest_first(init);
        let r = longest_first(init);
        let p = insert_pos(r, x);
        lemma_insert_pos(r, x);
        vstd::seq_lib::to_multiset_insert(r, p, x);
        assert(s =~= init.push(x));
        r.insert_ensures(p, x);
        let out = r.insert(p, x);
        assert(out == longest_first(s));
        assert forall|i: int, j: int| 0 <= i < j < out.len() implies byte_len(#[trigger] out[i])
            >= byte_len(#[trigger] out[j]) by {
            if j < p {
                assert(out[i] == r[i] && out[j] == r[j]);
            } else if j == p {
                assert(out[i] == r[i]);
            } else if i < p {
                assert(out[i] == r[i] && out[j] == r[j - 1]);
                assert(byte_len(r[i]) >= byte_len(x));
                if i < j - 1 {
                    assert(byte_len(r[i]) >= byte_len(r[j - 1]));
                }
            } else if i == p {
                assert(out[j] == r[j - 1]);
                assert(byte_len(r[p]) < byte_len(x));
                if p < j - 1 {
                    assert(byte_len(r[p]) >= byte_len(r[j - 1]));
                }
            } else {
                assert(out[i] == r[i - 1] && out[j] == r[j - 1]);
            }
        }
    }
}

/// The test for strings of `len` bytes in UTF-8.
pub open spec fn of_length(len: usize) -> spec_fn(Seq<char>) -> bool {
    |x: Seq<char>| byte_len(x) == len
}

/// A filter that keeps nothing of a sequence whose items all fail its test.
proof fn lemma_filter_none(s: Seq<Seq<char>>, pred: spec_fn(Seq<char>) -> bool)
    requires
        forall|i: int| 0 <= i < s.len() ==> !pred(#[trigger] s[i]),
    ensures
        s.filter(pred) == Seq::<Seq<char>>::empty(),
{
    lemma_filter_from(s, pred);
    if s.filter(pred).len() > 0 {
        let x = s.filter(pred)[0];
        assert(s.contains(x) && pred(x));
        let j = choose|j: int| 0 <= j < s.len() && s[j] == x;
        assert(!pred(s[j]));
    }
    assert(s.filter(pred) =~= Seq::<Seq<char>>::empty());
}

/// Ordering from the longest down keeps strings of equal length in the order
/// in which they came: for each length, the strings of that length come out as
/// they went in.
pub proof fn lemma_longest_first_stable(s: Seq<Seq<char>>, len: usize)
    ensures
        longest_first(s).filter(of_length(len)) == s.filter(of_length(len)),
    decreases s.len(),
{
    broadcast use vstd::seq::Seq::filter_distributes_over_add;

    if s.len() > 0 {
        let f = of_length(len);
        let init = s.drop_last();
        let x = s.last();
        lemma_longest_first_stable(init, len);
        lemma_longest_first(init);
        let r = longest_first(init);
        let p = insert_pos(r, x);
        lemma_insert_pos(r, x);
        let a = r.subrange(0, p);
        let b = r.subrange(p, r.len() as int);
        let out = r.insert(p, x);
        assert(out == longest_first(s));
        assert(out =~= a.push(x) + b);
        assert(r =~= a + b);
        assert(s =~= init.push(x));
        reveal(Seq::filter);
        assert(a.push(x).drop_last() =~= a);
        assert(init.push(x).drop_last() =~= init);
        if f(x) {
            assert forall|j: int| 0 <= j < b.len() implies !f(#[trigger] b[j]) by {
                assert(b[j] == r[p + j]);
                if j > 0 {
                    assert(byte_len(r[p]) >= byte_len(r[p + j]));
                }
            }
            lemma_filter_none(b, f);
            assert(out.filter(f) == a.filter(f).push(x) + b.filter(f));
            assert(out.filter(f) =~= s.filter(f));
        } else {
            assert(out.filter(f) == a.filter(f) + b.filter(f));
        }
    }
}

/// Whether the `regex` crate accepts `pattern` as a regular expression.
pub uninterp spec fn regex_accepts(pattern: Seq<char>) -> bool;

/// The text of the first capture group when the regular expression `pattern`
/// matches `text`; none when it does not match or the group takes no part.
pub uninterp spec fn regex_first_group(pattern: Seq<char>, text: Seq<char>) -> Option<Seq<char>>;

/// The path `path` relative to `base`, when `base` is one of its leading sets of
/// components.
pub uninterp spec fn path_strip_prefix(path: Seq<char>, base: Seq<char>) -> Option<Seq<char>>;

/// Whether two paths have the same components.
pub uninterp spec fn same_path(a: Seq<char>, b: Seq<char>) -> bool;

/// The leading regular expressions up to the first that the `regex` crate
/// refuses.
pub open spec fn accepted_prefix(regs: Seq<Seq<char>>) -> Seq<Seq<char>>
    decreases regs.len(),
{
    if regs.len() == 0 {
        regs
    } else if !regex_accepts(regs[0]) {
        Seq::<Seq<char>>::empty()
    } else {
        seq![regs[0]] + accepted_prefix(regs.drop_first())
    }
}

/// The regular expressions for a list of module patterns: longest pattern first,
/// stopping at the first regular expression that is refused.
pub open spec fn compiled_patterns(items: Seq<Seq<char>>) -> Seq<Seq<char>> {
    accepted_prefix(longest_first(items).map_values(|x: Seq<char>| pattern_regex(x)))
}

/// The first capture of the first regular expression in `patterns` that
/// matches `text` with a capture.
pub open spec fn match_first(patterns: Seq<Seq<char>>, text: Seq<char>) -> Option<Seq<char>>
    decreases patterns.len(),
{
    if patterns.len() == 0 {
        None
    } else if regex_first_group(patterns[0], text) is Some {
        regex_first_group(patterns[0], text)
    } else {
        match_first(patterns.drop_first(), text)
    }
}

/// The better of two candidate module paths: the first one found, unless a
/// later one is shorter in UTF-8 bytes.
pub open spec fn pick_shorter(best: Option<Seq<char>>, cand: Option<Seq<char>>) -> Option<Seq<char>> {
    match best {
        None => cand,
        Some(b) => match cand {
            Some(c) => if byte_len(c) < byte_len(b) {
                cand
            } else {
                best
            },
            None => best,
        },
    }
}

/// The module path of the file at `path`: for each workspace root that the
/// path lies under, the first capture of a module pattern on the relative path;
/// of these, the shortest, the earliest among equals.
pub open spec fn extract_module(roots: Seq<Seq<char>>, patterns: Seq<Seq<char>>, path: Seq<char>) -> Option<
    Seq<char>,
>
    decreases roots.len(),
{
    if roots.len() == 0 {
        None
    } else {
        let prev = extract_module(roots.drop_last(), patterns, path);
        match path_strip_prefix(path, roots.last()) {
            Some(rel) => pick_shorter(prev, match_first(patterns, rel)),
            None => prev,
        }
    }
}

/// The module path that one workspace root gives for the file at `path`: the
/// first capture of a module pattern on the path relative to the root.
pub open spec fn root_candidate(root: Seq<char>, patterns: Seq<Seq<char>>, path: Seq<char>) -> Option<Seq<char>> {
    match path_strip_prefix(path, root) {
        Some(rel) => match_first(patterns, rel),
        None => None,
    }
}

/// A file gets a module path exactly when some workspace root gives one; it is
/// the shortest that any root gives, and, among the shortest, the one of the
/// earliest root.
pub proof fn lemma_extract_shortest(roots: Seq<Seq<char>>, patterns: Seq<Seq<char>>, path: Seq<char>)
    ensures
        extract_module(roots, patterns, path) is Some <==> exists|i: int|
            0 <= i < roots.len() && (#[trigger] root_candidate(roots[i], patterns, path)) is Some,
        extract_module(roots, patterns, path) matches Some(m) ==> {
            &&& exists|i: int|
                0 <= i < roots.len() && #[trigger] root_candidate(roots[i], patterns, path) == Some(m)
                    && forall|j: int|
                    0 <= j < i ==> (#[trigger] root_candidate(roots[j], patterns, path) matches Some(c)
                        ==> byte_len(m) < byte_len(c))
            &&& forall|j: int|
                0 <= j < roots.len() ==> (#[trigger] root_candidate(roots[j], patterns, path) matches Some(c)
                    ==> byte_len(m) <= byte_len(c))
        },
    decreases roots.len(),
{
    if roots.len() > 0 {
        let init = roots.drop_last();
        let n = roots.len() - 1;
        lemma_extract_shortest(init, patterns, path);
        assert forall|j: int| 0 <= j < n implies #[trigger] root_candidate(roots[j], patterns, path)
            == root_candidate(init[j], patterns, path) by {
            assert(init[j] == roots[j]);
        }
        let prev = extract_module(init, patterns, path);
        let cand = root_candidate(roots[n], patterns, path);
        assert(roots.last() == roots[n]);
        if prev is Some {
            let b = prev.unwrap();
            let i = choose|i: int|
                0 <= i < init.len() && #[trigger] root_candidate(init[i], patterns, path) == Some(b)
                    && forall|j: int|
                    0 <= j < i ==> (#[trigger] root_candidate(init[j], patterns, path) matches Some(c)
                        ==> byte_len(b) < byte_len(c));
            assert(root_candidate(roots[i], patterns, path) == Some(b));
        } else {
            assert forall|j: int| 0 <= j < n implies !(#[trigger] root_candidate(roots[j], patterns, path) is Some) by {
                if root_candidate(roots[j], patterns, path) is Some {
                    assert(root_candidate(init[j], patterns, path) is Some);
                }
            }
        }
        if cand is Some {
            assert(root_candidate(roots[n], patterns, path) is Some);
        }
    }
}

/// The characters of an optional string.
pub open spec fn opt_view(s: Option<String>) -> Option<Seq<char>> {
    match s {
        Some(x) => Some(x@),
        None => None,
    }
}

/// `regex::escape`: `text` with every regular-expression meta character
/// prefixed by a backslash.
#[verifier::external_body]
fn escape_regex(text: &str) -> (r: String)
    ensures
        r@ == regex_escaped(text@),
{
    regex::escape(text)
}

/// `regex::Regex::new(pattern).is_ok()`: whether the `regex` crate compiles
/// `pattern`; the answer is the named `regex_accepts`.
#[verifier::external_body]
pub(crate) fn regex_compiles(pattern: &str) -> (r: bool)
    ensures
        r == regex_accepts(pattern@),
{
    regex::Regex::new(pattern).is_ok()
}

/// The first capture group of `pattern` on `text`, through `regex::Regex::new`,
/// `Regex::captures` and `Captures::get(1)`; the answer is the named
/// `regex_first_group`. A capture is a piece of `text`, so it is no longer.
#[verifier::external_body]
pub(crate) fn regex_capture(pattern: &str, text: &str) -> (r: Option<String>)
    ensures
        opt_view(r) == regex_first_group(pattern@, text@),
        r matches Some(c) ==> c@.len() <= text@.len(),
{
    let re = match regex::Regex::new(pattern) {
        Ok(re) => re,
        Err(_) => return None,
    };
    match re.captures(text) {
        Some(caps) => match caps.get(1) {
            Some(m) => Some(m.as_str().to_string()),
            None => None,
        },
        None => None,
    }
}

/// `std::path::Path::strip_prefix` on two paths given as strings, with the
/// relative path turned back into a string; the answer is the named
/// `path_strip_prefix`.
#[verifier::external_body]
pub(crate) fn strip_path_prefix(path: &str, base: &str) -> (r: Option<String>)
    ensures
        opt_view(r) == path_strip_prefix(path@, base@),
{
    match std::path::Path::new(path).strip_prefix(base) {
        Ok(rel) => Some(rel.to_str().unwrap_or("").to_string()),
        Err(_) => None,
    }
}

/// `==` on two `std::path::Path` values made from strings; the answer is the
/// named `same_path`.
#[verifier::external_body]
pub(crate) fn paths_equal(a: &str, b: &str) -> (r: bool)
    ensures
        r == same_path(a@, b@),
{
    std::path::Path::new(a) == std::path::Path::new(b)
}

/// `s` with every escaped question mark turned into the capture group `(.*)`.
fn question_marks_to_groups(s: &str) -> (r: String)
    ensures
        r@ == question_groups(s@),
{
    let cs = chars_of(s);
    let mut r = String::new();
    let mut i: usize = 0;
    proof {
        assert(cs@.skip(0) =~= cs@);
    }
    while i < cs.len()
        invariant
            cs@ == s@,
            i <= cs@.len(),
            r@ + question_groups(cs@.skip(i as int)) == question_groups(cs@),
        decreases cs.len() - i,
    {
        let ghost rest = cs@.skip(i as int);
        let ghost r0 = r@;
        if i + 1 < cs.len() && cs[i] == '\\' && cs[i + 1] == '?' {
            push_char(&mut r, '(');
            push_char(&mut r, '.');
            push_char(&mut r, '*');
            push_char(&mut r, ')');
            proof {
                assert(rest.skip(2) =~= cs@.skip(i + 2));
                assert(r@ =~= r0 + seq!['(', '.', '*', ')']);
                assert(r@ + question_groups(cs@.skip(i + 2)) =~= r0 + question_groups(rest));
            }
            i = i + 2;
        } else {
            push_char(&mut r, cs[i]);
            proof {
                assert(rest.skip(1) =~= cs@.skip(i + 1));
                assert(rest[0] == cs@[i as int]);
                assert(r@ + question_groups(cs@.skip(i + 1)) =~= r0 + question_groups(rest));
            }
            i = i + 1;
        }
    }
    proof {
        assert(cs@.skip(i as int) =~= Seq::<char>::empty());
        assert(r@ + Seq::<char>::empty() =~= r@);
    }
    r
}

/// The regular expression for a module pattern such as "?.lua" or "?/init.lua".
pub fn build_pattern_regex(item: &str) -> (r: String)
    ensures
        r@ == pattern_regex(item@),
{
    let slashed = replace_all_char(item, '\\', '/');
    let escaped = escape_regex(slashed.as_str());
    let grouped = question_marks_to_groups(escaped.as_str());
    let mut r = String::new();
    push_char(&mut r, '^');
    r.append(grouped.as_str());
    push_char(&mut r, '$');
    proof {
        assert(r@ =~= pattern_regex(item@));
    }
    r
}

/// The views of a list of strings.
pub open spec fn strings_view(v: Seq<String>) -> Seq<Seq<char>> {
    v.map_values(|s: String| s@)
}

/// Sorts strings from the longest down by UTF-8 length, keeping the order of
/// strings of equal length.
pub fn sort_longest_first(items: Vec<String>) -> (r: Vec<String>)
    ensures
        strings_view(r@) == longest_first(strings_view(items@)),
{
    let mut items = items;
    let ghost all = strings_view(items@);
    let mut rev: Vec<String> = Vec::new();
    while items.len() > 0
        invariant
            strings_view(rev@) == strings_view(items@).reverse().take(0) + strings_view(rev@),
            strings_view(items@) + strings_view(rev@).reverse() == all,
        decreases items.len(),
    {
        let x = items.pop().unwrap();
        rev.push(x);
        proof {
            assert(strings_view(items@) + strings_view(rev@).reverse() =~= all);
        }
    }
    proof {
        assert(strings_view(rev@).reverse() =~= all);
    }
    let mut r: Vec<String> = Vec::new();
    let mut done: Ghost<int> = Ghost(0);
    while rev.len() > 0
        invariant
            0 <= done@ <= all.len(),
            strings_view(rev@).reverse() == all.skip(done@),
            strings_view(r@) == longest_first(all.take(done@)),
        decreases rev.len(),
    {
        let ghost old_rev = strings_view(rev@);
        proof {
            assert(old_rev.reverse().len() == all.skip(done@).len());
            assert(done@ < all.len());
        }
        let x = rev.pop().unwrap();
        let ghost xv = x@;
        proof {
            assert(strings_view(rev@) =~= old_rev.drop_last());
            assert(old_rev.reverse()[0] == old_rev.last());
            assert(xv == old_rev.last());
            assert forall|i: int| 0 <= i < strings_view(rev@).len() implies #[trigger] strings_view(rev@).reverse()[i]
                == all.skip(done@ + 1)[i] by {
                assert(old_rev.reverse()[i + 1] == all.skip(done@)[i + 1]);
            }
            assert(all.skip(done@)[0] == xv);
            assert(all.skip(done@ + 1) =~= strings_view(rev@).reverse());
            assert(all.take(done@ + 1).drop_last() =~= all.take(done@));
            assert(all.take(done@ + 1).last() == xv);
        }
        let n = x.as_str().len();
        let mut j: usize = 0;
        let ghost rv = strings_view(r@);
        proof {
            assert(rv.skip(0) =~= rv);
        }
        while j < r.len() && !(r[j].as_str().len() < n)
            invariant
                j <= r@.len(),
                rv == strings_view(r@),
                n == byte_len(xv),
                insert_pos(rv, xv) == j + insert_pos(rv.skip(j as int), xv),
            decreases r.len() - j,
        {
            proof {
                assert(rv.skip(j as int)[0] == r@[j as int]@);
                assert(rv.skip(j as int).drop_first() =~= rv.skip(j + 1));
            }
            j = j + 1;
        }
        proof {
            if j < r@.len() {
                assert(rv.skip(j as int)[0] == r@[j as int]@);
            } else {
                assert(rv.skip(j as int) =~= Seq::<Seq<char>>::empty());
            }
            assert(insert_pos(rv, xv) == j);
        }
        r.insert(j, x);
        proof {
            assert(strings_view(r@) =~= rv.insert(j as int, xv));
            done@ = done@ + 1;
        }
    }
    proof {
        assert(all.skip(done@).len() == 0);
        assert(all.take(done@) =~= all);
    }
    r
}

} // verus!
