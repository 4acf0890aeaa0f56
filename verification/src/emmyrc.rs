//! The parts of the configuration that the module index reads.
use vstd::prelude::*;

use crate::text::{chars_of, has_prefix, push_char, string_of_range};

verus! {

/// Runtime settings.
pub struct EmmyrcRuntime {
    /// File extensions that hold Lua code, such as ".lua", "*.lua" or "lua".
    pub extensions: Vec<String>,
}

/// Strictness settings.
pub struct EmmyrcStrict {
    /// Whether a module must be required by its full path.
    pub require_path: bool,
}

/// The configuration.
pub struct Emmyrc {
    pub runtime: EmmyrcRuntime,
    pub strict: EmmyrcStrict,
}

/// An extension setting without its leading "." or "*.".
pub open spec fn extension_name(e: Seq<char>) -> Seq<char> {
    if has_prefix(e, seq!['.']) {
        e.skip(1)
    } else if has_prefix(e, seq!['*', '.']) {
        e.skip(2)
    } else {
        e
    }
}

/// The text "lua".
pub open spec fn lua_text() -> Seq<char> {
    seq!['l', 'u', 'a']
}

/// The extension names of the settings, with "lua" added at the end when it
/// is missing.
pub open spec fn extension_names(exts: Seq<Seq<char>>) -> Seq<Seq<char>> {
    let names = exts.map_values(|e: Seq<char>| extension_name(e));
    if names.contains(lua_text()) {
        names
    } else {
        names.push(lua_text())
    }
}

/// The module patterns for a list of extension names: "?.ext" and
/// "?/init.ext" for each, in order.
pub open spec fn extension_patterns(names: Seq<Seq<char>>) -> Seq<Seq<char>>
    decreases names.len(),
{
    if names.len() == 0 {
        names
    } else {
        extension_patterns(names.drop_last()) + seq![
            seq!['?', '.'] + names.last(),
            seq!['?', '/', 'i', 'n', 'i', 't', '.'] + names.last(),
        ]
    }
}

/// Each extension name gets both of its patterns.
proof fn lemma_patterns_of_name(names: Seq<Seq<char>>, n: Seq<char>)
    requires
        names.contains(n),
    ensures
        extension_patterns(names).contains(seq!['?', '.'] + n),
        extension_patterns(names).contains(seq!['?', '/', 'i', 'n', 'i', 't', '.'] + n),
    decreases names.len(),
{
    let init = extension_patterns(names.drop_last());
    let pair = seq![
        seq!['?', '.'] + names.last(),
        seq!['?', '/', 'i', 'n', 'i', 't', '.'] + names.last(),
    ];
    let all = init + pair;
    assert(all == extension_patterns(names));
    if names.last() == n {
        assert(all[init.len() as int] == pair[0]);
        assert(all[init.len() as int + 1] == pair[1]);
    } else {
        let k = choose|k: int| 0 <= k < names.len() && names[k] == n;
        assert(names.drop_last()[k] == n);
        lemma_patterns_of_name(names.drop_last(), n);
        let a = choose|a: int| 0 <= a < init.len() && init[a] == seq!['?', '.'] + n;
        let b = choose|b: int| 0 <= b < init.len() && init[b] == seq!['?', '/', 'i', 'n', 'i', 't', '.'] + n;
        assert(all[a] == init[a]);
        assert(all[b] == init[b]);
    }
}

/// Whatever extensions are configured, the module patterns include "?.lua" and
/// "?/init.lua".
pub proof fn lemma_lua_patterns(exts: Seq<Seq<char>>)
    ensures
        extension_patterns(extension_names(exts)).contains(seq!['?', '.'] + lua_text()),
        extension_patterns(extension_names(exts)).contains(
            seq!['?', '/', 'i', 'n', 'i', 't', '.'] + lua_text(),
        ),
{
    let names = extension_names(exts);
    let mapped = exts.map_values(|e: Seq<char>| extension_name(e));
    if !mapped.contains(lua_text()) {
        assert(names[mapped.len() as int] == lua_text());
    }
    assert(names.contains(lua_text()));
    lemma_patterns_of_name(names, lua_text());
}

/// An extension setting without its leading "." or "*.".
pub fn extension_name_of(e: &String) -> (r: String)
    ensures
        r@ == extension_name(e@),
{
    let cs = chars_of(e.as_str());
    if cs.len() >= 1 && cs[0] == '.' {
        proof {
            assert(cs@.subrange(0, 1) =~= seq!['.']);
        }
        string_of_range(&cs, 1, cs.len())
    } else if cs.len() >= 2 && cs[0] == '*' && cs[1] == '.' {
        proof {
            assert(cs@.subrange(0, 2) =~= seq!['*', '.']);
            assert(!has_prefix(e@, seq!['.']));
        }
        string_of_range(&cs, 2, cs.len())
    } else {
        proof {
            if cs@.len() >= 1 {
                assert(cs@.subrange(0, 1)[0] == cs@[0]);
            }
            if cs@.len() >= 2 {
                assert(cs@.subrange(0, 2)[0] == cs@[0]);
                assert(cs@.subrange(0, 2)[1] == cs@[1]);
            }
        }
        e.clone()
    }
}

/// The string "lua".
fn lua_string() -> (r: String)
    ensures
        r@ == lua_text(),
{
    let mut r = String::new();
    push_char(&mut r, 'l');
    push_char(&mut r, 'u');
    push_char(&mut r, 'a');
    proof {
        assert(r@ =~= lua_text());
    }
    r
}

/// A copy of `prefix` followed by `s`.
fn prefixed(prefix: &Vec<char>, s: &String) -> (r: String)
    ensures
        r@ == prefix@ + s@,
{
    let mut r = String::new();
    let mut i: usize = 0;
    while i < prefix.len()
        invariant
            i <= prefix@.len(),
            r@ == prefix@.take(i as int),
        decreases prefix.len() - i,
    {
        push_char(&mut r, prefix[i]);
        proof {
            assert(r@ =~= prefix@.take(i + 1));
        }
        i = i + 1;
    }
    proof {
        assert(prefix@.take(i as int) =~= prefix@);
    }
    r.append(s.as_str());
    r
}

/// The module patterns that the extension settings call for.
pub fn config_patterns(exts: &Vec<String>) -> (r: Vec<String>)
    ensures
        r@.map_values(|p: String| p@) == extension_patterns(
            extension_names(exts@.map_values(|e: String| e@)),
        ),
{
    let ghost ev = exts@.map_values(|e: String| e@);
    let mut names: Vec<String> = Vec::new();
    let mut i: usize = 0;
    while i < exts.len()
        invariant
            i <= exts@.len(),
            ev == exts@.map_values(|e: String| e@),
            names@.map_values(|n: String| n@) == ev.take(i as int).map_values(
                |e: Seq<char>| extension_name(e),
            ),
        decreases exts.len() - i,
    {
        let ghost before = names@.map_values(|n: String| n@);
        let n = extension_name_of(&exts[i]);
        names.push(n);
        proof {
            assert(names@.map_values(|n: String| n@) =~= before.push(n@));
            assert(ev.take(i + 1).map_values(|e: Seq<char>| extension_name(e)) =~= ev.take(i as int).map_values(|e: Seq<char>| extension_name(e)).push(extension_name(ev[i as int])));
            assert(ev[i as int] == exts@[i as int]@);
            assert(ev.take(i + 1).map_values(|e: Seq<char>| extension_name(e))[i as int] == n@);
            assert(names@.map_values(|n: String| n@) =~= ev.take(i + 1).map_values(
                |e: Seq<char>| extension_name(e),
            ));
        }
        i = i + 1;
    }
    proof {
        assert(ev.take(i as int) =~= ev);
    }
    let ghost nv = ev.map_values(|e: Seq<char>| extension_name(e));
    let lua = lua_string();
    let mut has_lua = false;
    let mut j: usize = 0;
    while j < names.len()
        invariant
            j <= names@.len(),
            names@.map_values(|n: String| n@) == nv,
            lua@ == lua_text(),
            has_lua == exists|k: int| 0 <= k < j && nv[k] == lua_text(),
        decreases names.len() - j,
    {
        let same = names[j] == lua;
        proof {
            assert(names@[j as int]@ == nv[j as int]);
            if same {
                assert(nv[j as int] == lua_text());
            }
            if !same && !has_lua {
                assert forall|k: int| 0 <= k < j + 1 implies nv[k] != lua_text() by {
                    if k < j {
                    }
                }
            }
        }
        if same {
            has_lua = true;
        }
        j = j + 1;
    }
    proof {
        if has_lua {
            let k = choose|k: int| 0 <= k < j && nv[k] == lua_text();
            assert(nv.contains(lua_text()));
        } else {
            assert(!nv.contains(lua_text()));
        }
    }
    if !has_lua {
        names.push(lua);
    }
    let ghost all = extension_names(ev);
    proof {
        assert(names@.map_values(|n: String| n@) =~= all);
    }
    let dot: Vec<char> = vec!['?', '.'];
    let init: Vec<char> = vec!['?', '/', 'i', 'n', 'i', 't', '.'];
    let mut patterns: Vec<String> = Vec::new();
    let mut k: usize = 0;
    while k < names.len()
        invariant
            k <= names@.len(),
            names@.map_values(|n: String| n@) == all,
            dot@ == seq!['?', '.'],
            init@ == seq!['?', '/', 'i', 'n', 'i', 't', '.'],
            patterns@.map_values(|p: String| p@) == extension_patterns(all.take(k as int)),
        decreases names.len() - k,
    {
        let a = prefixed(&dot, &names[k]);
        let b = prefixed(&init, &names[k]);
        patterns.push(a);
        patterns.push(b);
        proof {
            assert(all.take(k + 1).drop_last() =~= all.take(k as int));
            assert(all.take(k + 1).last() == names@[k as int]@);
            assert(patterns@.map_values(|p: String| p@) =~= extension_patterns(all.take(k + 1)));
        }
        k = k + 1;
    }
    proof {
        assert(all.take(k as int) =~= all);
    }
    patterns
}

} // verus!
