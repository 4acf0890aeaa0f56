use emmylua_index::emmyrc::{config_patterns, extension_name_of};
use emmylua_index::patterns::{build_pattern_regex, sort_longest_first};
use emmylua_index::text::{ends_with_str, i64_to_decimal, split_dots, to_dotted, u64_to_decimal};

fn strings(items: &[&str]) -> Vec<String> {
    items.iter().map(|s| s.to_string()).collect()
}

#[test]
fn pattern_regex_escapes_and_captures() {
    assert_eq!(build_pattern_regex("?.lua"), "^(.*)\\.lua$");
    assert_eq!(build_pattern_regex("?/init.lua"), "^(.*)/init\\.lua$");
    assert_eq!(build_pattern_regex("?\\init.lua"), "^(.*)/init\\.lua$");
    assert_eq!(build_pattern_regex("a+b?"), "^a\\+b(.*)$");
    assert_eq!(build_pattern_regex(""), "^$");
}

#[test]
fn longest_patterns_come_first_and_ties_keep_their_order() {
    let sorted = sort_longest_first(strings(&["a", "ccc", "bb", "dd", "e"]));
    assert_eq!(sorted, strings(&["ccc", "bb", "dd", "a", "e"]));
    assert!(sort_longest_first(Vec::new()).is_empty());
    // Length is counted in UTF-8 bytes.
    let sorted = sort_longest_first(strings(&["ab", "é"]));
    assert_eq!(sorted, strings(&["ab", "é"]));
    let sorted = sort_longest_first(strings(&["a", "é"]));
    assert_eq!(sorted, strings(&["é", "a"]));
}

#[test]
fn extension_settings_lose_their_leading_marks() {
    assert_eq!(extension_name_of(&".lua".to_string()), "lua");
    assert_eq!(extension_name_of(&"*.luau".to_string()), "luau");
    assert_eq!(extension_name_of(&"tl".to_string()), "tl");
    assert_eq!(extension_name_of(&"".to_string()), "");
}

#[test]
fn config_patterns_always_include_lua() {
    assert_eq!(
        config_patterns(&strings(&[".tl", "*.luau"])),
        strings(&["?.tl", "?/init.tl", "?.luau", "?/init.luau", "?.lua", "?/init.lua"])
    );
    assert_eq!(
        config_patterns(&strings(&["lua", ".tl"])),
        strings(&["?.lua", "?/init.lua", "?.tl", "?/init.tl"])
    );
    assert_eq!(config_patterns(&Vec::new()), strings(&["?.lua", "?/init.lua"]));
}

#[test]
fn dotted_paths_split_on_every_dot() {
    assert_eq!(split_dots("a.b.c"), strings(&["a", "b", "c"]));
    assert_eq!(split_dots("a..b"), strings(&["a", "", "b"]));
    assert_eq!(split_dots(""), strings(&[""]));
    assert_eq!(split_dots("x."), strings(&["x", ""]));
    assert_eq!(to_dotted("a/b\\c.d"), "a.b.c.d");
}

#[test]
fn suffixes_and_decimals() {
    assert!(ends_with_str("lib.foo.bar", "foo.bar"));
    assert!(ends_with_str("bar", ""));
    assert!(!ends_with_str("bar", "xbar"));
    assert_eq!(u64_to_decimal(0), "0");
    assert_eq!(u64_to_decimal(1234), "1234");
    assert_eq!(u64_to_decimal(u64::MAX), "18446744073709551615");
    assert_eq!(i64_to_decimal(-5), "-5");
    assert_eq!(i64_to_decimal(0), "0");
    assert_eq!(i64_to_decimal(i64::MIN), "-9223372036854775808");
}
