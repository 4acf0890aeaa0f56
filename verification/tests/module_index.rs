use std::sync::Arc;

use emmylua_index::emmyrc::{Emmyrc, EmmyrcRuntime, EmmyrcStrict};
use emmylua_index::module_index::LuaModuleIndex;
use emmylua_index::module_node::{FileId, LuaVersionCondition, LuaVersionNumber, ModuleNodeId};
use emmylua_index::traits::LuaIndex;
use vstd::hash_map::StringHashMap;

fn fid(id: u32) -> FileId {
    FileId { id }
}

fn config(extensions: &[&str], require_path: bool) -> Arc<Emmyrc> {
    Arc::new(Emmyrc {
        runtime: EmmyrcRuntime { extensions: extensions.iter().map(|e| e.to_string()).collect() },
        strict: EmmyrcStrict { require_path },
    })
}

fn found_file(index: &LuaModuleIndex, path: &str) -> Option<u32> {
    index.find_module(path).map(|m| m.file_id.id)
}

#[test]
fn new_index_has_an_empty_root() {
    let index = LuaModuleIndex::new();
    let root = index.find_module_node("").expect("root");
    assert!(root.children.is_empty());
    assert!(root.file_ids.is_empty());
    assert!(root.parent.is_none());
    assert!(index.get_module_node(&ModuleNodeId { id: 0 }).is_some());
    assert!(index.get_module_infos().is_empty());
}

#[test]
fn added_module_is_found_by_its_path() {
    let mut index = LuaModuleIndex::new();
    assert_eq!(index.add_module_by_module_path(fid(1), "a.b.c".to_string()), Some(()));
    let info = index.get_module(fid(1)).expect("record");
    assert_eq!(info.full_module_name, "a.b.c");
    assert_eq!(info.name, "c");
    assert!(info.visible);
    assert!(info.version_conds.is_none());
    assert!(info.export_type.is_none());
    assert_eq!(found_file(&index, "a.b.c"), Some(1));
    assert_eq!(found_file(&index, "a/b/c"), Some(1));
    assert_eq!(found_file(&index, "a\\b\\c"), Some(1));
    assert_eq!(found_file(&index, "a.b"), None);
    assert_eq!(found_file(&index, "c"), None);
    let node = index.get_module_node(&info.module_id).expect("node");
    assert_eq!(node.file_ids, vec![fid(1)]);
    let b = index.find_module_node("a.b").expect("node a.b");
    assert!(b.children.contains_key("c"));
    assert!(index.find_module_node("a/b/c").is_some());
    assert!(index.find_module_node("a.x").is_none());
}

#[test]
fn first_file_at_a_path_wins() {
    let mut index = LuaModuleIndex::new();
    index.add_module_by_module_path(fid(1), "m.x".to_string());
    index.add_module_by_module_path(fid(2), "m.x".to_string());
    assert_eq!(found_file(&index, "m.x"), Some(1));
    index.remove(fid(1));
    assert_eq!(found_file(&index, "m.x"), Some(2));
    assert!(index.get_module(fid(1)).is_none());
}

#[test]
fn removing_the_only_file_prunes_empty_ancestors() {
    let mut index = LuaModuleIndex::new();
    index.add_module_by_module_path(fid(7), "a.b.c".to_string());
    index.remove(fid(7));
    assert!(index.get_module(fid(7)).is_none());
    assert_eq!(found_file(&index, "a.b.c"), None);
    assert!(index.find_module_node("a").is_none());
    let root = index.find_module_node("").expect("root");
    assert!(root.children.is_empty());
}

#[test]
fn removing_a_file_keeps_its_siblings() {
    let mut index = LuaModuleIndex::new();
    index.add_module_by_module_path(fid(1), "a.b".to_string());
    index.add_module_by_module_path(fid(2), "a.c".to_string());
    index.remove(fid(1));
    assert_eq!(found_file(&index, "a.b"), None);
    assert_eq!(found_file(&index, "a.c"), Some(2));
    assert!(index.find_module_node("a.b").is_none());
    assert!(index.find_module_node("a").is_some());
    assert_eq!(index.get_module(fid(2)).unwrap().full_module_name, "a.c");
}

#[test]
fn removing_an_unknown_file_changes_nothing() {
    let mut index = LuaModuleIndex::new();
    index.add_module_by_module_path(fid(1), "a".to_string());
    index.remove(fid(9));
    assert_eq!(found_file(&index, "a"), Some(1));
    assert_eq!(index.get_module_infos().len(), 1);
}

#[test]
fn adding_a_file_again_moves_it() {
    let mut index = LuaModuleIndex::new();
    index.add_module_by_module_path(fid(1), "x.y".to_string());
    index.add_module_by_module_path(fid(1), "z".to_string());
    assert_eq!(index.get_module(fid(1)).unwrap().full_module_name, "z");
    assert_eq!(found_file(&index, "x.y"), None);
    assert_eq!(found_file(&index, "z"), Some(1));
    assert!(index.find_module_node("x").is_none());
    assert_eq!(index.get_module_infos().len(), 1);
}

#[test]
fn a_parent_path_keeps_its_own_file() {
    let mut index = LuaModuleIndex::new();
    index.add_module_by_module_path(fid(1), "a".to_string());
    index.add_module_by_module_path(fid(2), "a.b".to_string());
    index.remove(fid(2));
    assert_eq!(found_file(&index, "a"), Some(1));
    assert!(index.find_module_node("a.b").is_none());
}

#[test]
fn strict_lookup_needs_the_full_path() {
    let mut index = LuaModuleIndex::new();
    index.update_config(config(&[".lua"], true));
    index.add_module_by_module_path(fid(1), "lib.foo.bar".to_string());
    assert_eq!(found_file(&index, "bar"), None);
    assert_eq!(found_file(&index, "foo.bar"), None);
    assert_eq!(found_file(&index, "lib.foo.bar"), Some(1));
}

#[test]
fn fuzzy_lookup_falls_back_to_the_last_segment() {
    let mut index = LuaModuleIndex::new();
    index.update_config(config(&[".lua"], false));
    index.add_module_by_module_path(fid(1), "lib.foo.bar".to_string());
    assert_eq!(found_file(&index, "bar"), Some(1));
    assert_eq!(found_file(&index, "anything.bar"), Some(1));
    index.add_module_by_module_path(fid(2), "other.bar".to_string());
    assert_eq!(found_file(&index, "foo.bar"), Some(1));
    assert_eq!(found_file(&index, "other.bar"), Some(2));
    assert_eq!(found_file(&index, "zzz.bar"), None);
    assert_eq!(found_file(&index, "baz"), None);
}

#[test]
fn removing_forgets_the_name_for_fuzzy_lookup() {
    let mut index = LuaModuleIndex::new();
    index.update_config(config(&[], false));
    index.add_module_by_module_path(fid(1), "p.q".to_string());
    index.add_module_by_module_path(fid(2), "p".to_string());
    assert_eq!(found_file(&index, "q"), Some(1));
    index.remove(fid(1));
    assert_eq!(found_file(&index, "q"), None);
    assert_eq!(found_file(&index, "p"), Some(2));
    let mut info = StringHashMap::new();
    index.fill_snapshot_info(&mut info);
    assert_eq!(info.get("module_name_to_file_ids").map(|s| s.as_str()), Some("1"));
}

#[test]
fn pruning_up_to_the_root_leaves_the_name_table() {
    let mut index = LuaModuleIndex::new();
    index.update_config(config(&[], false));
    index.add_module_by_module_path(fid(1), "p.q".to_string());
    index.remove(fid(1));
    assert_eq!(found_file(&index, "q"), None);
    let mut info = StringHashMap::new();
    index.fill_snapshot_info(&mut info);
    assert_eq!(info.get("module_name_to_file_ids").map(|s| s.as_str()), Some("1"));
    assert_eq!(info.get("file_module_map").map(|s| s.as_str()), Some("0"));
}

#[test]
fn visibility_and_version_conditions_are_set_on_the_record() {
    let mut index = LuaModuleIndex::new();
    index.add_module_by_module_path(fid(3), "v".to_string());
    index.set_module_visibility(fid(3), false);
    assert!(!index.get_module(fid(3)).unwrap().visible);
    let conds = vec![LuaVersionCondition::Gte(LuaVersionNumber { major: 5, minor: 4, patch: 0 })];
    index.set_module_version_conds(fid(3), conds.clone());
    assert_eq!(index.get_module(fid(3)).unwrap().version_conds.as_deref(), Some(&conds));
    index.set_module_visibility(fid(4), false);
    assert!(index.get_module(fid(4)).is_none());
    if let Some(info) = index.get_module_mut(fid(3)) {
        info.visible = true;
    }
    assert!(index.get_module(fid(3)).unwrap().visible);
    assert!(index.get_module_mut(fid(4)).is_none());
}

#[test]
fn file_paths_become_module_paths_through_the_patterns() {
    let mut index = LuaModuleIndex::new();
    index.update_config(config(&[".lua"], true));
    index.add_workspace_root("/ws".to_string());
    assert_eq!(index.add_module_by_path(fid(1), "/ws/a/b.lua"), Some(()));
    assert_eq!(index.get_module(fid(1)).unwrap().full_module_name, "a.b");
    assert_eq!(index.add_module_by_path(fid(2), "/ws/c/init.lua"), Some(()));
    assert_eq!(index.get_module(fid(2)).unwrap().full_module_name, "c");
    assert_eq!(index.add_module_by_path(fid(3), "/elsewhere/x.lua"), None);
    assert!(index.get_module(fid(3)).is_none());
    assert_eq!(index.add_module_by_path(fid(4), "/ws/readme.md"), None);
    assert_eq!(found_file(&index, "a.b"), Some(1));
    assert_eq!(found_file(&index, "c"), Some(2));
}

#[test]
fn the_shortest_module_path_over_the_roots_wins() {
    let mut index = LuaModuleIndex::new();
    index.update_config(config(&["lua"], true));
    index.add_workspace_root("/ws".to_string());
    index.add_workspace_root("/ws/sub".to_string());
    assert_eq!(index.try_add_module_by_path(fid(1), "/ws/sub/m.lua"), Some(()));
    assert_eq!(index.get_module(fid(1)).unwrap().full_module_name, "m");
}

#[test]
fn a_file_that_no_longer_matches_loses_its_record() {
    let mut index = LuaModuleIndex::new();
    index.update_config(config(&[".lua"], true));
    index.add_workspace_root("/ws".to_string());
    index.add_module_by_path(fid(1), "/ws/a.lua");
    assert_eq!(index.add_module_by_path(fid(1), "/ws/a.txt"), None);
    assert!(index.get_module(fid(1)).is_none());
}

#[test]
fn removed_workspace_roots_no_longer_match() {
    let mut index = LuaModuleIndex::new();
    index.update_config(config(&[".lua"], true));
    index.add_workspace_root("/ws".to_string());
    index.remove_workspace_root("/ws/");
    assert_eq!(index.add_module_by_path(fid(1), "/ws/a.lua"), None);
    index.add_workspace_root("/ws".to_string());
    index.remove_workspace_root("/other");
    assert_eq!(index.add_module_by_path(fid(1), "/ws/a.lua"), Some(()));
}

#[test]
fn configured_extensions_give_their_patterns() {
    let mut index = LuaModuleIndex::new();
    index.update_config(config(&["*.tl"], true));
    index.add_workspace_root("/ws".to_string());
    assert_eq!(index.add_module_by_path(fid(1), "/ws/x/y.tl"), Some(()));
    assert_eq!(index.get_module(fid(1)).unwrap().full_module_name, "x.y");
    assert_eq!(index.add_module_by_path(fid(2), "/ws/z.lua"), Some(()));
    assert_eq!(index.get_module(fid(2)).unwrap().full_module_name, "z");
}

#[test]
fn module_patterns_can_be_set_directly() {
    let mut index = LuaModuleIndex::new();
    index.set_module_patterns(vec!["?.lua".to_string(), "?\\init.lua".to_string()]);
    index.add_workspace_root("/ws".to_string());
    assert_eq!(index.add_module_by_path(fid(1), "/ws/pkg/init.lua"), Some(()));
    assert_eq!(index.get_module(fid(1)).unwrap().full_module_name, "pkg");
    index.set_module_patterns(Vec::new());
    assert_eq!(index.add_module_by_path(fid(2), "/ws/q.lua"), None);
}

#[test]
fn snapshot_info_counts_nodes_records_and_names() {
    let mut index = LuaModuleIndex::new();
    index.update_config(config(&[], false));
    index.add_module_by_module_path(fid(1), "a.b".to_string());
    index.add_module_by_module_path(fid(2), "a.c".to_string());
    let mut info = StringHashMap::new();
    info.insert("other".to_string(), "kept".to_string());
    index.fill_snapshot_info(&mut info);
    assert_eq!(info.get("module_nodes").map(|s| s.as_str()), Some("4"));
    assert_eq!(info.get("file_module_map").map(|s| s.as_str()), Some("2"));
    assert_eq!(info.get("module_name_to_file_ids").map(|s| s.as_str()), Some("2"));
    assert_eq!(info.get("other").map(|s| s.as_str()), Some("kept"));
}

#[test]
fn every_record_is_listed_once() {
    let mut index = LuaModuleIndex::new();
    for i in 0..5u32 {
        index.add_module_by_module_path(fid(i), format!("m{}", i));
    }
    let mut ids: Vec<u32> = index.get_module_infos().iter().map(|m| m.file_id.id).collect();
    ids.sort();
    assert_eq!(ids, vec![0, 1, 2, 3, 4]);
}

#[test]
fn checked_filing_by_module_path() {
    let mut index = LuaModuleIndex::new();
    assert_eq!(index.try_add_module_by_module_path(fid(1), "a.b".to_string()), Some(()));
    assert_eq!(index.get_module(fid(1)).unwrap().full_module_name, "a.b");
    assert_eq!(found_file(&index, "a.b"), Some(1));
    assert!(index.find_module_node("a.b").unwrap().file_ids == vec![fid(1)]);
    assert!(index.find_module_node("a").unwrap().file_ids.is_empty());
}

#[test]
fn the_export_type_is_kept_by_other_updates() {
    let mut index = LuaModuleIndex::new();
    index.add_module_by_module_path(fid(1), "e".to_string());
    index.get_module_mut(fid(1)).unwrap().export_type = Some("table".to_string());
    index.set_module_visibility(fid(1), false);
    index.set_module_version_conds(fid(1), Vec::new());
    assert_eq!(index.get_module(fid(1)).unwrap().export_type.as_deref(), Some("table"));
    index.add_module_by_module_path(fid(1), "e".to_string());
    assert!(index.get_module(fid(1)).unwrap().export_type.is_none());
}
