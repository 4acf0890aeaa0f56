//! A verified index of Lua modules and a typed view of Lua syntax trees.
pub mod text;
pub mod name_map;
pub mod module_node;
pub mod module_spec;
pub mod module_index;
pub mod module_lemmas;
pub mod module_laws;
pub mod patterns;
pub mod emmyrc;
pub mod traits;
pub mod syntax;
pub mod ast;
pub mod tokens;
pub mod expr;
pub mod lua_nodes;
