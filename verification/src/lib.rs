//! The decision core of the Shuvarie coding agent.

pub mod agents;
pub mod apply_patch;
pub mod approval;
pub mod call_laws;
pub mod catalog;
pub mod catalog_laws;
pub mod command;
pub mod command_laws;
pub mod compaction;
pub mod compaction_laws;
pub mod config;
pub mod connection_laws;
pub mod connections;
pub mod context;
pub mod context_laws;
pub mod core_task;
pub mod custom_commands;
pub mod diff_laws;
pub mod embeddings;
pub mod error;
pub mod json;
pub mod kdlfmt;
pub mod llm;
pub mod lsp_manager;
pub mod mcp_manager;
pub mod order;
pub mod path_laws;
pub mod paths;
pub mod permission_laws;
pub mod permissions;
pub mod question;
pub mod scene_laws;
pub mod scenes;
pub mod search_laws;
pub mod session;
pub mod session_laws;
pub mod settings;
pub mod shell;
pub mod skill_laws;
pub mod skills;
pub mod stored;
pub mod text;
pub mod text_laws;
pub mod text_map;
pub mod title;
pub mod title_laws;
pub mod tool_record;
pub mod tools;
pub mod views;
