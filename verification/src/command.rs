//! What the user can ask of the core task.

use crate::question::AnswerResponse;
use crate::settings::ProviderConfig;
use crate::stored::{SessionId, StoredScroll};
use vstd::prelude::*;

verus! {

/// A command to the core task.
#[derive(Debug, Clone)]
#[allow(inconsistent_fields)]
pub enum Command {
    Ping,
    FetchRegistry,
    ListModels { provider_name: String },
    AddProvider { id: String, config: ProviderConfig },
    AuthProviderLogin { name: String },
    RemoveProvider { name: String },
    SetActiveProvider { name: String },
    SetActiveModel { model: String },
    CycleVariant,
    SelectVariant { variant: Option<String> },
    SaveConfig,
    NewSession,
    SendMessage { content: String, model: Option<String> },
    RunBash { command: String },
    CancelStream,
    ListSessions,
    LoadSession { id: SessionId },
    SaveScroll { id: SessionId, scroll: StoredScroll },
    SetTitle { title: String },
    GenTitle,
    DeleteSession { id: SessionId },
    SearchHistory { query: String },
    AnswerQuestion { id: u64, answers: AnswerResponse },
    PermissionDecide { id: u64, allow: bool },
    ForkSession { node: Option<u64>, summarize: bool },
    DeleteBranch { node: u64 },
    OpenTree,
    ExportSession { path: Option<String> },
    Replay,
    Reload,
    RecallSteered { stacked: bool },
    SwitchScene { name: Option<String> },
    LspStart { name: String },
    LspStop { name: String },
    LspRestart { name: String },
    LspList { all: bool, filter: Option<String> },
    McpList,
    McpReconnect { name: String },
}

}
