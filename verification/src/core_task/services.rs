//! What the core task answers at its edges: the session it starts with,
//! signing in, saving the settings, and listing models and providers.

use crate::catalog;
use crate::catalog::{enrich, CatalogProvider};
use crate::core_task::run::LockAnswer;
use crate::core_task::target;
use crate::core_task::target::catalog_entry;
use crate::llm::ModelInfo;
use crate::session::Session;
use crate::settings::{Connections, ProviderConfig};
use crate::stored::SessionId;
use crate::text;
use crate::text_map;
use crate::title;
use crate::title::resolve_model;
use crate::views;
use vstd::prelude::*;

verus! {

/// The session to start with.
#[derive(Debug, Clone, Copy, PartialEq, Eq, Structural)]
pub enum StartupSession {
    Fresh,
    MostRecent,
    Session(SessionId),
}

impl Default for StartupSession {
    fn default() -> (s: Self)
        ensures
            s == StartupSession::Fresh,
    {
        StartupSession::Fresh
    }
}

/// What is done next about the session to start with.
#[derive(Debug)]
#[allow(inconsistent_fields)]
pub enum StartupStep {
    Done,
    FindMostRecent,
    Load { id: SessionId },
    AcquireLock { id: SessionId },
    SessionLocked { id: SessionId },
    Enter { id: SessionId },
    SessionError { error: String },
}

/// Where the session to start with is looked for.
pub fn begin_startup(startup: StartupSession) -> (r: StartupStep)
    ensures
        match startup {
            StartupSession::Fresh => r is Done,
            StartupSession::MostRecent => r is FindMostRecent,
            StartupSession::Session(id) => r == (StartupStep::Load { id }),
        },
{
    match startup {
        StartupSession::Fresh => StartupStep::Done,
        StartupSession::MostRecent => StartupStep::FindMostRecent,
        StartupSession::Session(id) => StartupStep::Load { id },
    }
}

/// Takes in the session that was found.
pub fn startup_found(found: Result<Option<SessionId>, String>) -> (r: StartupStep)
    ensures
        match found {
            Ok(Some(id)) => r == (StartupStep::AcquireLock { id }),
            Ok(None) => r is Done,
            Err(e) => r matches StartupStep::SessionError { error } && error@ == e@,
        },
{
    match found {
        Ok(Some(id)) => StartupStep::AcquireLock { id },
        Ok(None) => StartupStep::Done,
        Err(error) => StartupStep::SessionError { error },
    }
}

/// Takes in what became of the session's lock: a session that another client
/// holds is not entered.
pub fn startup_locked(
    locked: &mut Option<SessionId>,
    id: SessionId,
    answer: LockAnswer,
) -> (r: StartupStep)
    ensures
        r == if answer == LockAnswer::Held {
            StartupStep::SessionLocked { id }
        } else {
            StartupStep::Enter { id }
        },
        *final(locked) == if answer == LockAnswer::Granted {
            Some(id)
        } else {
            *old(locked)
        },
{
    match answer {
        LockAnswer::Held => StartupStep::SessionLocked { id },
        LockAnswer::Granted => {
            *locked = Some(id);
            StartupStep::Enter { id }
        },
        LockAnswer::Failed => StartupStep::Enter { id },
    }
}

/// The prompt that is sent again when a turn is taken up: what stands at the
/// tip of the session.
pub fn resumed_prompt(session: &Session) -> (r: Option<&str>)
    ensures
        match r {
            Some(s) => session.messages@.len() > 0 && s@ == session.messages@.last().content@,
            None => session.messages@.len() == 0,
        },
{
    let n: usize = session.messages.len();
    if n == 0 {
        None
    } else {
        Some(session.messages[n - 1].content.as_str())
    }
}

/// What became of signing in to a provider.
#[derive(Debug)]
#[allow(inconsistent_fields)]
pub enum LoginReply {
    Success { provider: String },
    Failed { provider: String, error: String },
}

/// The provider to sign in to, or the answer that there is none of that name.
pub fn login_target<'a>(connections: &'a Connections, name: &str) -> (r: Result<
    &'a ProviderConfig,
    LoginReply,
>)
    ensures
        match text_map::lookup(connections.providers@, name@) {
            Some(p) => r == Ok::<&'a ProviderConfig, LoginReply>(&p),
            None => r matches Err(LoginReply::Failed { provider, error }) && provider@ == name@
                && error@ == "unknown provider '"@ + name@ + "'"@,
        },
{
    match connections.providers.get(name) {
        Some(p) => Ok(p),
        None => {
            let mut error: String = "unknown provider '".to_owned();
            error.append(name);
            error.append("'");
            Err(LoginReply::Failed { provider: name.to_owned(), error })
        },
    }
}

/// What is answered when signing in ended: the provider goes by the name that
/// the user gave it.
pub fn login_done(config: &ProviderConfig, failure: Option<String>) -> (r: LoginReply)
    ensures
        match failure {
            None => r matches LoginReply::Success { provider } && provider@ == config.name@,
            Some(e) => r matches LoginReply::Failed { provider, error } && provider@
                == config.name@ && error@ == e@,
        },
{
    let provider = config.name.clone();
    match failure {
        None => LoginReply::Success { provider },
        Some(error) => LoginReply::Failed { provider, error },
    }
}

/// What went wrong when the settings were saved: with the configuration, else
/// with the connections.
pub fn save_failure(config: Option<String>, connections: Option<String>) -> (r: Option<String>)
    ensures
        views::opt_view(r) == match config {
            Some(e) => Some(e@),
            None => views::opt_view(connections),
        },
{
    match config {
        Some(e) => Some(e),
        None => connections,
    }
}

/// What a wait for the hosted catalog gave; nothing if it took too long.
pub fn registry_reply(fetched: Option<Result<Vec<CatalogProvider>, String>>) -> (r: Result<
    Vec<CatalogProvider>,
    String,
>)
    ensures
        match fetched {
            Some(outcome) => r == outcome,
            None => r matches Err(e) && e@ == "registry fetch timed out"@,
        },
{
    match fetched {
        Some(outcome) => outcome,
        None => Err("registry fetch timed out".to_owned()),
    }
}

/// How much context a listed model takes, as far as the provider or the
/// catalog says.
pub open spec fn listed_length(entry: Option<CatalogProvider>, m: ModelInfo) -> Option<u32> {
    match (m.context_length, entry) {
        (None, Some(p)) => match catalog::context_of(p, m.id@) {
            Some(c) => Some(
                if c < 0 {
                    0u32
                } else {
                    c as u32
                },
            ),
            None => None,
        },
        (known, _) => known,
    }
}

/// Fills in what the catalog knows of the models that a provider lists.
pub fn models_listed(
    connections: &Connections,
    catalog: &Vec<CatalogProvider>,
    provider: &str,
    models: Vec<ModelInfo>,
) -> (r: Vec<ModelInfo>)
    ensures
        r@.len() == models@.len(),
        forall|i: int|
            0 <= i < r@.len() ==> {
                &&& (#[trigger] r@[i]).id == models@[i].id
                &&& r@[i].context_length == listed_length(
                    target::entry_of(
                        text_map::viewed(connections.providers@),
                        catalog@,
                        provider@,
                    ),
                    models@[i],
                )
            },
{
    let entry = match catalog_entry(connections, catalog, provider) {
        Some(p) => p,
        None => {
            return models;
        },
    };
    let ghost found = target::entry_of(
        text_map::viewed(connections.providers@),
        catalog@,
        provider@,
    );
    let mut out: Vec<ModelInfo> = Vec::new();
    let n: usize = models.len();
    let mut i: usize = 0;
    while i < n
        invariant
            n == models@.len(),
            i <= n,
            found == Some(*entry),
            out@.len() == i,
            forall|j: int|
                0 <= j < i ==> {
                    &&& (#[trigger] out@[j]).id == models@[j].id
                    &&& out@[j].context_length == listed_length(found, models@[j])
                },
        decreases n - i,
    {
        let id = models[i].id.clone();
        let mut m = ModelInfo { id, context_length: models[i].context_length };
        enrich(entry, &mut m);
        out.push(m);
        i += 1;
    }
    out
}

/// The provider and the model to draft a title with, or why there is none.
pub fn title_drafter(
    providers: &Vec<CatalogProvider>,
    connections: &Connections,
    provider: Option<&str>,
    model: Option<&str>,
) -> (r: Result<(String, String), String>)
    ensures
        match title::title_model(
            providers@,
            *connections,
            text::opt_str(provider),
            text::opt_str(model),
        ) {
            Some((name, m)) => r matches Ok(p) && p.0@ == name && p.1@ == m,
            None => r matches Err(e) && e@ == "no model available for title generation"@,
        },
{
    match resolve_model(providers, connections, provider, model) {
        Some(found) => Ok(found),
        None => Err("no model available for title generation".to_owned()),
    }
}

/// What the user is told when the model for a title cannot be reached.
pub fn title_failure(error: &str) -> (r: String)
    ensures
        r@ == "title generation failed: "@ + error@,
{
    let mut s: String = "title generation failed: ".to_owned();
    s.append(error);
    s
}

}
