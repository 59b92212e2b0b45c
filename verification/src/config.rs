//! The settings of the program.

use crate::error;
use crate::error::{error_at, ConfigParseError, CoreError};
use crate::paths;
use crate::paths::join;
use crate::text;
use crate::text_map;
use crate::text_map::TextMap;
use crate::views;
use vstd::prelude::*;

pub mod connections;
pub mod connections_kdl;

verus! {

/// How much of a model's context may be filled.
#[derive(Debug, Clone, PartialEq, Eq)]
pub struct ContextConfig {
    pub disabled: bool,
    pub reserved: u64,
    pub keep_recent_tokens: u64,
    pub tool_output_max_chars: usize,
    pub fallback_context_length: u64,
}

impl Default for ContextConfig {
    fn default() -> (r: Self)
        ensures
            r == (ContextConfig {
                disabled: false,
                reserved: 20_000,
                keep_recent_tokens: 20_000,
                tool_output_max_chars: 16_000,
                fallback_context_length: 128_000,
            }),
    {
        ContextConfig {
            disabled: false,
            reserved: 20_000,
            keep_recent_tokens: 20_000,
            tool_output_max_chars: 16_000,
            fallback_context_length: 128_000,
        }
    }
}

impl ContextConfig {
    /// How many tokens of input a model of the context length takes, with the
    /// reserve left free.
    pub fn usable(&self, context_length: u64) -> (r: u64)
        ensures
            r == if context_length >= self.reserved {
                context_length - self.reserved
            } else {
                0
            },
    {
        context_length.saturating_sub(self.reserved)
    }
}

/// Which skills are loaded.
#[derive(Debug, Clone, PartialEq, Eq)]
pub struct SkillsConfig {
    pub disabled: bool,
    pub dirs: Vec<String>,
}

impl Default for SkillsConfig {
    fn default() -> (r: Self)
        ensures
            !r.disabled,
            r.dirs@.len() == 0,
    {
        SkillsConfig { disabled: false, dirs: Vec::new() }
    }
}

/// Which model embeds texts.
#[derive(Debug, Clone, PartialEq, Eq)]
pub struct EmbeddingConfig {
    pub disabled: bool,
    pub provider: Option<String>,
    pub model: Option<String>,
    pub dimensions: Option<u32>,
}

impl Default for EmbeddingConfig {
    fn default() -> (r: Self)
        ensures
            r == (EmbeddingConfig {
                disabled: false,
                provider: None,
                model: None,
                dimensions: None,
            }),
    {
        EmbeddingConfig { disabled: false, provider: None, model: None, dimensions: None }
    }
}

/// How the screen is drawn. A frame rate of zero means no limit.
#[derive(Debug, Clone, PartialEq, Eq)]
pub struct UiPrefs {
    pub frame_rate: u32,
}

impl Default for UiPrefs {
    fn default() -> (r: Self)
        ensures
            r.frame_rate == 60,
    {
        UiPrefs { frame_rate: 60 }
    }
}

/// How many turns agents may take. Zero means no limit.
#[derive(Debug, Clone, PartialEq, Eq)]
pub struct AgentConfig {
    pub max_turns: usize,
    pub worker_max_turns: usize,
}

impl Default for AgentConfig {
    fn default() -> (r: Self)
        ensures
            r == (AgentConfig { max_turns: 0, worker_max_turns: 0 }),
    {
        AgentConfig { max_turns: 0, worker_max_turns: 0 }
    }
}

/// The limit that a setting stands for.
pub open spec fn limit(value: usize) -> usize {
    if value == 0 {
        usize::MAX
    } else {
        value
    }
}

fn effective(value: usize) -> (r: usize)
    ensures
        r == limit(value),
{
    if value == 0 {
        usize::MAX
    } else {
        value
    }
}

impl AgentConfig {
    /// How many turns the main agent may take.
    pub fn effective_max_turns(&self) -> (r: usize)
        ensures
            r == limit(self.max_turns),
    {
        effective(self.max_turns)
    }

    /// How many turns a worker may take.
    pub fn effective_worker_max_turns(&self) -> (r: usize)
        ensures
            r == limit(self.worker_max_turns),
    {
        effective(self.worker_max_turns)
    }
}

/// A language server in the settings.
#[derive(Debug, Clone, PartialEq, Eq)]
pub struct LspServerSpecRepr {
    pub command: Vec<String>,
    pub extensions: Vec<String>,
    pub no_auto_start: bool,
    pub root_markers: Vec<String>,
}

/// The content of a [`LspServerSpecRepr`].
#[verifier::ext_equal]
pub struct ServerReprView {
    pub command: Seq<Seq<char>>,
    pub extensions: Seq<Seq<char>>,
    pub no_auto_start: bool,
    pub root_markers: Seq<Seq<char>>,
}

impl View for LspServerSpecRepr {
    type V = ServerReprView;

    open spec fn view(&self) -> ServerReprView {
        ServerReprView {
            command: text::texts(self.command@),
            extensions: text::texts(self.extensions@),
            no_auto_start: self.no_auto_start,
            root_markers: text::texts(self.root_markers@),
        }
    }
}

/// The language servers in the settings, by name.
#[derive(Debug, Clone, PartialEq)]
pub struct LspConfigRepr {
    pub disabled: bool,
    pub servers: TextMap<LspServerSpecRepr>,
}

/// The content of a [`LspConfigRepr`].
#[verifier::ext_equal]
pub struct LspReprView {
    pub disabled: bool,
    pub servers: Seq<(Seq<char>, ServerReprView)>,
}

impl View for LspConfigRepr {
    type V = LspReprView;

    open spec fn view(&self) -> LspReprView {
        LspReprView { disabled: self.disabled, servers: text_map::viewed(self.servers@) }
    }
}

impl Default for LspConfigRepr {
    fn default() -> (r: Self)
        ensures
            r@ == (LspReprView { disabled: false, servers: Seq::empty() }),
    {
        let r = LspConfigRepr { disabled: false, servers: TextMap::new() };
        proof {
            assert(r@.servers =~= Seq::empty());
        }
        r
    }
}

/// The settings.
#[derive(Debug, Clone, PartialEq)]
pub struct Config {
    pub ui: UiPrefs,
    pub embedding: EmbeddingConfig,
    pub agent: AgentConfig,
    pub lsp: LspConfigRepr,
    pub skills: SkillsConfig,
    pub context: ContextConfig,
}

impl Default for Config {
    fn default() -> (r: Self)
        ensures
            r.ui.frame_rate == 60,
            r.embedding == (EmbeddingConfig {
                disabled: false,
                provider: None,
                model: None,
                dimensions: None,
            }),
            r.agent == (AgentConfig { max_turns: 0, worker_max_turns: 0 }),
            r.lsp@ == (LspReprView { disabled: false, servers: Seq::empty() }),
            !r.skills.disabled,
            r.skills.dirs@.len() == 0,
            r.context == (ContextConfig {
                disabled: false,
                reserved: 20_000,
                keep_recent_tokens: 20_000,
                tool_output_max_chars: 16_000,
                fallback_context_length: 128_000,
            }),
    {
        Config {
            ui: UiPrefs::default(),
            embedding: EmbeddingConfig::default(),
            agent: AgentConfig::default(),
            lsp: LspConfigRepr::default(),
            skills: SkillsConfig::default(),
            context: ContextConfig::default(),
        }
    }
}

/// Where a value in the settings could not be taken: the text of the settings,
/// the stretch in it, what is wrong, and advice.
#[derive(Debug)]
pub struct ValuePlace {
    pub input: String,
    pub offset: usize,
    pub length: usize,
    pub message: Option<String>,
    pub help: Option<String>,
}

/// The error for settings that could not be taken, at the place where one is
/// known, else at the start.
pub fn map_error(place: &Option<ValuePlace>, message: &str) -> (r: CoreError)
    ensures
        r@ == match *place {
            Some(p) => error::located(
                p.input@,
                error::Fault {
                    message: match p.message {
                        Some(m) => m@,
                        None => message@,
                    },
                    help: views::opt_view(p.help),
                    offset: p.offset as nat,
                    length: p.length as nat,
                },
            ),
            None => error::ErrorView::ConfigParse(
                error::ParseErrorView {
                    message: message@,
                    line: 1,
                    column: 1,
                    length: 0,
                    help: None,
                },
            ),
        },
{
    match place {
        Some(p) => {
            let message = match &p.message {
                Some(m) => m.clone(),
                None => message.to_owned(),
            };
            let help = match &p.help {
                Some(h) => Some(h.clone()),
                None => None,
            };
            error_at(p.input.as_str(), p.offset, p.length, message, help)
        },
        None => CoreError::ConfigParse(
            ConfigParseError {
                message: message.to_owned(),
                line: 1,
                column: 1,
                length: 0,
                help: None,
            },
        ),
    }
}

/// The directory of the settings, below the one that the platform has for them.
pub const CONFIG_DIR_NAME: &'static str = "shuvarie";

/// The file of the configuration.
pub const CONFIG_FILE_NAME: &'static str = "config.kdl";

/// The file of the connections.
pub const CONNECTIONS_FILE_NAME: &'static str = "connections.kdl";

/// The directory of the settings in the platform's, which some platforms lack.
pub open spec fn settings_dir(platform: Option<Seq<char>>) -> Result<Seq<char>, error::ErrorView> {
    match platform {
        Some(d) => Ok(paths::joined(d, CONFIG_DIR_NAME@)),
        None => Err(error::ErrorView::ConfigIo("no config directory for this platform"@)),
    }
}

/// A file in the directory of the settings.
pub open spec fn settings_file(platform: Option<Seq<char>>, name: Seq<char>) -> Result<
    Seq<char>,
    error::ErrorView,
> {
    match settings_dir(platform) {
        Ok(d) => Ok(paths::joined(d, name)),
        Err(e) => Err(e),
    }
}

/// The content of a path, or of an error.
pub open spec fn path_view(r: Result<String, CoreError>) -> Result<Seq<char>, error::ErrorView> {
    match r {
        Ok(p) => Ok(p@),
        Err(e) => Err(e@),
    }
}

/// The directory of the settings.
pub fn config_dir(platform: Option<&str>) -> (r: Result<String, CoreError>)
    ensures
        path_view(r) == settings_dir(text::opt_str(platform)),
{
    match platform {
        Some(d) => Ok(join(d, CONFIG_DIR_NAME)),
        None => Err(CoreError::ConfigIo("no config directory for this platform".to_owned())),
    }
}

/// A file in the directory of the settings.
pub fn config_file(platform: Option<&str>, name: &str) -> (r: Result<String, CoreError>)
    ensures
        path_view(r) == settings_file(text::opt_str(platform), name@),
{
    match config_dir(platform) {
        Ok(d) => Ok(join(d.as_str(), name)),
        Err(e) => Err(e),
    }
}

impl Config {
    /// The file of the configuration.
    pub fn config_path(platform: Option<&str>) -> (r: Result<String, CoreError>)
        ensures
            path_view(r) == settings_file(text::opt_str(platform), CONFIG_FILE_NAME@),
    {
        config_file(platform, CONFIG_FILE_NAME)
    }
}

}
