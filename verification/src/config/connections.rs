//! The providers of the connections file, each with a kind that may be left out.

use crate::catalog;
use crate::catalog::{find_provider, has_key, requires_api_key, CatalogProvider};
use crate::config;
use crate::config::connections_kdl;
use crate::config::connections_kdl::{from_kdl, to_kdl};
use crate::config::{config_file, CONNECTIONS_FILE_NAME};
use crate::error;
use crate::error::{CoreError, FileRead};
use crate::text;
use crate::text::same;
use crate::text_map;
use crate::text_map::TextMap;
use crate::views;
use vstd::prelude::*;

verus! {

/// A provider of the connections file. Its kind names a catalog entry.
#[derive(Debug, Clone, PartialEq)]
pub struct ProviderConfig {
    pub kind: String,
    pub kind_omitted: bool,
    pub api_key: Option<String>,
    pub base_url: Option<String>,
}

/// The content of a [`ProviderConfig`].
#[verifier::ext_equal]
pub struct ProviderView {
    pub kind: Seq<char>,
    pub kind_omitted: bool,
    pub api_key: Option<Seq<char>>,
    pub base_url: Option<Seq<char>>,
}

impl View for ProviderConfig {
    type V = ProviderView;

    open spec fn view(&self) -> ProviderView {
        ProviderView {
            kind: self.kind@,
            kind_omitted: self.kind_omitted,
            api_key: views::opt_view(self.api_key),
            base_url: views::opt_view(self.base_url),
        }
    }
}

/// The connections file: the providers by name, and the one in use.
#[derive(Debug, Clone, PartialEq)]
pub struct Connections {
    pub providers: TextMap<ProviderConfig>,
    pub active_provider: Option<String>,
    pub active_model: Option<String>,
}

/// The content of a [`Connections`].
#[verifier::ext_equal]
pub struct ConnectionsView {
    pub providers: Seq<(Seq<char>, ProviderView)>,
    pub active_provider: Option<Seq<char>>,
    pub active_model: Option<Seq<char>>,
}

impl View for Connections {
    type V = ConnectionsView;

    open spec fn view(&self) -> ConnectionsView {
        ConnectionsView {
            providers: text_map::viewed(self.providers@),
            active_provider: views::opt_view(self.active_provider),
            active_model: views::opt_view(self.active_model),
        }
    }
}

/// No providers, and none in use.
pub open spec fn no_connections() -> ConnectionsView {
    ConnectionsView { providers: Seq::empty(), active_provider: None, active_model: None }
}

impl Default for Connections {
    fn default() -> (r: Self)
        ensures
            r@ == no_connections(),
    {
        let r = Connections {
            providers: TextMap::new(),
            active_provider: None,
            active_model: None,
        };
        proof {
            assert(r@.providers =~= Seq::empty());
        }
        r
    }
}

/// Whether a provider with the kind and the key can be connected to. The
/// catalog entry says whether a key is needed; a kind that the catalog does not
/// list needs one, unless it is the local one.
pub open spec fn kind_connectable(
    ps: Seq<CatalogProvider>,
    kind: Seq<char>,
    key: Option<Seq<char>>,
) -> bool {
    match catalog::provider_with(ps, kind) {
        Some(p) => p.api_key is None || catalog::key_is_set(key),
        None => kind == "ollama"@ || catalog::key_is_set(key),
    }
}

/// Whether a provider with the kind and the key can be connected to.
pub fn kind_is_connectable(
    providers: &Vec<CatalogProvider>,
    kind: &str,
    api_key: &Option<String>,
) -> (b: bool)
    ensures
        b == kind_connectable(providers@, kind@, views::opt_view(*api_key)),
{
    match find_provider(providers, kind) {
        Some(p) => !requires_api_key(p) || has_key(api_key),
        None => same(kind, "ollama") || has_key(api_key),
    }
}

impl ProviderConfig {
    /// A provider of the kind.
    pub fn new(kind: &str, api_key: Option<String>, base_url: Option<String>) -> (r: Self)
        ensures
            r@ == (ProviderView {
                kind: kind@,
                kind_omitted: false,
                api_key: views::opt_view(api_key),
                base_url: views::opt_view(base_url),
            }),
    {
        ProviderConfig { kind: kind.to_owned(), kind_omitted: false, api_key, base_url }
    }

    /// Whether the provider can be connected to.
    pub fn is_connectable(&self, providers: &Vec<CatalogProvider>) -> (b: bool)
        ensures
            b == kind_connectable(providers@, self@.kind, self@.api_key),
    {
        kind_is_connectable(providers, self.kind.as_str(), &self.api_key)
    }
}

impl Connections {
    /// The connections of a file. A file that is not there gives none.
    pub fn load_from(read: FileRead) -> (r: Result<Self, CoreError>)
        ensures
            match read {
                FileRead::Text(contents) => connections_kdl::is_reading(contents@, r),
                FileRead::Missing => r matches Ok(c) && c@ == no_connections(),
                FileRead::Failed(m) => r matches Err(e) && e@ == error::ErrorView::ConfigIo(m@),
            },
    {
        match read {
            FileRead::Text(contents) => from_kdl(contents.as_str()),
            FileRead::Missing => Ok(Connections::default()),
            FileRead::Failed(m) => Err(CoreError::ConfigIo(m)),
        }
    }

    /// The text of the file that the connections are saved in. Where it can be
    /// read at all, reading it gives the same connections.
    pub fn save_text(&self) -> (r: String)
        ensures
            connections_kdl::is_writing(self@, r@),
    {
        to_kdl(self)
    }

    /// Whether the provider in use can be connected to.
    pub fn has_connected_providers(&self, providers: &Vec<CatalogProvider>) -> (b: bool)
        ensures
            b == match self@.active_provider {
                Some(name) => match text_map::lookup(self@.providers, name) {
                    Some(p) => kind_connectable(providers@, p.kind, p.api_key),
                    None => false,
                },
                None => false,
            },
    {
        match &self.active_provider {
            None => false,
            Some(name) => {
                proof {
                    text_map::lemma_viewed_lookup(self.providers@, name@);
                }
                match self.providers.get(name.as_str()) {
                    None => false,
                    Some(p) => p.is_connectable(providers),
                }
            },
        }
    }
}

impl Connections {
    /// The file of the connections.
    pub fn connections_path(platform: Option<&str>) -> (r: Result<String, CoreError>)
        ensures
            config::path_view(r) == config::settings_file(
                text::opt_str(platform),
                config::CONNECTIONS_FILE_NAME@,
            ),
    {
        config_file(platform, CONNECTIONS_FILE_NAME)
    }
}

}
