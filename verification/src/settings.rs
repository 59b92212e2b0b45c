//! The providers that the user has set up.

use crate::text_map;
use crate::text_map::TextMap;
use crate::views;
use vstd::prelude::*;

verus! {

/// A provider that the user has set up. `kind` is the transport it speaks, or
/// in older settings a catalog id; `catalog` names its catalog entry.
#[derive(Debug, Clone)]
pub struct ProviderConfig {
    pub name: String,
    pub kind: String,
    pub api_key: Option<String>,
    pub base_url: Option<String>,
    pub catalog: Option<String>,
}

/// The content of a [`ProviderConfig`].
#[verifier::ext_equal]
pub struct ProviderConfigView {
    pub name: Seq<char>,
    pub kind: Seq<char>,
    pub api_key: Option<Seq<char>>,
    pub base_url: Option<Seq<char>>,
    pub catalog: Option<Seq<char>>,
}

impl View for ProviderConfig {
    type V = ProviderConfigView;

    open spec fn view(&self) -> ProviderConfigView {
        ProviderConfigView {
            name: self.name@,
            kind: self.kind@,
            api_key: views::opt_view(self.api_key),
            base_url: views::opt_view(self.base_url),
            catalog: views::opt_view(self.catalog),
        }
    }
}

impl ProviderConfigView {
    /// The catalog entry of the provider: the one it names, else its kind.
    pub open spec fn catalog_id(self) -> Seq<char> {
        match self.catalog {
            Some(c) => c,
            None => self.kind,
        }
    }
}

impl ProviderConfig {
    /// A provider without a named catalog entry.
    pub fn new(
        name: &str,
        kind: &str,
        api_key: Option<String>,
        base_url: Option<String>,
    ) -> (r: Self)
        ensures
            r@ == (ProviderConfigView {
                name: name@,
                kind: kind@,
                api_key: views::opt_view(api_key),
                base_url: views::opt_view(base_url),
                catalog: None,
            }),
    {
        ProviderConfig {
            name: name.to_owned(),
            kind: kind.to_owned(),
            api_key,
            base_url,
            catalog: None,
        }
    }

    /// The provider with the catalog entry.
    pub fn with_catalog(self, catalog: Option<&str>) -> (r: Self)
        ensures
            r@ == (ProviderConfigView {
                catalog: match catalog {
                    Some(c) => Some(c@),
                    None => None,
                },
                ..self@
            }),
    {
        let catalog = match catalog {
            Some(c) => Some(c.to_owned()),
            None => None,
        };
        ProviderConfig {
            name: self.name,
            kind: self.kind,
            api_key: self.api_key,
            base_url: self.base_url,
            catalog,
        }
    }

    /// The catalog entry of the provider.
    pub fn catalog_id(&self) -> (r: &str)
        ensures
            r@ == self@.catalog_id(),
    {
        match &self.catalog {
            Some(c) => c.as_str(),
            None => self.kind.as_str(),
        }
    }
}

/// The provider in use, with the model and the reasoning effort chosen for it.
#[derive(Debug, Clone)]
pub struct Active {
    pub provider: String,
    pub model: Option<String>,
    pub variant: Option<String>,
}

/// The content of an [`Active`].
#[verifier::ext_equal]
pub struct ActiveView {
    pub provider: Seq<char>,
    pub model: Option<Seq<char>>,
    pub variant: Option<Seq<char>>,
}

impl View for Active {
    type V = ActiveView;

    open spec fn view(&self) -> ActiveView {
        ActiveView {
            provider: self.provider@,
            model: views::opt_view(self.model),
            variant: views::opt_view(self.variant),
        }
    }
}

/// The providers that the user has set up, by name, and the one in use.
#[derive(Debug, Clone)]
pub struct Connections {
    pub providers: TextMap<ProviderConfig>,
    pub active: Option<Active>,
}

impl Default for Connections {
    fn default() -> (r: Self)
        ensures
            r.providers@.len() == 0,
            r.active is None,
    {
        Connections { providers: TextMap::new(), active: None }
    }
}

impl Connections {
    /// The provider with the name.
    pub open spec fn provider(&self, name: Seq<char>) -> Option<ProviderConfig> {
        text_map::lookup(self.providers@, name)
    }

    /// The provider in use, if it is set up.
    pub open spec fn active_provider(&self) -> Option<ProviderConfig> {
        match self.active {
            Some(a) => self.provider(a.provider@),
            None => None,
        }
    }
}

}
