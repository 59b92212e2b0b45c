//! Where a request goes: which provider and model answer a turn.

use crate::catalog;
use crate::catalog::{
    context_length, find_provider, parse_provider_type, provider_type, CatalogProvider, Transport,
};
use crate::config::ContextConfig;
use crate::custom_commands;
use crate::custom_commands::parse_model_spec;
use crate::settings::{Connections, ProviderConfig, ProviderConfigView};
use crate::text_map;
use crate::views;
use vstd::prelude::*;

verus! {

/// Whether the provider of the id is set up and speaks the transport.
pub open spec fn speaks(
    providers: Seq<(Seq<char>, ProviderConfigView)>,
    catalog: Seq<CatalogProvider>,
    id: Seq<char>,
    target: Transport,
) -> bool {
    text_map::lookup(providers, id) matches Some(p) && catalog::transport_for(catalog, p.kind)
        == target
}

/// The last of the preferred ids whose provider speaks the transport.
pub open spec fn preferred(
    ids: Seq<Seq<char>>,
    providers: Seq<(Seq<char>, ProviderConfigView)>,
    catalog: Seq<CatalogProvider>,
    target: Transport,
) -> Option<Seq<char>>
    decreases ids.len(),
{
    if ids.len() == 0 {
        None
    } else if speaks(providers, catalog, ids.last(), target) {
        Some(ids.last())
    } else {
        preferred(ids.drop_last(), providers, catalog, target)
    }
}

/// The lowest id from a place on whose provider speaks the transport.
pub open spec fn first_of(
    providers: Seq<(Seq<char>, ProviderConfigView)>,
    catalog: Seq<CatalogProvider>,
    target: Transport,
    i: int,
) -> Option<Seq<char>>
    decreases providers.len() - i,
{
    if i < 0 || i >= providers.len() {
        None
    } else if catalog::transport_for(catalog, providers[i].1.kind) == target {
        Some(providers[i].0)
    } else {
        first_of(providers, catalog, target, i + 1)
    }
}

/// The provider that is taken for a transport: a preferred one, else the one
/// with the lowest id.
pub open spec fn provider_for(
    ids: Seq<Seq<char>>,
    providers: Seq<(Seq<char>, ProviderConfigView)>,
    catalog: Seq<CatalogProvider>,
    target: Transport,
) -> Option<Seq<char>> {
    match preferred(ids, providers, catalog, target) {
        Some(id) => Some(id),
        None => first_of(providers, catalog, target, 0),
    }
}

/// The provider and the model that a model spec asks for, or what is wrong with it.
pub open spec fn overridden(
    ids: Seq<Seq<char>>,
    providers: Seq<(Seq<char>, ProviderConfigView)>,
    catalog: Seq<CatalogProvider>,
    spec_text: Seq<char>,
) -> Result<(Seq<char>, Seq<char>), Seq<char>> {
    match custom_commands::model_spec(spec_text) {
        None => Err("invalid model `"@ + spec_text + "` (expected `<provider>/<model>`)"@),
        Some((kind, model)) => match catalog::transport_named(kind) {
            None => Err("unknown provider type `"@ + kind + "` in model `"@ + spec_text + "`"@),
            Some(target) => match provider_for(ids, providers, catalog, target) {
                Some(id) => Ok((id, model)),
                None => Err(
                    "no provider connection of type `"@ + kind
                        + "` is configured (for model `"@ + model + "`)"@,
                ),
            },
        },
    }
}

/// The content of a provider and a model, or of an error.
pub open spec fn target_view(r: Result<(String, String), String>) -> Result<
    (Seq<char>, Seq<char>),
    Seq<char>,
> {
    match r {
        Ok((provider, model)) => Ok((provider@, model@)),
        Err(e) => Err(e@),
    }
}

fn find_preferred(
    connections: &Connections,
    use_ids: &Vec<String>,
    catalog: &Vec<CatalogProvider>,
    target: Transport,
) -> (r: Option<String>)
    ensures
        views::opt_view(r) == preferred(
            views::views(use_ids@),
            text_map::viewed(connections.providers@),
            catalog@,
            target,
        ),
{
    let ghost ids = views::views(use_ids@);
    let ghost ps = text_map::viewed(connections.providers@);
    let mut i: usize = use_ids.len();
    proof {
        assert(ids.take(i as int) =~= ids);
    }
    while i > 0
        invariant
            ids == views::views(use_ids@),
            ps == text_map::viewed(connections.providers@),
            i <= use_ids@.len(),
            preferred(ids, ps, catalog@, target) == preferred(
                ids.take(i as int),
                ps,
                catalog@,
                target,
            ),
        decreases i,
    {
        i -= 1;
        proof {
            assert(ids.take(i + 1).drop_last() =~= ids.take(i as int));
            text_map::lemma_viewed_lookup(connections.providers@, use_ids@[i as int]@);
        }
        if let Some(p) = connections.providers.get(use_ids[i].as_str()) {
            if provider_type(catalog, p.kind.as_str()) == target {
                return Some(use_ids[i].clone());
            }
        }
    }
    None
}

fn find_first(
    connections: &Connections,
    catalog: &Vec<CatalogProvider>,
    target: Transport,
) -> (r: Option<String>)
    ensures
        views::opt_view(r) == first_of(
            text_map::viewed(connections.providers@),
            catalog@,
            target,
            0,
        ),
{
    let ghost ps = text_map::viewed(connections.providers@);
    let n: usize = connections.providers.len();
    let mut i: usize = 0;
    while i < n
        invariant
            n == connections.providers@.len(),
            ps == text_map::viewed(connections.providers@),
            i <= n,
            first_of(ps, catalog@, target, 0) == first_of(ps, catalog@, target, i as int),
        decreases n - i,
    {
        if provider_type(catalog, connections.providers.value(i).kind.as_str()) == target {
            return Some(connections.providers.key(i).to_owned());
        }
        i += 1;
    }
    None
}

/// The provider and the model that a model spec of the form
/// `<provider type>/<model>` asks for. Of the providers of that type the last
/// preferred one is taken, else the one with the lowest id.
pub fn resolve_model_override(
    connections: &Connections,
    use_ids: &Vec<String>,
    catalog: &Vec<CatalogProvider>,
    model_spec: &str,
) -> (r: Result<(String, String), String>)
    ensures
        target_view(r) == overridden(
            views::views(use_ids@),
            text_map::viewed(connections.providers@),
            catalog@,
            model_spec@,
        ),
{
    let (kind, model) = match parse_model_spec(model_spec) {
        Some(parts) => parts,
        None => {
            let mut e: String = "invalid model `".to_owned();
            e.append(model_spec);
            e.append("` (expected `<provider>/<model>`)");
            return Err(e);
        },
    };
    let target = match parse_provider_type(kind) {
        Some(t) => t,
        None => {
            let mut e: String = "unknown provider type `".to_owned();
            e.append(kind);
            e.append("` in model `");
            e.append(model_spec);
            e.append("`");
            return Err(e);
        },
    };
    if let Some(id) = find_preferred(connections, use_ids, catalog, target) {
        return Ok((id, model.to_owned()));
    }
    if let Some(id) = find_first(connections, catalog, target) {
        return Ok((id, model.to_owned()));
    }
    let mut e: String = "no provider connection of type `".to_owned();
    e.append(kind);
    e.append("` is configured (for model `");
    e.append(model);
    e.append("`)");
    Err(e)
}

/// Where a turn goes: where its own model spec says, else to the provider and
/// the model in use.
pub open spec fn turn_target(
    connections: Connections,
    ids: Seq<Seq<char>>,
    catalog: Seq<CatalogProvider>,
    model_spec: Option<Seq<char>>,
) -> Result<(Seq<char>, Seq<char>), Seq<char>> {
    match model_spec {
        Some(s) => overridden(ids, text_map::viewed(connections.providers@), catalog, s),
        None => match views::opt_view(connections.active) {
            None => Err("no active provider"@),
            Some(a) => match a.model {
                None => Err("no active model"@),
                Some(m) => Ok((a.provider, m)),
            },
        },
    }
}

/// Where a turn goes.
pub fn choose_target(
    connections: &Connections,
    use_ids: &Vec<String>,
    catalog: &Vec<CatalogProvider>,
    model_spec: Option<&str>,
) -> (r: Result<(String, String), String>)
    ensures
        target_view(r) == turn_target(
            *connections,
            views::views(use_ids@),
            catalog@,
            match model_spec {
                Some(s) => Some(s@),
                None => None,
            },
        ),
{
    if let Some(s) = model_spec {
        return resolve_model_override(connections, use_ids, catalog, s);
    }
    match &connections.active {
        None => Err("no active provider".to_owned()),
        Some(a) => match &a.model {
            None => Err("no active model".to_owned()),
            Some(m) => Ok((a.provider.clone(), m.clone())),
        },
    }
}

/// The settings to build a client from, where none is kept yet.
pub fn client_settings<'a>(connections: &'a Connections, kept: bool, name: &str) -> (r: Result<
    Option<&'a ProviderConfig>,
    String,
>)
    ensures
        if kept {
            r == Ok::<Option<&'a ProviderConfig>, String>(None)
        } else {
            match text_map::lookup(connections.providers@, name@) {
                Some(p) => r == Ok::<Option<&'a ProviderConfig>, String>(Some(&p)),
                None => r matches Err(e) && e@ == "provider '"@ + name@ + "' not found"@,
            }
        },
{
    if kept {
        return Ok(None);
    }
    match connections.providers.get(name) {
        Some(p) => Ok(Some(p)),
        None => {
            let mut e: String = "provider '".to_owned();
            e.append(name);
            e.append("' not found");
            Err(e)
        },
    }
}

/// The catalog entry of the provider with the name.
pub open spec fn entry_of(
    providers: Seq<(Seq<char>, ProviderConfigView)>,
    catalog: Seq<CatalogProvider>,
    name: Seq<char>,
) -> Option<CatalogProvider> {
    match text_map::lookup(providers, name) {
        Some(p) => catalog::provider_with(catalog, p.catalog_id()),
        None => None,
    }
}

/// The catalog entry of the provider with the name.
pub fn catalog_entry<'a>(
    connections: &Connections,
    catalog: &'a Vec<CatalogProvider>,
    name: &str,
) -> (r: Option<&'a CatalogProvider>)
    ensures
        match entry_of(text_map::viewed(connections.providers@), catalog@, name@) {
            Some(p) => r == Some(&p),
            None => r is None,
        },
{
    proof {
        text_map::lemma_viewed_lookup(connections.providers@, name@);
    }
    match connections.providers.get(name) {
        Some(p) => find_provider(catalog, p.catalog_id()),
        None => None,
    }
}

/// How much of a conversation fits a model.
#[derive(Debug, Clone, Copy, PartialEq, Eq, Structural)]
pub struct Budget {
    pub context_length: u64,
    pub reserved: u64,
    pub keep_recent_tokens: u64,
    pub tool_output_max_chars: usize,
    pub preamble_tokens: u64,
}

impl Budget {
    /// The budget with the size of the preamble.
    pub fn with_preamble_tokens(self, preamble_tokens: u64) -> (r: Self)
        ensures
            r == (Budget { preamble_tokens, ..self }),
    {
        Budget { preamble_tokens, ..self }
    }
}

/// The context length that counts: what the catalog knows, where a negative
/// one counts as none, else the fallback.
pub open spec fn length_for(
    config: ContextConfig,
    provider: Option<&CatalogProvider>,
    model: Seq<char>,
) -> u64 {
    match provider {
        Some(p) => match catalog::context_of(*p, model) {
            Some(n) => if n < 0 {
                0
            } else {
                n as u64
            },
            None => config.fallback_context_length,
        },
        None => config.fallback_context_length,
    }
}

/// The budget for a model; none where context management is off.
pub fn context_budget(
    config: &ContextConfig,
    provider: Option<&CatalogProvider>,
    model: &str,
) -> (r: Option<Budget>)
    ensures
        r == if config.disabled {
            None
        } else {
            Some(
                Budget {
                    context_length: length_for(*config, provider, model@),
                    reserved: config.reserved,
                    keep_recent_tokens: config.keep_recent_tokens,
                    tool_output_max_chars: config.tool_output_max_chars,
                    preamble_tokens: 0,
                },
            )
        },
{
    if config.disabled {
        return None;
    }
    let known: Option<i64> = match provider {
        Some(p) => context_length(p, model),
        None => None,
    };
    let length: u64 = match known {
        Some(n) => if n < 0 {
            0
        } else {
            n as u64
        },
        None => config.fallback_context_length,
    };
    Some(
        Budget {
            context_length: length,
            reserved: config.reserved,
            keep_recent_tokens: config.keep_recent_tokens,
            tool_output_max_chars: config.tool_output_max_chars,
            preamble_tokens: 0,
        },
    )
}

/// A model spec always goes to a provider that is set up and speaks the
/// transport that the spec names.
pub proof fn lemma_override_speaks_the_transport(
    ids: Seq<Seq<char>>,
    providers: Seq<(Seq<char>, ProviderConfigView)>,
    catalog: Seq<CatalogProvider>,
    model_spec: Seq<char>,
)
    requires
        text_map::ordered(providers),
    ensures
        overridden(ids, providers, catalog, model_spec) matches Ok((id, model)) ==> {
            &&& custom_commands::model_spec(model_spec) matches Some((kind, m))
            &&& m == model
            &&& catalog::transport_named(kind) matches Some(target)
            &&& speaks(providers, catalog, id, target)
        },
{
    if let Some((kind, m)) = custom_commands::model_spec(model_spec) {
        if let Some(target) = catalog::transport_named(kind) {
            lemma_preferred_speaks(ids, providers, catalog, target);
            lemma_first_speaks(providers, catalog, target, 0);
        }
    }
}

proof fn lemma_preferred_speaks(
    ids: Seq<Seq<char>>,
    providers: Seq<(Seq<char>, ProviderConfigView)>,
    catalog: Seq<CatalogProvider>,
    target: Transport,
)
    ensures
        preferred(ids, providers, catalog, target) matches Some(id) ==> speaks(
            providers,
            catalog,
            id,
            target,
        ),
    decreases ids.len(),
{
    if ids.len() > 0 {
        lemma_preferred_speaks(ids.drop_last(), providers, catalog, target);
    }
}

proof fn lemma_first_speaks(
    providers: Seq<(Seq<char>, ProviderConfigView)>,
    catalog: Seq<CatalogProvider>,
    target: Transport,
    i: int,
)
    requires
        text_map::ordered(providers),
        0 <= i,
    ensures
        first_of(providers, catalog, target, i) matches Some(id) ==> speaks(
            providers,
            catalog,
            id,
            target,
        ),
    decreases providers.len() - i,
{
    if i < providers.len() {
        text_map::lemma_lookup_at(providers, i);
        lemma_first_speaks(providers, catalog, target, i + 1);
    }
}

}
