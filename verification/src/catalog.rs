//! The catalog of providers and models.

use crate::llm;
use crate::settings;
use crate::settings::{Connections, ProviderConfig};
use crate::text;
use crate::text::{chars_of, contains, copy_texts, same, split_once, strip_prefix, trim};
use crate::text_map;
use crate::text_map::TextMap;
use crate::views;
use vstd::prelude::*;

verus! {

/// The transport that a provider speaks.
#[derive(Debug, Clone, Copy, PartialEq, Eq, Structural)]
pub enum Transport {
    Openai,
    OpenaiCompat,
    Openrouter,
    Vercel,
    Anthropic,
    Google,
    Azure,
    Bedrock,
    GoogleVertex,
    Ollama,
}

/// A choice of how a model reasons.
#[derive(Debug, Clone)]
pub struct EffortOption {
    pub kind: String,
    pub values: Vec<String>,
}

/// A model of the catalog.
#[derive(Debug, Clone)]
pub struct CatalogModel {
    pub id: String,
    pub name: String,
    pub reasoning: bool,
    pub reasoning_options: Vec<EffortOption>,
    pub attachment: bool,
    pub context: Option<i64>,
}

/// A provider of the catalog. An `api_key` says that a key is needed.
#[derive(Debug, Clone)]
pub struct CatalogProvider {
    pub name: String,
    pub id: String,
    pub api_key: Option<String>,
    pub api_endpoint: Option<String>,
    pub kind: Option<Transport>,
    pub default_large_model_id: Option<String>,
    pub default_small_model_id: Option<String>,
    pub models: Vec<CatalogModel>,
}

/// The name of a transport.
pub open spec fn transport_name(kind: Transport) -> Seq<char> {
    match kind {
        Transport::Openai => "openai"@,
        Transport::OpenaiCompat => "openai-compat"@,
        Transport::Openrouter => "openrouter"@,
        Transport::Vercel => "vercel"@,
        Transport::Anthropic => "anthropic"@,
        Transport::Google => "google"@,
        Transport::Azure => "azure"@,
        Transport::Bedrock => "bedrock"@,
        Transport::GoogleVertex => "google-vertex"@,
        Transport::Ollama => "ollama"@,
    }
}

/// The transport with the name.
pub open spec fn transport_named(name: Seq<char>) -> Option<Transport> {
    if name == "openai"@ {
        Some(Transport::Openai)
    } else if name == "openai-compat"@ {
        Some(Transport::OpenaiCompat)
    } else if name == "openrouter"@ {
        Some(Transport::Openrouter)
    } else if name == "vercel"@ {
        Some(Transport::Vercel)
    } else if name == "anthropic"@ {
        Some(Transport::Anthropic)
    } else if name == "google"@ {
        Some(Transport::Google)
    } else if name == "azure"@ {
        Some(Transport::Azure)
    } else if name == "bedrock"@ {
        Some(Transport::Bedrock)
    } else if name == "google-vertex"@ {
        Some(Transport::GoogleVertex)
    } else if name == "ollama"@ {
        Some(Transport::Ollama)
    } else {
        None
    }
}

/// The name of each transport gives the transport back.
pub proof fn lemma_type_names_are_read_back(kind: Transport)
    ensures
        transport_named(transport_name(kind)) == Some(kind),
{
    reveal_strlit("openai");
    reveal_strlit("openai-compat");
    reveal_strlit("openrouter");
    reveal_strlit("vercel");
    reveal_strlit("anthropic");
    reveal_strlit("google");
    reveal_strlit("azure");
    reveal_strlit("bedrock");
    reveal_strlit("google-vertex");
    reveal_strlit("ollama");
    assert("openai"@.len() == 6 && "vercel"@.len() == 6 && "google"@.len() == 6);
    assert("openai"@[0] == 'o' && "vercel"@[0] == 'v' && "google"@[0] == 'g');
    assert("ollama"@.len() == 6 && "ollama"@[1] == 'l' && "openai"@[1] == 'p');
    assert("bedrock"@.len() == 7 && "azure"@.len() == 5 && "anthropic"@.len() == 9);
    assert("openrouter"@.len() == 10);
    assert("openai-compat"@.len() == 13 && "openai-compat"@[0] == 'o');
    assert("google-vertex"@.len() == 13 && "google-vertex"@[0] == 'g');
}

/// `selune::ReasoningOption`, a choice of how a model of the embedded catalog reasons.
#[verifier::external_type_specification]
#[verifier::external_body]
pub struct ExReasoningOption(selune::ReasoningOption);

/// `selune::Model`, a model of the embedded catalog.
#[verifier::external_type_specification]
#[verifier::external_body]
pub struct ExModel(selune::Model);

/// `selune::Provider`, an entry of the embedded catalog.
#[verifier::external_type_specification]
#[verifier::external_body]
pub struct ExProvider(selune::Provider);

/// `selune::embedded::all`: the catalog that is built into the crate. What it
/// lists changes with the crate, and nothing is said of it here.
pub assume_specification[ selune::embedded::all ]() -> (r: Vec<selune::Provider>)
;

/// What a `selune::ReasoningOption` holds: its type, and its values.
#[verifier::ext_equal]
pub struct OptionFields {
    pub kind: Seq<char>,
    pub values: Seq<Seq<char>>,
}

/// What of a `selune::Model` the library reads.
#[verifier::ext_equal]
pub struct ModelFields {
    pub id: Seq<char>,
    pub name: Seq<char>,
    pub reasoning: bool,
    pub options: Seq<selune::ReasoningOption>,
    pub attachment: bool,
    pub context: Option<i64>,
}

/// What of a `selune::Provider` the library reads. Its transport is given by
/// name.
#[verifier::ext_equal]
pub struct ProviderFields {
    pub name: Seq<char>,
    pub id: Seq<char>,
    pub api_key: Option<Seq<char>>,
    pub api_endpoint: Option<Seq<char>>,
    pub kind: Option<Seq<char>>,
    pub default_large_model_id: Option<Seq<char>>,
    pub default_small_model_id: Option<Seq<char>>,
    pub models: Seq<selune::Model>,
}

/// The fields of a `selune::ReasoningOption`.
pub uninterp spec fn option_fields(o: selune::ReasoningOption) -> OptionFields;

/// The fields of a `selune::Model`.
pub uninterp spec fn model_fields(m: selune::Model) -> ModelFields;

/// The fields of a `selune::Provider`.
pub uninterp spec fn provider_fields(p: selune::Provider) -> ProviderFields;

/// The fields of a `selune::ReasoningOption` that the library reads, its type
/// by way of `serde_json::to_value`: they are the ones that the option holds.
#[verifier::external_body]
fn option_of(o: selune::ReasoningOption) -> (r: EffortOption)
    ensures
        option_fields(o) == (OptionFields { kind: r.kind@, values: text::texts(r.values@) }),
{
    let fields = serde_json::to_value(&o).unwrap_or_default();
    let kind = fields["type"].as_str().unwrap_or_default().to_owned();
    EffortOption { kind, values: o.values }
}

/// The fields of a `selune::Model` that the library reads: they are the ones
/// that the model holds. Its options come apart.
#[verifier::external_body]
fn model_of(m: selune::Model) -> (r: (CatalogModel, Vec<selune::ReasoningOption>))
    ensures
        model_fields(m) == (ModelFields {
            id: r.0.id@,
            name: r.0.name@,
            reasoning: r.0.reasoning,
            options: r.1@,
            attachment: r.0.attachment,
            context: r.0.context,
        }),
{
    let model = CatalogModel {
        id: m.id,
        name: m.name,
        reasoning: m.reasoning,
        reasoning_options: Vec::new(),
        attachment: m.attachment,
        context: m.limit.context,
    };
    (model, m.reasoning_options)
}

/// The fields of a `selune::Provider` that the library reads: they are the ones
/// that the entry holds. The name of its transport, by way of
/// `serde_json::to_value`, and its models come apart.
#[verifier::external_body]
fn provider_of(p: selune::Provider) -> (r: (
    CatalogProvider,
    Option<String>,
    Vec<selune::Model>,
))
    ensures
        provider_fields(p) == (ProviderFields {
            name: r.0.name@,
            id: r.0.id@,
            api_key: text::opt_text(r.0.api_key),
            api_endpoint: text::opt_text(r.0.api_endpoint),
            kind: text::opt_text(r.1),
            default_large_model_id: text::opt_text(r.0.default_large_model_id),
            default_small_model_id: text::opt_text(r.0.default_small_model_id),
            models: r.2@,
        }),
{
    let fields = serde_json::to_value(&p).unwrap_or_default();
    let kind = fields["type"].as_str().map(str::to_owned);
    let provider = CatalogProvider {
        name: p.name,
        id: p.id.0,
        api_key: p.api_key,
        api_endpoint: p.api_endpoint,
        kind: None,
        default_large_model_id: p.default_large_model_id,
        default_small_model_id: p.default_small_model_id,
        models: Vec::new(),
    };
    (provider, kind, p.models)
}

/// `serde_json::from_value` into `selune::ProviderType`: the transport whose
/// name in kebab case the text is, and nothing for any other text.
#[verifier::external_body]
fn read_provider_type(kind: &str) -> (r: Option<Transport>)
    ensures
        r == transport_named(kind@),
{
    match serde_json::from_value(serde_json::Value::String(kind.to_owned())).ok()? {
        selune::ProviderType::Openai => Some(Transport::Openai),
        selune::ProviderType::OpenaiCompat => Some(Transport::OpenaiCompat),
        selune::ProviderType::Openrouter => Some(Transport::Openrouter),
        selune::ProviderType::Vercel => Some(Transport::Vercel),
        selune::ProviderType::Anthropic => Some(Transport::Anthropic),
        selune::ProviderType::Google => Some(Transport::Google),
        selune::ProviderType::Azure => Some(Transport::Azure),
        selune::ProviderType::Bedrock => Some(Transport::Bedrock),
        selune::ProviderType::GoogleVertex => Some(Transport::GoogleVertex),
        selune::ProviderType::Ollama => Some(Transport::Ollama),
    }
}

/// The transport with the name.
pub fn parse_provider_type(kind: &str) -> (r: Option<Transport>)
    ensures
        r == transport_named(kind@),
{
    read_provider_type(kind)
}

/// The name of a transport.
pub fn provider_type_name(kind: Transport) -> (r: &'static str)
    ensures
        r@ == transport_name(kind),
{
    match kind {
        Transport::Openai => "openai",
        Transport::OpenaiCompat => "openai-compat",
        Transport::Openrouter => "openrouter",
        Transport::Vercel => "vercel",
        Transport::Anthropic => "anthropic",
        Transport::Google => "google",
        Transport::Azure => "azure",
        Transport::Bedrock => "bedrock",
        Transport::GoogleVertex => "google-vertex",
        Transport::Ollama => "ollama",
    }
}

/// Whether the option has the fields.
pub open spec fn is_option(o: EffortOption, f: OptionFields) -> bool {
    o.kind@ == f.kind && text::texts(o.values@) == f.values
}

/// Whether the model has the fields, and an option for each of theirs.
pub open spec fn is_model(m: CatalogModel, f: ModelFields) -> bool {
    &&& m.id@ == f.id
    &&& m.name@ == f.name
    &&& m.reasoning == f.reasoning
    &&& m.attachment == f.attachment
    &&& m.context == f.context
    &&& m.reasoning_options@.len() == f.options.len()
    &&& forall|i: int|
        0 <= i < f.options.len() ==> is_option(
            #[trigger] m.reasoning_options@[i],
            option_fields(f.options[i]),
        )
}

/// Whether the provider has the fields, the transport with their name, and a
/// model for each of theirs.
pub open spec fn is_provider(p: CatalogProvider, f: ProviderFields) -> bool {
    &&& p.name@ == f.name
    &&& p.id@ == f.id
    &&& text::opt_text(p.api_key) == f.api_key
    &&& text::opt_text(p.api_endpoint) == f.api_endpoint
    &&& p.kind == match f.kind {
        Some(name) => transport_named(name),
        None => None,
    }
    &&& text::opt_text(p.default_large_model_id) == f.default_large_model_id
    &&& text::opt_text(p.default_small_model_id) == f.default_small_model_id
    &&& p.models@.len() == f.models.len()
    &&& forall|i: int|
        0 <= i < f.models.len() ==> is_model(
            #[trigger] p.models@[i],
            model_fields(f.models[i]),
        )
}

/// Whether the catalog lists the entries, in their order.
pub open spec fn is_catalog(ps: Seq<CatalogProvider>, entries: Seq<selune::Provider>) -> bool {
    &&& ps.len() == entries.len()
    &&& forall|i: int|
        0 <= i < ps.len() ==> is_provider(#[trigger] ps[i], provider_fields(entries[i]))
}

fn options_of(options: Vec<selune::ReasoningOption>) -> (r: Vec<EffortOption>)
    ensures
        r@.len() == options@.len(),
        forall|i: int|
            0 <= i < r@.len() ==> is_option(#[trigger] r@[i], option_fields(options@[i])),
{
    let n: usize = options.len();
    let ghost all = options@;
    let mut rest = options;
    let mut out: Vec<EffortOption> = Vec::new();
    while out.len() < n
        invariant
            n == all.len(),
            out@.len() <= n,
            rest@ =~= all.skip(out@.len() as int),
            forall|i: int|
                0 <= i < out@.len() ==> is_option(#[trigger] out@[i], option_fields(all[i])),
        decreases rest@.len(),
    {
        out.push(option_of(rest.remove(0)));
    }
    out
}

fn models_of(models: Vec<selune::Model>) -> (r: Vec<CatalogModel>)
    ensures
        r@.len() == models@.len(),
        forall|i: int|
            0 <= i < r@.len() ==> is_model(#[trigger] r@[i], model_fields(models@[i])),
{
    let n: usize = models.len();
    let ghost all = models@;
    let mut rest = models;
    let mut out: Vec<CatalogModel> = Vec::new();
    while out.len() < n
        invariant
            n == all.len(),
            out@.len() <= n,
            rest@ =~= all.skip(out@.len() as int),
            forall|i: int|
                0 <= i < out@.len() ==> is_model(#[trigger] out@[i], model_fields(all[i])),
        decreases rest@.len(),
    {
        let (mut model, options) = model_of(rest.remove(0));
        model.reasoning_options = options_of(options);
        out.push(model);
    }
    out
}

/// The catalog of the entries that the service or the built-in list gives.
pub fn catalog_of(entries: Vec<selune::Provider>) -> (r: Vec<CatalogProvider>)
    ensures
        is_catalog(r@, entries@),
{
    let n: usize = entries.len();
    let ghost all = entries@;
    let mut rest = entries;
    let mut out: Vec<CatalogProvider> = Vec::new();
    while out.len() < n
        invariant
            n == all.len(),
            out@.len() <= n,
            rest@ =~= all.skip(out@.len() as int),
            forall|i: int|
                0 <= i < out@.len() ==> is_provider(#[trigger] out@[i], provider_fields(all[i])),
        decreases rest@.len(),
    {
        let (mut provider, kind, models) = provider_of(rest.remove(0));
        provider.kind = match kind {
            Some(name) => parse_provider_type(name.as_str()),
            None => None,
        };
        provider.models = models_of(models);
        out.push(provider);
    }
    out
}

/// The catalogs: the one built in, and the one fetched last from the service,
/// if a fetch succeeded.
#[derive(Debug)]
pub struct CatalogState {
    pub embedded: Vec<CatalogProvider>,
    pub remote: Option<Vec<CatalogProvider>>,
}

impl CatalogState {
    /// The state before any fetch.
    pub fn new() -> (r: Self)
        ensures
            exists|entries: Seq<selune::Provider>| is_catalog(r.embedded@, entries),
            r.remote is None,
    {
        let entries = selune::embedded::all();
        let ghost all = entries@;
        let state = CatalogState { embedded: catalog_of(entries), remote: None };
        proof {
            assert(is_catalog(state.embedded@, all));
        }
        state
    }

    /// The catalog that counts: the fetched one, else the one built in.
    pub open spec fn effective(&self) -> Seq<CatalogProvider> {
        match self.remote {
            Some(ps) => ps@,
            None => self.embedded@,
        }
    }
}

/// The catalog that counts: the fetched one, else the one built in.
pub fn providers(state: &CatalogState) -> (r: &Vec<CatalogProvider>)
    ensures
        r@ == state.effective(),
{
    match &state.remote {
        Some(ps) => ps,
        None => &state.embedded,
    }
}

/// The catalog that is built in.
pub fn embedded_registry(state: &CatalogState) -> (r: &Vec<CatalogProvider>)
    ensures
        *r == state.embedded,
{
    &state.embedded
}

/// The catalog that was fetched, if a fetch succeeded.
pub fn remote_registry(state: &CatalogState) -> (r: Option<&Vec<CatalogProvider>>)
    ensures
        match state.remote {
            Some(ps) => r matches Some(v) && *v == ps,
            None => r is None,
        },
{
    match &state.remote {
        Some(ps) => Some(ps),
        None => None,
    }
}

/// Whether a catalog was fetched.
pub fn remote_registry_loaded(state: &CatalogState) -> (b: bool)
    ensures
        b == (state.remote is Some),
{
    state.remote.is_some()
}

/// The catalog that a list of providers is shown from: the fetched one where it
/// is asked for, which is empty until there is one; else the one built in.
pub fn registry_providers(state: &CatalogState, remote: bool) -> (r: &[CatalogProvider])
    ensures
        r@ == if remote {
            match state.remote {
                Some(ps) => ps@,
                None => Seq::empty(),
            }
        } else {
            state.embedded@
        },
{
    if remote {
        match remote_registry(state) {
            Some(ps) => ps.as_slice(),
            None => &[],
        }
    } else {
        embedded_registry(state).as_slice()
    }
}

/// Keeps a fetched catalog.
pub fn set_remote_registry(state: &mut CatalogState, providers: Vec<CatalogProvider>)
    ensures
        *final(state) == (CatalogState { remote: Some(providers), ..*old(state) }),
{
    state.remote = Some(providers);
}

/// Keeps what a fetch brought. A failed or empty fetch changes nothing.
pub fn refresh(state: &mut CatalogState, fetched: Result<Vec<CatalogProvider>, String>)
    ensures
        *final(state) == (match fetched {
            Ok(ps) => if ps@.len() > 0 {
                (CatalogState { remote: Some(ps), ..*old(state) })
            } else {
                *old(state)
            },
            Err(_) => *old(state),
        }),
{
    if let Ok(ps) = fetched {
        if ps.len() > 0 {
            set_remote_registry(state, ps);
        }
    }
}

/// Keeps what a fetch brought. A failed or empty fetch is an error, and changes
/// nothing.
pub fn fetch_remote(
    state: &mut CatalogState,
    fetched: Result<Vec<CatalogProvider>, String>,
) -> (r: Result<(), String>)
    ensures
        match fetched {
            Ok(ps) => if ps@.len() > 0 {
                &&& r is Ok
                &&& *final(state) == (CatalogState { remote: Some(ps), ..*old(state) })
            } else {
                &&& r matches Err(m) && m@ == "the hosted registry returned no providers"@
                &&& *final(state) == *old(state)
            },
            Err(e) => r == Err::<(), String>(e) && *final(state) == *old(state),
        },
{
    match fetched {
        Ok(ps) => {
            if ps.len() > 0 {
                set_remote_registry(state, ps);
                Ok(())
            } else {
                Err("the hosted registry returned no providers".to_owned())
            }
        },
        Err(e) => Err(e),
    }
}

/// Where the first provider with the id stands, from the place on.
pub open spec fn provider_from(ps: Seq<CatalogProvider>, id: Seq<char>, i: int) -> Option<int>
    decreases ps.len() - i,
{
    if i < 0 || i >= ps.len() {
        None
    } else if ps[i].id@ == id {
        Some(i)
    } else {
        provider_from(ps, id, i + 1)
    }
}

/// The first provider with the id.
pub open spec fn provider_with(ps: Seq<CatalogProvider>, id: Seq<char>) -> Option<CatalogProvider> {
    match provider_from(ps, id, 0) {
        Some(i) => Some(ps[i]),
        None => None,
    }
}

proof fn lemma_provider_from(ps: Seq<CatalogProvider>, id: Seq<char>, i: int)
    requires
        0 <= i,
    ensures
        provider_from(ps, id, i) matches Some(k) ==> i <= k < ps.len() && ps[k].id@ == id,
    decreases ps.len() - i,
{
    if i < ps.len() && ps[i].id@ != id {
        lemma_provider_from(ps, id, i + 1);
    }
}

/// The first provider with the id.
pub fn find_provider<'a>(providers: &'a Vec<CatalogProvider>, id: &str) -> (r: Option<
    &'a CatalogProvider,
>)
    ensures
        match provider_with(providers@, id@) {
            Some(p) => r matches Some(q) && *q == p,
            None => r is None,
        },
{
    let mut i: usize = 0;
    while i < providers.len()
        invariant
            i <= providers@.len(),
            provider_from(providers@, id@, 0) == provider_from(providers@, id@, i as int),
        decreases providers@.len() - i,
    {
        if same(providers[i].id.as_str(), id) {
            return Some(&providers[i]);
        }
        i += 1;
    }
    None
}

/// Where the first model whose id passes the test stands, from the place on.
pub open spec fn model_from(
    ms: Seq<CatalogModel>,
    test: spec_fn(Seq<char>) -> bool,
    i: int,
) -> Option<int>
    decreases ms.len() - i,
{
    if i < 0 || i >= ms.len() {
        None
    } else if test(ms[i].id@) {
        Some(i)
    } else {
        model_from(ms, test, i + 1)
    }
}

/// The id without the tag after a colon.
pub open spec fn untagged(id: Seq<char>) -> Seq<char> {
    match text::position(id, ":"@) {
        Some(i) => id.take(i),
        None => id,
    }
}

/// Whether a character is a digit.
pub open spec fn is_digit(c: char) -> bool {
    '0' <= c <= '9'
}

/// How many digits the text holds.
pub open spec fn digits(s: Seq<char>) -> nat
    decreases s.len(),
{
    if s.len() == 0 {
        0
    } else {
        digits(s.drop_last()) + if is_digit(s.last()) {
            1nat
        } else {
            0nat
        }
    }
}

/// Whether the text looks like a date: digits and dashes, and six digits at least.
pub open spec fn is_date(s: Seq<char>) -> bool {
    &&& digits(s) >= 6
    &&& forall|i: int| 0 <= i < s.len() ==> is_digit(#[trigger] s[i]) || s[i] == '-'
}

/// Whether the long id is the base with a date after it.
pub open spec fn dated_alias(long: Seq<char>, base: Seq<char>) -> bool {
    &&& base.len() > 0
    &&& text::has_prefix(long, base)
    &&& is_date(long.skip(base.len() as int))
}

/// What follows the vendor's name and a slash.
pub open spec fn vendor_tail(id: Seq<char>) -> Option<Seq<char>> {
    match text::position(id, "/"@) {
        Some(i) => Some(id.skip(i + 1)),
        None => None,
    }
}

/// The test for exactly the id.
pub open spec fn has_id(id: Seq<char>) -> spec_fn(Seq<char>) -> bool {
    |x: Seq<char>| x == id
}

/// The test for an id that differs by a date alone.
pub open spec fn has_date_apart(id: Seq<char>) -> spec_fn(Seq<char>) -> bool {
    |x: Seq<char>| dated_alias(x, id) || dated_alias(id, x)
}

/// The test for an id that is the same but for tags.
pub open spec fn has_base(id: Seq<char>) -> spec_fn(Seq<char>) -> bool {
    |x: Seq<char>| untagged(x) == untagged(id)
}

/// The model with exactly the id.
pub open spec fn exact_match(ms: Seq<CatalogModel>, id: Seq<char>) -> Option<int> {
    model_from(ms, has_id(id), 0)
}

/// The model that the id names after a vendor's name.
pub open spec fn tail_match(ms: Seq<CatalogModel>, id: Seq<char>) -> Option<int> {
    match vendor_tail(id) {
        Some(t) => exact_match(ms, t),
        None => None,
    }
}

/// The first model that differs from the id by a date alone.
pub open spec fn dated_match(ms: Seq<CatalogModel>, id: Seq<char>) -> Option<int> {
    model_from(ms, has_date_apart(id), 0)
}

/// The one model that has the id but for tags. If two have it, neither counts.
pub open spec fn unique_tag_match(ms: Seq<CatalogModel>, id: Seq<char>) -> Option<int> {
    let test = has_base(id);
    match model_from(ms, test, 0) {
        Some(i) => if model_from(ms, test, i + 1) is None {
            Some(i)
        } else {
            None
        },
        None => None,
    }
}

/// Where the model that the id names stands: the one with the id, else the one
/// it names after a vendor, else a dated form of it, else the one with its base.
pub open spec fn model_at(ms: Seq<CatalogModel>, id: Seq<char>) -> Option<int> {
    match exact_match(ms, id) {
        Some(i) => Some(i),
        None => match tail_match(ms, id) {
            Some(i) => Some(i),
            None => match dated_match(ms, id) {
                Some(i) => Some(i),
                None => unique_tag_match(ms, id),
            },
        },
    }
}

/// The model that the id names.
pub open spec fn model_named(ms: Seq<CatalogModel>, id: Seq<char>) -> Option<CatalogModel> {
    match model_at(ms, id) {
        Some(i) => Some(ms[i]),
        None => None,
    }
}

proof fn lemma_model_from(ms: Seq<CatalogModel>, test: spec_fn(Seq<char>) -> bool, i: int)
    requires
        0 <= i,
    ensures
        model_from(ms, test, i) matches Some(k) ==> i <= k < ms.len() && test(ms[k].id@),
        model_from(ms, test, i) is None ==> forall|k: int|
            i <= k < ms.len() ==> !test(#[trigger] ms[k].id@),
    decreases ms.len() - i,
{
    if i < ms.len() && !test(ms[i].id@) {
        lemma_model_from(ms, test, i + 1);
    }
}

/// A model is found wherever the catalog lists its very id.
pub proof fn lemma_listed_model_is_found(ms: Seq<CatalogModel>, i: int)
    requires
        0 <= i < ms.len(),
    ensures
        model_at(ms, ms[i].id@) matches Some(k) && 0 <= k < ms.len() && ms[k].id@ == ms[i].id@,
{
    lemma_model_from(ms, has_id(ms[i].id@), 0);
}

/// A model that is found has the id, or the id without the vendor, or differs
/// from it by a date, or has the same base.
pub proof fn lemma_found_model_matches(ms: Seq<CatalogModel>, id: Seq<char>)
    ensures
        model_at(ms, id) matches Some(k) ==> {
            &&& 0 <= k < ms.len()
            &&& {
                ||| ms[k].id@ == id
                ||| vendor_tail(id) == Some(ms[k].id@)
                ||| dated_alias(ms[k].id@, id) || dated_alias(id, ms[k].id@)
                ||| untagged(ms[k].id@) == untagged(id)
            }
        },
{
    lemma_model_from(ms, has_id(id), 0);
    if let Some(t) = vendor_tail(id) {
        lemma_model_from(ms, has_id(t), 0);
    }
    lemma_model_from(ms, has_date_apart(id), 0);
    lemma_model_from(ms, has_base(id), 0);
}

/// The id without the tag after a colon.
pub fn strip_tag(id: &str) -> (r: &str)
    ensures
        r@ == untagged(id@),
{
    proof {
        reveal_strlit(":");
    }
    match split_once(id, ":") {
        Some((base, _)) => base,
        None => id,
    }
}

/// Whether the long id is the base with a date after it.
pub fn is_dated_alias(long: &str, base: &str) -> (b: bool)
    ensures
        b == dated_alias(long@, base@),
{
    if base.is_empty() {
        return false;
    }
    let rest = match strip_prefix(long, base) {
        Some(rest) => rest,
        None => return false,
    };
    let cs = chars_of(rest);
    let mut count: usize = 0;
    let mut i: usize = 0;
    while i < cs.len()
        invariant
            cs@ == rest@,
            rest@ == long@.skip(base@.len() as int),
            i <= cs@.len(),
            count <= i,
            count == digits(rest@.take(i as int)),
            forall|k: int| 0 <= k < i ==> is_digit(#[trigger] rest@[k]) || rest@[k] == '-',
        decreases cs@.len() - i,
    {
        proof {
            assert(rest@.take(i + 1).drop_last() =~= rest@.take(i as int));
            assert(rest@[i as int] == cs@[i as int]);
        }
        let c = cs[i];
        if '0' <= c && c <= '9' {
            count += 1;
        } else if c != '-' {
            proof {
                assert(!is_digit(rest@[i as int]) && rest@[i as int] != '-');
            }
            return false;
        }
        i += 1;
    }
    proof {
        assert(rest@.take(i as int) =~= rest@);
    }
    count >= 6
}

fn find_exact(models: &Vec<CatalogModel>, id: &str) -> (r: Option<usize>)
    ensures
        match exact_match(models@, id@) {
            Some(i) => r matches Some(k) && k == i && i < models@.len(),
            None => r is None,
        },
{
    let ghost test = has_id(id@);
    let mut i: usize = 0;
    while i < models.len()
        invariant
            i <= models@.len(),
            test == has_id(id@),
            model_from(models@, test, 0) == model_from(models@, test, i as int),
        decreases models@.len() - i,
    {
        if same(models[i].id.as_str(), id) {
            return Some(i);
        }
        i += 1;
    }
    None
}

fn find_dated(models: &Vec<CatalogModel>, id: &str) -> (r: Option<usize>)
    ensures
        match dated_match(models@, id@) {
            Some(i) => r matches Some(k) && k == i && i < models@.len(),
            None => r is None,
        },
{
    let ghost test = has_date_apart(id@);
    let mut i: usize = 0;
    while i < models.len()
        invariant
            i <= models@.len(),
            test == has_date_apart(id@),
            model_from(models@, test, 0) == model_from(models@, test, i as int),
        decreases models@.len() - i,
    {
        let listed = models[i].id.as_str();
        if is_dated_alias(listed, id) || is_dated_alias(id, listed) {
            return Some(i);
        }
        i += 1;
    }
    None
}

fn find_tagged(models: &Vec<CatalogModel>, id: &str, from: usize) -> (r: Option<usize>)
    requires
        from <= models@.len(),
    ensures
        match model_from(models@, has_base(id@), from as int) {
            Some(i) => r matches Some(k) && k == i && i < models@.len(),
            None => r is None,
        },
{
    let base = strip_tag(id);
    let ghost test = has_base(id@);
    let mut i: usize = from;
    while i < models.len()
        invariant
            i <= models@.len(),
            base@ == untagged(id@),
            test == has_base(id@),
            model_from(models@, test, from as int) == model_from(models@, test, i as int),
        decreases models@.len() - i,
    {
        if same(strip_tag(models[i].id.as_str()), base) {
            return Some(i);
        }
        i += 1;
    }
    None
}

fn model_place(models: &Vec<CatalogModel>, id: &str) -> (r: Option<usize>)
    ensures
        match model_at(models@, id@) {
            Some(i) => r matches Some(k) && k == i && i < models@.len(),
            None => r is None,
        },
{
    proof {
        reveal_strlit("/");
    }
    if let Some(i) = find_exact(models, id) {
        return Some(i);
    }
    if let Some((_, tail)) = split_once(id, "/") {
        if let Some(i) = find_exact(models, tail) {
            return Some(i);
        }
    }
    if let Some(i) = find_dated(models, id) {
        return Some(i);
    }
    let n: usize = models.len();
    match find_tagged(models, id, 0) {
        Some(i) => {
            if find_tagged(models, id, i + 1).is_none() {
                Some(i)
            } else {
                None
            }
        },
        None => None,
    }
}

/// The model that the id names.
pub fn find_model<'a>(provider: &'a CatalogProvider, model_id: &str) -> (r: Option<
    &'a CatalogModel,
>)
    ensures
        match model_named(provider.models@, model_id@) {
            Some(m) => r matches Some(q) && *q == m,
            None => r is None,
        },
{
    match model_place(&provider.models, model_id) {
        Some(i) => Some(&provider.models[i]),
        None => None,
    }
}

/// How much context the model that the id names takes, if the catalog says so.
pub open spec fn context_of(provider: CatalogProvider, id: Seq<char>) -> Option<i64> {
    match model_named(provider.models@, id) {
        Some(m) => m.context,
        None => None,
    }
}

/// How much context the model that the id names takes, if the catalog says so.
pub fn context_length(provider: &CatalogProvider, model_id: &str) -> (r: Option<i64>)
    ensures
        r == context_of(*provider, model_id@),
{
    match find_model(provider, model_id) {
        Some(m) => m.context,
        None => None,
    }
}

/// Whether the option is a choice of efforts.
pub open spec fn is_effort(o: EffortOption) -> bool {
    o.kind@ == "effort"@ && o.values@.len() > 0
}

/// The values of the first choice of efforts, from the place on.
pub open spec fn efforts_from(os: Seq<EffortOption>, i: int) -> Seq<Seq<char>>
    decreases os.len() - i,
{
    if i < 0 || i >= os.len() {
        Seq::empty()
    } else if is_effort(os[i]) {
        text::texts(os[i].values@)
    } else {
        efforts_from(os, i + 1)
    }
}

/// The reasoning efforts of a model.
pub open spec fn efforts(m: CatalogModel) -> Seq<Seq<char>> {
    efforts_from(m.reasoning_options@, 0)
}

/// The reasoning efforts of a model, in the order of the catalog.
pub fn model_variants(model: &CatalogModel) -> (r: Vec<String>)
    ensures
        text::texts(r@) == efforts(*model),
{
    let os = &model.reasoning_options;
    let mut i: usize = 0;
    while i < os.len()
        invariant
            os@ == model.reasoning_options@,
            i <= os@.len(),
            efforts(*model) == efforts_from(os@, i as int),
        decreases os@.len() - i,
    {
        if same(os[i].kind.as_str(), "effort") && os[i].values.len() > 0 {
            return copy_texts(os[i].values.as_slice());
        }
        i += 1;
    }
    let out: Vec<String> = Vec::new();
    proof {
        assert(text::texts(out@) =~= Seq::empty());
    }
    out
}

/// The effort that follows in the cycle.
#[derive(Debug, Clone, PartialEq, Eq)]
pub enum NextVariant {
    Default,
    Chosen(String),
}

/// The content of a [`NextVariant`]: nothing for the default.
impl View for NextVariant {
    type V = Option<Seq<char>>;

    open spec fn view(&self) -> Option<Seq<char>> {
        match self {
            NextVariant::Default => None,
            NextVariant::Chosen(s) => Some(s@),
        }
    }
}

/// Where the text stands first in the list, from the place on.
pub open spec fn text_from(ts: Seq<Seq<char>>, t: Seq<char>, i: int) -> Option<int>
    decreases ts.len() - i,
{
    if i < 0 || i >= ts.len() {
        None
    } else if ts[i] == t {
        Some(i)
    } else {
        text_from(ts, t, i + 1)
    }
}

/// The effort that follows the current one: the next that the model has, the
/// default after the last, the first where none or an unknown one is current,
/// the default where an unknown one is current and the model has none. Nothing
/// where none is current and the model has none.
pub open spec fn following(
    values: Seq<Seq<char>>,
    current: Option<Seq<char>>,
) -> Option<Option<Seq<char>>> {
    let at = match current {
        Some(c) => text_from(values, c, 0),
        None => None,
    };
    match at {
        Some(i) => if i + 1 < values.len() {
            Some(Some(values[i + 1]))
        } else {
            Some(None)
        },
        None => if values.len() > 0 {
            Some(Some(values[0]))
        } else if current is Some {
            Some(None)
        } else {
            None
        },
    }
}

fn place_of(ts: &Vec<String>, t: &str) -> (r: Option<usize>)
    ensures
        match text_from(text::texts(ts@), t@, 0) {
            Some(i) => r matches Some(k) && k == i && i < ts@.len(),
            None => r is None,
        },
{
    let ghost all = text::texts(ts@);
    let mut i: usize = 0;
    while i < ts.len()
        invariant
            all == text::texts(ts@),
            i <= ts@.len(),
            text_from(all, t@, 0) == text_from(all, t@, i as int),
        decreases ts@.len() - i,
    {
        proof {
            assert(all[i as int] == ts@[i as int]@);
        }
        if same(ts[i].as_str(), t) {
            return Some(i);
        }
        i += 1;
    }
    None
}

/// The effort that follows the current one for the model, if the catalog lists
/// the provider and the model.
pub open spec fn next_effort(
    ps: Seq<CatalogProvider>,
    catalog_id: Seq<char>,
    model_id: Seq<char>,
    current: Option<Seq<char>>,
) -> Option<Option<Seq<char>>> {
    match provider_with(ps, catalog_id) {
        None => None,
        Some(p) => match model_named(p.models@, model_id) {
            None => None,
            Some(m) => following(efforts(m), current),
        },
    }
}

/// The effort that follows the current one for the model of the provider.
pub fn next_variant(
    providers: &Vec<CatalogProvider>,
    provider: &ProviderConfig,
    model_id: &str,
    current: Option<&str>,
) -> (r: Option<NextVariant>)
    ensures
        views::opt_view(r) == next_effort(
            providers@,
            provider@.catalog_id(),
            model_id@,
            match current {
                Some(c) => Some(c@),
                None => None,
            },
        ),
{
    let entry = match find_provider(providers, provider.catalog_id()) {
        Some(p) => p,
        None => return None,
    };
    let model = match find_model(entry, model_id) {
        Some(m) => m,
        None => return None,
    };
    let variants = model_variants(model);
    let n: usize = variants.len();
    let ghost values = text::texts(variants@);
    let at = match current {
        Some(c) => place_of(&variants, c),
        None => None,
    };
    match at {
        Some(i) => {
            if i + 1 < n {
                proof {
                    assert(values[i + 1] == variants@[i + 1]@);
                }
                Some(NextVariant::Chosen(variants[i + 1].clone()))
            } else {
                Some(NextVariant::Default)
            }
        },
        None => {
            if variants.len() > 0 {
                proof {
                    assert(values[0] == variants@[0]@);
                }
                Some(NextVariant::Chosen(variants[0].clone()))
            } else if current.is_some() {
                Some(NextVariant::Default)
            } else {
                None
            }
        },
    }
}

proof fn lemma_text_from(ts: Seq<Seq<char>>, k: int, i: int)
    requires
        0 <= i <= k < ts.len(),
        forall|a: int, b: int| 0 <= a < b < ts.len() ==> #[trigger] ts[a] != #[trigger] ts[b],
    ensures
        text_from(ts, ts[k], i) == Some(k),
    decreases k - i,
{
    if i < k {
        lemma_text_from(ts, k, i + 1);
    }
}

/// The cycle visits every effort of a model in turn, and comes back to the
/// default after the last.
pub proof fn lemma_efforts_form_a_cycle(values: Seq<Seq<char>>, k: int)
    requires
        0 <= k < values.len(),
        forall|a: int, b: int|
            0 <= a < b < values.len() ==> #[trigger] values[a] != #[trigger] values[b],
    ensures
        following(values, None) == Some(Some(values[0])),
        following(values, Some(values[k])) == Some(
            if k + 1 < values.len() {
                Some(values[k + 1])
            } else {
                None
            },
        ),
{
    lemma_text_from(values, k, 0);
}

/// Fills in how much context a model takes, where the catalog knows it. A
/// negative length counts as none, and of a length over 32 bits the lower bits
/// are kept.
pub fn enrich(provider: &CatalogProvider, info: &mut llm::ModelInfo)
    ensures
        final(info).id == old(info).id,
        final(info).context_length == (match (
            old(info).context_length,
            context_of(*provider, old(info).id@),
        ) {
            (None, Some(c)) => Some(
                if c < 0 {
                    0u32
                } else {
                    c as u32
                },
            ),
            (known, _) => known,
        }),
{
    if info.context_length.is_none() {
        if let Some(c) = context_length(provider, info.id.as_str()) {
            let length: u32 = if c < 0 {
                0
            } else {
                #[verifier::truncate]
                (c as u32)
            };
            info.context_length = Some(length);
        }
    }
}

/// Whether a key is needed for the provider.
pub fn requires_api_key(provider: &CatalogProvider) -> (b: bool)
    ensures
        b == (provider.api_key is Some),
{
    provider.api_key.is_some()
}

/// Whether a connection to the catalog entry may be opened, with or without a key.
pub open spec fn entry_allows(ps: Seq<CatalogProvider>, id: Seq<char>, has_key: bool) -> bool {
    match provider_with(ps, id) {
        Some(p) => p.api_key is None || has_key,
        None => has_key,
    }
}

/// Whether the key is there and not blank.
pub open spec fn key_is_set(key: Option<Seq<char>>) -> bool {
    match key {
        Some(k) => text::trimmed(k).len() > 0,
        None => false,
    }
}

/// Whether the provider is set up well enough to open a connection. A named
/// catalog entry governs; else the transport, of which only a local one needs
/// no key; a kind that is no transport counts as a catalog entry.
pub open spec fn connectable(
    ps: Seq<CatalogProvider>,
    provider: settings::ProviderConfigView,
) -> bool {
    let has_key = key_is_set(provider.api_key);
    match provider.catalog {
        Some(c) => entry_allows(ps, c, has_key),
        None => match transport_named(provider.kind) {
            Some(Transport::Ollama) => true,
            Some(_) => has_key,
            None => entry_allows(ps, provider.kind, has_key),
        },
    }
}

/// Whether the key is there and not blank.
pub fn has_key(key: &Option<String>) -> (b: bool)
    ensures
        b == key_is_set(views::opt_view(*key)),
{
    match key {
        Some(k) => !trim(k.as_str()).is_empty(),
        None => false,
    }
}

fn catalog_requires_key(providers: &Vec<CatalogProvider>, id: &str, has_key: bool) -> (b: bool)
    ensures
        b == entry_allows(providers@, id@, has_key),
{
    match find_provider(providers, id) {
        Some(p) => !requires_api_key(p) || has_key,
        None => has_key,
    }
}

/// Whether the provider is set up well enough to open a connection.
pub fn is_connectable(providers: &Vec<CatalogProvider>, provider: &ProviderConfig) -> (b: bool)
    ensures
        b == connectable(providers@, provider@),
{
    let has_key = has_key(&provider.api_key);
    if let Some(c) = &provider.catalog {
        return catalog_requires_key(providers, c.as_str(), has_key);
    }
    match parse_provider_type(provider.kind.as_str()) {
        Some(Transport::Ollama) => true,
        Some(_) => has_key,
        None => catalog_requires_key(providers, provider.kind.as_str(), has_key),
    }
}

/// Whether the provider in use is set up well enough to open a connection.
pub fn has_connected_providers(
    providers: &Vec<CatalogProvider>,
    connections: &Connections,
) -> (b: bool)
    ensures
        b == match connections.active_provider() {
            Some(p) => connectable(providers@, p@),
            None => false,
        },
{
    match &connections.active {
        None => false,
        Some(active) => match connections.providers.get(active.provider.as_str()) {
            None => false,
            Some(p) => is_connectable(providers, p),
        },
    }
}

/// Whether a character may stand in the name of a variable.
pub open spec fn is_name_char(c: char) -> bool {
    'a' <= c <= 'z' || 'A' <= c <= 'Z' || '0' <= c <= '9' || c == '_'
}

/// How many characters at the front may stand in the name of a variable.
pub open spec fn name_len(s: Seq<char>) -> int
    decreases s.len(),
{
    if s.len() > 0 && is_name_char(s[0]) {
        1 + name_len(s.skip(1))
    } else {
        0
    }
}

/// The value of the variable, or what was written where there is none.
pub open spec fn value_or(
    env: Seq<(Seq<char>, String)>,
    name: Seq<char>,
    written: Seq<char>,
) -> Seq<char> {
    match text_map::lookup(env, name) {
        Some(v) => v@,
        None => written,
    }
}

/// How many characters at the front form the place of a variable.
pub open spec fn placeholder_len(s: Seq<char>) -> int {
    if s.len() == 0 || s[0] != '$' {
        0
    } else if s.len() > 1 && s[1] == '{' {
        match text::position(s.skip(2), "}"@) {
            Some(e) => e + 3,
            None => 0,
        }
    } else if name_len(s.skip(1)) > 0 {
        1 + name_len(s.skip(1))
    } else {
        0
    }
}

/// The name of the variable whose place stands at the front.
pub open spec fn placeholder_name(s: Seq<char>) -> Seq<char> {
    let n = placeholder_len(s);
    if s.len() > 1 && s[1] == '{' {
        s.subrange(2, n - 1)
    } else {
        s.subrange(1, n)
    }
}

/// The text with the values of the variables in their places. A variable that
/// is not set stays as it was written.
pub open spec fn resolved(s: Seq<char>, env: Seq<(Seq<char>, String)>) -> Seq<char>
    decreases s.len(),
{
    if s.len() == 0 {
        s
    } else {
        let n = placeholder_len(s);
        if 0 < n <= s.len() {
            value_or(env, placeholder_name(s), s.take(n)) + resolved(s.skip(n), env)
        } else {
            seq![s[0]] + resolved(s.skip(1), env)
        }
    }
}

/// A text without a dollar sign is left alone.
pub proof fn lemma_plain_text_is_kept(s: Seq<char>, env: Seq<(Seq<char>, String)>)
    requires
        forall|i: int| 0 <= i < s.len() ==> #[trigger] s[i] != '$',
    ensures
        resolved(s, env) == s,
    decreases s.len(),
{
    if s.len() > 0 {
        assert forall|i: int| 0 <= i < s.skip(1).len() implies #[trigger] s.skip(1)[i] != '$' by {
            assert(s.skip(1)[i] == s[i + 1]);
        }
        lemma_plain_text_is_kept(s.skip(1), env);
        assert(seq![s[0]] + s.skip(1) =~= s);
    }
}

fn name_char(c: char) -> (b: bool)
    ensures
        b == is_name_char(c),
{
    ('a' <= c && c <= 'z') || ('A' <= c && c <= 'Z') || ('0' <= c && c <= '9') || c == '_'
}

fn place_len(s: &str, cs: &Vec<char>, i: usize) -> (n: usize)
    requires
        cs@ == s@,
        i < cs@.len(),
    ensures
        n == placeholder_len(s@.skip(i as int)),
        i + n <= cs@.len(),
{
    let ghost rest = s@.skip(i as int);
    let len: usize = cs.len();
    proof {
        reveal_strlit("}");
    }
    if cs[i] != '$' {
        return 0;
    }
    if len - i > 1 && cs[i + 1] == '{' {
        proof {
            assert(rest.skip(2) =~= s@.subrange(i + 2, len as int));
            text::lemma_position(rest.skip(2), "}"@);
        }
        return match text::find(s.substring_char(i + 2, len), "}") {
            Some(e) => e + 3,
            None => 0,
        };
    }
    let mut j: usize = i + 1;
    proof {
        assert(rest.skip(1) =~= s@.skip(j as int));
    }
    while j < len && name_char(cs[j])
        invariant
            cs@ == s@,
            len == cs@.len(),
            i < j <= len,
            name_len(s@.skip(i + 1)) == j - i - 1 + name_len(s@.skip(j as int)),
        decreases len - j,
    {
        proof {
            assert(s@.skip(j as int)[0] == s@[j as int]);
            assert(s@.skip(j as int).skip(1) =~= s@.skip(j + 1));
        }
        j += 1;
    }
    proof {
        if j < len {
            assert(s@.skip(j as int)[0] == s@[j as int]);
        }
    }
    if j > i + 1 {
        j - i
    } else {
        0
    }
}

/// Puts the values of the variables in the places that the text names.
pub fn resolve_env(s: &str, env: &TextMap<String>) -> (r: String)
    ensures
        r@ == resolved(s@, env@),
{
    let cs = chars_of(s);
    let len: usize = cs.len();
    let mut out: String = String::new();
    let mut i: usize = 0;
    proof {
        assert(s@.skip(0) =~= s@);
        assert(out@ + resolved(s@, env@) =~= resolved(s@, env@));
    }
    while i < len
        invariant
            cs@ == s@,
            len == cs@.len(),
            i <= len,
            out@ + resolved(s@.skip(i as int), env@) == resolved(s@, env@),
        decreases len - i,
    {
        let ghost rest = s@.skip(i as int);
        let ghost before = out@;
        proof {
            assert(rest[0] == s@[i as int]);
        }
        let n = place_len(s, &cs, i);
        if n > 0 {
            proof {
                reveal_strlit("}");
                text::lemma_position(rest.skip(2), "}"@);
            }
            let braced = n > 1 && cs[i + 1] == '{';
            let name = if braced {
                s.substring_char(i + 2, i + n - 1)
            } else {
                s.substring_char(i + 1, i + n)
            };
            let written = s.substring_char(i, i + n);
            proof {
                assert(written@ =~= rest.take(n as int));
                assert(name@ =~= placeholder_name(rest));
                assert(rest.skip(n as int) =~= s@.skip(i + n));
            }
            match env.get(name) {
                Some(v) => {
                    out.append(v.as_str());
                },
                None => {
                    out.append(written);
                },
            }
            i += n;
        } else {
            out.push(cs[i]);
            proof {
                assert(rest.skip(1) =~= s@.skip(i + 1));
            }
            i += 1;
        }
        proof {
            assert(out@ + resolved(s@.skip(i as int), env@) =~= before + resolved(rest, env@));
        }
    }
    proof {
        assert(s@.skip(i as int) =~= Seq::empty());
        assert(out@ + Seq::<char>::empty() =~= out@);
    }
    out
}

/// The endpoint of the provider, with the values of the variables in it.
pub open spec fn endpoint(p: CatalogProvider, env: Seq<(Seq<char>, String)>) -> Option<Seq<char>> {
    match p.api_endpoint {
        Some(e) => Some(resolved(e@, env)),
        None => None,
    }
}

/// The endpoint of the provider, with the values of the variables in it.
pub fn api_endpoint(provider: &CatalogProvider, env: &TextMap<String>) -> (r: Option<String>)
    ensures
        views::opt_view(r) == endpoint(*provider, env@),
{
    match &provider.api_endpoint {
        Some(e) => Some(resolve_env(e.as_str(), env)),
        None => None,
    }
}

/// The text, unless it is blank.
pub open spec fn override_of(url: Option<&str>) -> Option<Seq<char>> {
    match url {
        Some(u) => if text::trimmed(u@).len() > 0 {
            Some(u@)
        } else {
            None
        },
        None => None,
    }
}

/// The address of a catalog entry: its endpoint, unless a variable in it is not set.
pub open spec fn known_endpoint(
    p: CatalogProvider,
    env: Seq<(Seq<char>, String)>,
) -> Option<Seq<char>> {
    match endpoint(p, env) {
        Some(e) => if text::occurs(e, "$"@) {
            None
        } else {
            Some(e)
        },
        None => None,
    }
}

/// The address of a provider: the one the user gave, else that of the catalog.
pub fn effective_base_url(
    provider: &CatalogProvider,
    override_url: Option<&str>,
    env: &TextMap<String>,
) -> (r: Option<String>)
    ensures
        views::opt_view(r) == match override_of(override_url) {
            Some(u) => Some(u),
            None => known_endpoint(*provider, env@),
        },
{
    if let Some(u) = override_url {
        if !trim(u).is_empty() {
            return Some(u.to_owned());
        }
    }
    match api_endpoint(provider, env) {
        Some(e) => {
            if contains(e.as_str(), "$") {
                None
            } else {
                Some(e)
            }
        },
        None => None,
    }
}

/// The transport of a kind: the one it names, else that of the catalog entry it
/// names, else the most common one.
pub open spec fn transport_for(ps: Seq<CatalogProvider>, kind: Seq<char>) -> Transport {
    match transport_named(kind) {
        Some(t) => t,
        None => match provider_with(ps, kind) {
            Some(p) => match p.kind {
                Some(t) => t,
                None => Transport::OpenaiCompat,
            },
            None => Transport::OpenaiCompat,
        },
    }
}

/// The transport of a kind.
pub fn provider_type(providers: &Vec<CatalogProvider>, kind: &str) -> (r: Transport)
    ensures
        r == transport_for(providers@, kind@),
{
    if let Some(t) = parse_provider_type(kind) {
        return t;
    }
    match find_provider(providers, kind) {
        Some(p) => match p.kind {
            Some(t) => t,
            None => Transport::OpenaiCompat,
        },
        None => Transport::OpenaiCompat,
    }
}

/// The address for a kind: the one the user gave, else that of a local
/// transport, else that of the catalog entry the kind names. Other transports
/// have an address of their own.
pub fn base_url_for(
    providers: &Vec<CatalogProvider>,
    kind: &str,
    override_url: Option<&str>,
    env: &TextMap<String>,
) -> (r: Option<String>)
    ensures
        views::opt_view(r) == match override_of(override_url) {
            Some(u) => Some(u),
            None => match transport_named(kind@) {
                Some(Transport::Ollama) => Some("http://localhost:11434"@),
                Some(_) => None,
                None => match provider_with(providers@, kind@) {
                    Some(p) => known_endpoint(p, env@),
                    None => None,
                },
            },
        },
{
    if let Some(u) = override_url {
        if !trim(u).is_empty() {
            return Some(u.to_owned());
        }
    }
    match parse_provider_type(kind) {
        Some(Transport::Ollama) => return Some("http://localhost:11434".to_owned()),
        Some(_) => return None,
        None => {},
    }
    match find_provider(providers, kind) {
        Some(p) => effective_base_url(p, None, env),
        None => None,
    }
}

/// The model for small tasks of a provider: its default one, else its last.
pub open spec fn small_model(p: CatalogProvider) -> Option<Seq<char>> {
    match p.default_small_model_id {
        Some(id) => Some(id@),
        None => if p.models@.len() > 0 {
            Some(p.models@.last().id@)
        } else {
            None
        },
    }
}

/// The model for small tasks of a provider.
pub fn default_small_model(provider: &CatalogProvider) -> (r: Option<&str>)
    ensures
        match small_model(*provider) {
            Some(id) => r matches Some(s) && s@ == id,
            None => r is None,
        },
{
    match &provider.default_small_model_id {
        Some(id) => Some(id.as_str()),
        None => {
            let n: usize = provider.models.len();
            if n > 0 {
                Some(provider.models[n - 1].id.as_str())
            } else {
                None
            }
        },
    }
}

}
