//! The text of the connections file.

use crate::config::connections;
use crate::config::connections::{Connections, ConnectionsView, ProviderConfig, ProviderView};
use crate::error;
use crate::error::{error_at, CoreError, Fault};
use crate::kdlfmt;
use crate::kdlfmt::{
    argument, finish, new_node, push_argument, push_node, push_property, read_document, roots_of,
    scalar, Entry, EntryView, Leaf, LeafView, Node, ReadFailure, Shape, Value, ValueView,
};
use crate::text;
use crate::text::{same, trim};
use crate::text_map;
use crate::text_map::TextMap;
use crate::views;
use vstd::prelude::*;

verus! {

/// The kind of a provider that states none.
pub const OPENAI_KIND: &'static str = "openai";

/// A provider's node.
pub type ProviderNode = Node<Leaf>;

/// The fault of a node.
pub open spec fn fault(
    message: Seq<char>,
    help: Option<Seq<char>>,
    offset: nat,
    length: nat,
) -> Fault {
    Fault { message, help, offset, length }
}

/// The kind that the properties of a provider state, if they state one.
pub open spec fn read_kind(es: Seq<EntryView>, offset: nat, length: nat) -> Result<
    Option<Seq<char>>,
    Fault,
>
    decreases es.len(),
{
    if es.len() == 0 {
        Ok(None)
    } else {
        match read_kind(es.drop_last(), offset, length) {
            Err(f) => Err(f),
            Ok(_) => match es.last().name {
                None => Err(
                    fault(
                        "provider takes only one positional argument (the name)"@,
                        None,
                        offset,
                        length,
                    ),
                ),
                Some(name) => if name == "kind"@ {
                    match es.last().value {
                        ValueView::Text(v) => if text::trimmed(v).len() == 0 {
                            Err(fault("provider `kind` must not be empty"@, None, offset, length))
                        } else {
                            Ok(Some(v))
                        },
                        _ => Err(fault("provider `kind` must be a string"@, None, offset, length)),
                    }
                } else {
                    Err(
                        fault(
                            "unknown provider property `"@ + name + "`"@,
                            Some("expected `kind`"@),
                            offset,
                            length,
                        ),
                    )
                },
            },
        }
    }
}

/// The text that a node holds as its first argument.
pub open spec fn read_text(l: LeafView) -> Result<Seq<char>, Fault> {
    match kdlfmt::first_argument(l.entries) {
        Some(ValueView::Text(s)) => Ok(s),
        Some(_) => Err(
            fault("`"@ + l.name + "` must be a string"@, None, l.offset, l.length),
        ),
        None => Err(
            fault("`"@ + l.name + "` requires a string argument"@, None, l.offset, l.length),
        ),
    }
}

/// The key and the address that the children of a provider state.
pub open spec fn read_keys(cs: Seq<LeafView>) -> Result<
    (Option<Seq<char>>, Option<Seq<char>>),
    Fault,
>
    decreases cs.len(),
{
    if cs.len() == 0 {
        Ok((None, None))
    } else {
        match read_keys(cs.drop_last()) {
            Err(f) => Err(f),
            Ok((key, url)) => if cs.last().name == "api-key"@ {
                match read_text(cs.last()) {
                    Ok(s) => Ok((Some(s), url)),
                    Err(f) => Err(f),
                }
            } else if cs.last().name == "base-url"@ {
                match read_text(cs.last()) {
                    Ok(s) => Ok((key, Some(s))),
                    Err(f) => Err(f),
                }
            } else {
                Ok((key, url))
            },
        }
    }
}

/// The children of a node, and none where it has no block.
pub open spec fn children_of(n: Shape<LeafView>) -> Seq<LeafView> {
    match n.children {
        Some(cs) => cs,
        None => Seq::empty(),
    }
}

/// The entries after the first.
pub open spec fn after_first(es: Seq<EntryView>) -> Seq<EntryView> {
    if es.len() > 0 {
        es.skip(1)
    } else {
        es
    }
}

/// The provider with a kind that may be left out.
pub open spec fn provider_of(
    kind: Option<Seq<char>>,
    keys: (Option<Seq<char>>, Option<Seq<char>>),
) -> ProviderView {
    ProviderView {
        kind: match kind {
            Some(k) => k,
            None => OPENAI_KIND@,
        },
        kind_omitted: kind is None,
        api_key: keys.0,
        base_url: keys.1,
    }
}

/// The provider of the node, with its name.
pub open spec fn named_provider(n: Shape<LeafView>) -> Result<(Seq<char>, ProviderView), Fault> {
    if n.name != "provider"@ {
        Err(
            fault("expected `provider`, found `"@ + n.name + "`"@, None, n.offset, n.length),
        )
    } else {
        match kdlfmt::first_argument(n.entries) {
            None => Err(
                fault(
                    "`provider` requires a name argument"@,
                    Some("expected: provider \"name\" (kind=\"kind\") { ... }"@),
                    n.offset,
                    n.length,
                ),
            ),
            Some(ValueView::Text(name)) => match read_kind(
                after_first(n.entries),
                n.offset,
                n.length,
            ) {
                Err(f) => Err(f),
                Ok(kind) => match read_keys(children_of(n)) {
                    Err(f) => Err(f),
                    Ok(keys) => Ok((name, provider_of(kind, keys))),
                },
            },
            Some(_) => Err(
                fault("provider name must be a string"@, None, n.offset, n.length),
            ),
        }
    }
}

/// The providers with the one of the node.
pub open spec fn read_provider(
    n: Shape<LeafView>,
    providers: Seq<(Seq<char>, ProviderView)>,
) -> Result<Seq<(Seq<char>, ProviderView)>, Fault> {
    match named_provider(n) {
        Err(f) => Err(f),
        Ok((name, p)) => if text_map::lookup(providers, name) is Some {
            Err(fault("duplicate provider name"@, None, n.offset, n.length))
        } else {
            Ok(text_map::with(providers, name, p))
        },
    }
}

/// The providers with those of the nodes.
pub open spec fn read_providers(
    ns: Seq<Shape<LeafView>>,
    providers: Seq<(Seq<char>, ProviderView)>,
) -> Result<Seq<(Seq<char>, ProviderView)>, Fault>
    decreases ns.len(),
{
    if ns.len() == 0 {
        Ok(providers)
    } else {
        match read_providers(ns.drop_last(), providers) {
            Err(f) => Err(f),
            Ok(ps) => read_provider(ns.last(), ps),
        }
    }
}

/// The connections with the provider and the model in use that a node states.
pub open spec fn read_active(
    n: Shape<Shape<LeafView>>,
    c: ConnectionsView,
) -> Result<ConnectionsView, Fault> {
    let es = n.entries;
    if es.len() == 0 {
        Err(
            fault(
                "`active` requires a provider name argument"@,
                Some("expected: active \"provider\" (\"model\")"@),
                n.offset,
                n.length,
            ),
        )
    } else if es.len() == 1 && es[0].value is Text {
        Ok(ConnectionsView { active_provider: Some(es[0].value->Text_0), ..c })
    } else if es.len() == 2 && es[0].value is Text && es[1].value is Text {
        Ok(
            ConnectionsView {
                active_provider: Some(es[0].value->Text_0),
                active_model: Some(es[1].value->Text_0),
                ..c
            },
        )
    } else {
        Err(
            fault(
                "`active` accepts at most two arguments (provider, model)"@,
                Some("both arguments must be strings"@),
                n.offset,
                n.length,
            ),
        )
    }
}

/// The connections, and whether one was stated to be in use, with the node.
pub open spec fn read_node(
    n: Shape<Shape<LeafView>>,
    c: (ConnectionsView, bool),
) -> Result<(ConnectionsView, bool), Fault> {
    if n.name == "active"@ {
        if c.1 {
            Err(fault("duplicate `active` node"@, None, n.offset, n.length))
        } else {
            match read_active(n, c.0) {
                Ok(d) => Ok((d, true)),
                Err(f) => Err(f),
            }
        }
    } else if n.name == "providers"@ {
        match n.children {
            None => Err(fault("`providers` has no children"@, None, n.offset, n.length)),
            Some(cs) => match read_providers(cs, c.0.providers) {
                Ok(ps) => Ok((ConnectionsView { providers: ps, ..c.0 }, c.1)),
                Err(f) => Err(f),
            },
        }
    } else {
        Err(
            fault(
                "unknown node `"@ + n.name + "`"@,
                Some(
                    "expected `active` or `providers` (the legacy format is no longer supported)"@,
                ),
                n.offset,
                n.length,
            ),
        )
    }
}

/// The connections that the nodes state, and whether one is stated to be in use.
pub open spec fn read_nodes(ns: Seq<Shape<Shape<LeafView>>>) -> Result<
    (ConnectionsView, bool),
    Fault,
>
    decreases ns.len(),
{
    if ns.len() == 0 {
        Ok((connections::no_connections(), false))
    } else {
        match read_nodes(ns.drop_last()) {
            Err(f) => Err(f),
            Ok(c) => read_node(ns.last(), c),
        }
    }
}

fn node_error(
    input: &str,
    offset: usize,
    length: usize,
    message: &str,
    help: Option<&str>,
) -> (r: CoreError)
    ensures
        r@ == error::located(
            input@,
            fault(message@, text::opt_str(help), offset as nat, length as nat),
        ),
{
    let help = match help {
        Some(h) => Some(h.to_owned()),
        None => None,
    };
    error_at(input, offset, length, message.to_owned(), help)
}

/// A text between two others.
fn between(start: &str, middle: &str, end: &str) -> (r: String)
    ensures
        r@ == start@ + middle@ + end@,
{
    let mut s: String = start.to_owned();
    s.append(middle);
    s.append(end);
    s
}

fn parse_kind(entries: &Vec<Entry>, offset: usize, length: usize, input: &str) -> (r: Result<
    Option<String>,
    CoreError,
>)
    ensures
        match read_kind(after_first(views::views(entries@)), offset as nat, length as nat) {
            Ok(k) => r matches Ok(o) && views::opt_view(o) == k,
            Err(f) => r matches Err(e) && e@ == error::located(input@, f),
        },
{
    let ghost all = views::views(entries@);
    let ghost rest = after_first(all);
    let n: usize = entries.len();
    let mut kind: Option<String> = None;
    let mut i: usize = if n > 0 {
        1
    } else {
        0
    };
    proof {
        assert(rest.take(0) =~= Seq::empty());
    }
    while i < n
        invariant
            all == views::views(entries@),
            rest == after_first(all),
            n == entries@.len(),
            n > 0 ==> 1 <= i <= n,
            n == 0 ==> i == 0,
            read_kind(
                rest.take(
                    if n > 0 {
                        i - 1
                    } else {
                        0
                    },
                ),
                offset as nat,
                length as nat,
            ) == Ok::<Option<Seq<char>>, Fault>(views::opt_view(kind)),
        decreases n - i,
    {
        let ghost before = rest.take(i - 1);
        let ghost now = rest.take(i as int);
        proof {
            assert(now.drop_last() =~= before);
            assert(now.last() == entries@[i as int]@);
            lemma_kind_error(rest, i as int, offset as nat, length as nat);
        }
        let name = match &entries[i].name {
            None => return Err(
                node_error(
                    input,
                    offset,
                    length,
                    "provider takes only one positional argument (the name)",
                    None,
                ),
            ),
            Some(name) => name,
        };
        if !same(name.as_str(), "kind") {
            let message = between("unknown provider property `", name.as_str(), "`");
            return Err(
                node_error(input, offset, length, message.as_str(), Some("expected `kind`")),
            );
        }
        match &entries[i].value {
            Value::Text(v) => {
                if trim(v.as_str()).is_empty() {
                    return Err(
                        node_error(
                            input,
                            offset,
                            length,
                            "provider `kind` must not be empty",
                            None,
                        ),
                    );
                }
                kind = Some(v.clone());
            },
            _ => {
                return Err(
                    node_error(input, offset, length, "provider `kind` must be a string", None),
                );
            },
        }
        i += 1;
    }
    proof {
        if n > 0 {
            assert(rest.take(i - 1) =~= rest);
        } else {
            assert(rest.take(0) =~= rest);
        }
    }
    Ok(kind)
}

/// What is wrong with the first properties is wrong with all.
proof fn lemma_kind_error(es: Seq<EntryView>, i: int, offset: nat, length: nat)
    requires
        0 <= i <= es.len(),
    ensures
        read_kind(es.take(i), offset, length) matches Err(f) ==> read_kind(es, offset, length)
            == Err::<Option<Seq<char>>, Fault>(f),
    decreases es.len() - i,
{
    if i < es.len() {
        assert(es.take(i + 1).drop_last() =~= es.take(i));
        lemma_kind_error(es, i + 1, offset, length);
    } else {
        assert(es.take(i) =~= es);
    }
}

fn parse_text(leaf: &Leaf, input: &str) -> (r: Result<String, CoreError>)
    ensures
        match read_text(leaf@) {
            Ok(s) => r matches Ok(t) && t@ == s,
            Err(f) => r matches Err(e) && e@ == error::located(input@, f),
        },
{
    match argument(&leaf.entries) {
        Some(Value::Text(s)) => Ok(s.clone()),
        Some(_) => {
            let message = between("`", leaf.name.as_str(), "` must be a string");
            Err(node_error(input, leaf.offset, leaf.length, message.as_str(), None))
        },
        None => {
            let message = between("`", leaf.name.as_str(), "` requires a string argument");
            Err(node_error(input, leaf.offset, leaf.length, message.as_str(), None))
        },
    }
}

/// What is wrong with the first children is wrong with all.
proof fn lemma_keys_error(cs: Seq<LeafView>, i: int)
    requires
        0 <= i <= cs.len(),
    ensures
        read_keys(cs.take(i)) matches Err(f) ==> read_keys(cs) == Err::<
            (Option<Seq<char>>, Option<Seq<char>>),
            Fault,
        >(f),
    decreases cs.len() - i,
{
    if i < cs.len() {
        assert(cs.take(i + 1).drop_last() =~= cs.take(i));
        lemma_keys_error(cs, i + 1);
    } else {
        assert(cs.take(i) =~= cs);
    }
}

fn parse_keys(children: &Vec<Leaf>, input: &str) -> (r: Result<
    (Option<String>, Option<String>),
    CoreError,
>)
    ensures
        match read_keys(views::views(children@)) {
            Ok((k, u)) => r matches Ok((key, url)) && views::opt_view(key) == k && views::opt_view(
                url,
            ) == u,
            Err(f) => r matches Err(e) && e@ == error::located(input@, f),
        },
{
    let ghost all = views::views(children@);
    let mut key: Option<String> = None;
    let mut url: Option<String> = None;
    let mut i: usize = 0;
    proof {
        reveal_strlit("api-key");
        reveal_strlit("base-url");
        assert("api-key"@.len() == 7 && "base-url"@.len() == 8);
        assert(all.take(0) =~= Seq::empty());
    }
    while i < children.len()
        invariant
            all == views::views(children@),
            i <= children@.len(),
            read_keys(all.take(i as int)) == Ok::<(Option<Seq<char>>, Option<Seq<char>>), Fault>(
                (views::opt_view(key), views::opt_view(url)),
            ),
            "api-key"@ != "base-url"@,
        decreases children@.len() - i,
    {
        proof {
            assert(all.take(i + 1).drop_last() =~= all.take(i as int));
            assert(all.take(i + 1).last() == children@[i as int]@);
            lemma_keys_error(all, i + 1);
        }
        let child = &children[i];
        if same(child.name.as_str(), "api-key") {
            match parse_text(child, input) {
                Ok(s) => {
                    key = Some(s);
                },
                Err(e) => return Err(e),
            }
        } else if same(child.name.as_str(), "base-url") {
            match parse_text(child, input) {
                Ok(s) => {
                    url = Some(s);
                },
                Err(e) => return Err(e),
            }
        }
        i += 1;
    }
    proof {
        assert(all.take(i as int) =~= all);
    }
    Ok((key, url))
}

/// Takes in the provider of a node. A name that is taken is an error, and the
/// node's provider takes the place of the earlier one all the same; on any other
/// error the providers are left as they were.
pub fn parse_provider(
    node: &ProviderNode,
    input: &str,
    providers: &mut TextMap<ProviderConfig>,
) -> (r: Result<(), CoreError>)
    ensures
        match read_provider(node@, text_map::viewed(old(providers)@)) {
            Ok(_) => r is Ok,
            Err(f) => r matches Err(e) && e@ == error::located(input@, f),
        },
        match named_provider(node@) {
            Ok((name, p)) => text_map::viewed(final(providers)@) == text_map::with(
                text_map::viewed(old(providers)@),
                name,
                p,
            ),
            Err(_) => final(providers)@ == old(providers)@,
        },
{
    if !same(node.name.as_str(), "provider") {
        let message = between("expected `provider`, found `", node.name.as_str(), "`");
        return Err(node_error(input, node.offset, node.length, message.as_str(), None));
    }
    let name = match argument(&node.entries) {
        Some(Value::Text(name)) => name.clone(),
        Some(_) => return Err(
            node_error(input, node.offset, node.length, "provider name must be a string", None),
        ),
        None => return Err(
            node_error(
                input,
                node.offset,
                node.length,
                "`provider` requires a name argument",
                Some("expected: provider \"name\" (kind=\"kind\") { ... }"),
            ),
        ),
    };
    let kind = match parse_kind(&node.entries, node.offset, node.length, input) {
        Ok(kind) => kind,
        Err(e) => return Err(e),
    };
    let keys = match &node.children {
        Some(children) => match parse_keys(children, input) {
            Ok(keys) => keys,
            Err(e) => return Err(e),
        },
        None => (None, None),
    };
    proof {
        text_map::lemma_viewed_lookup(providers@, name@);
    }
    let taken = providers.get(name.as_str()).is_some();
    let kind_omitted = kind.is_none();
    let kind = match kind {
        Some(kind) => kind,
        None => OPENAI_KIND.to_owned(),
    };
    let (api_key, base_url) = keys;
    let config = ProviderConfig { kind, kind_omitted, api_key, base_url };
    proof {
        text_map::lemma_viewed_with(providers@, name@, config);
    }
    providers.insert(name, config);
    if taken {
        return Err(node_error(input, node.offset, node.length, "duplicate provider name", None));
    }
    Ok(())
}

/// What is wrong with the first providers is wrong with all.
proof fn lemma_providers_error(
    ns: Seq<Shape<LeafView>>,
    i: int,
    providers: Seq<(Seq<char>, ProviderView)>,
)
    requires
        0 <= i <= ns.len(),
    ensures
        read_providers(ns.take(i), providers) matches Err(f) ==> read_providers(ns, providers)
            == Err::<Seq<(Seq<char>, ProviderView)>, Fault>(f),
    decreases ns.len() - i,
{
    if i < ns.len() {
        assert(ns.take(i + 1).drop_last() =~= ns.take(i));
        lemma_providers_error(ns, i + 1, providers);
    } else {
        assert(ns.take(i) =~= ns);
    }
}

fn parse_providers(
    nodes: &Vec<ProviderNode>,
    input: &str,
    providers: &mut TextMap<ProviderConfig>,
) -> (r: Result<(), CoreError>)
    ensures
        match read_providers(views::views(nodes@), text_map::viewed(old(providers)@)) {
            Ok(ps) => r is Ok && text_map::viewed(final(providers)@) == ps,
            Err(f) => r matches Err(e) && e@ == error::located(input@, f),
        },
{
    let ghost all = views::views(nodes@);
    let ghost start = text_map::viewed(providers@);
    let mut i: usize = 0;
    proof {
        assert(all.take(0) =~= Seq::empty());
    }
    while i < nodes.len()
        invariant
            all == views::views(nodes@),
            start == text_map::viewed(old(providers)@),
            i <= nodes@.len(),
            read_providers(all.take(i as int), start) == Ok::<
                Seq<(Seq<char>, ProviderView)>,
                Fault,
            >(text_map::viewed(providers@)),
        decreases nodes@.len() - i,
    {
        proof {
            assert(all.take(i + 1).drop_last() =~= all.take(i as int));
            assert(all.take(i + 1).last() == nodes@[i as int]@);
            lemma_providers_error(all, i + 1, start);
        }
        match parse_provider(&nodes[i], input, providers) {
            Ok(()) => {},
            Err(e) => return Err(e),
        }
        i += 1;
    }
    proof {
        assert(all.take(i as int) =~= all);
    }
    Ok(())
}

fn parse_active(
    node: &Node<ProviderNode>,
    input: &str,
    connections: &mut Connections,
) -> (r: Result<(), CoreError>)
    ensures
        match read_active(node@, old(connections)@) {
            Ok(c) => r is Ok && final(connections)@ == c,
            Err(f) => r matches Err(e) && e@ == error::located(input@, f),
        },
{
    let es = &node.entries;
    let n: usize = es.len();
    proof {
        assert(node@.entries == views::views(es@));
        if n > 0 {
            assert(node@.entries[0] == es@[0]@);
        }
        if n > 1 {
            assert(node@.entries[1] == es@[1]@);
        }
    }
    if n == 0 {
        return Err(
            node_error(
                input,
                node.offset,
                node.length,
                "`active` requires a provider name argument",
                Some("expected: active \"provider\" (\"model\")"),
            ),
        );
    }
    if n == 1 {
        if let Value::Text(provider) = &es[0].value {
            connections.active_provider = Some(provider.clone());
            return Ok(());
        }
    }
    if n == 2 {
        if let Value::Text(provider) = &es[0].value {
            if let Value::Text(model) = &es[1].value {
                connections.active_provider = Some(provider.clone());
                connections.active_model = Some(model.clone());
                return Ok(());
            }
        }
    }
    Err(
        node_error(
            input,
            node.offset,
            node.length,
            "`active` accepts at most two arguments (provider, model)",
            Some("both arguments must be strings"),
        ),
    )
}

/// What is wrong with the first nodes is wrong with all.
proof fn lemma_nodes_error(ns: Seq<Shape<Shape<LeafView>>>, i: int)
    requires
        0 <= i <= ns.len(),
    ensures
        read_nodes(ns.take(i)) matches Err(f) ==> read_nodes(ns) == Err::<
            (ConnectionsView, bool),
            Fault,
        >(f),
    decreases ns.len() - i,
{
    if i < ns.len() {
        assert(ns.take(i + 1).drop_last() =~= ns.take(i));
        lemma_nodes_error(ns, i + 1);
    } else {
        assert(ns.take(i) =~= ns);
    }
}

/// The connections that the nodes of a document state.
pub fn from_document(nodes: &Vec<Node<ProviderNode>>, input: &str) -> (r: Result<
    Connections,
    CoreError,
>)
    ensures
        match read_nodes(views::views(nodes@)) {
            Ok((c, _)) => r matches Ok(x) && x@ == c,
            Err(f) => r matches Err(e) && e@ == error::located(input@, f),
        },
{
    let ghost all = views::views(nodes@);
    let mut connections = Connections::default();
    let mut had_active = false;
    let mut i: usize = 0;
    proof {
        reveal_strlit("active");
        reveal_strlit("providers");
        assert("active"@.len() == 6 && "providers"@.len() == 9);
        assert(all.take(0) =~= Seq::empty());
    }
    while i < nodes.len()
        invariant
            all == views::views(nodes@),
            i <= nodes@.len(),
            read_nodes(all.take(i as int)) == Ok::<(ConnectionsView, bool), Fault>(
                (connections@, had_active),
            ),
            "active"@ != "providers"@,
        decreases nodes@.len() - i,
    {
        proof {
            assert(all.take(i + 1).drop_last() =~= all.take(i as int));
            assert(all.take(i + 1).last() == nodes@[i as int]@);
            lemma_nodes_error(all, i + 1);
        }
        let node = &nodes[i];
        if same(node.name.as_str(), "active") {
            if had_active {
                return Err(
                    node_error(input, node.offset, node.length, "duplicate `active` node", None),
                );
            }
            had_active = true;
            match parse_active(node, input, &mut connections) {
                Ok(()) => {},
                Err(e) => return Err(e),
            }
        } else if same(node.name.as_str(), "providers") {
            match &node.children {
                None => {
                    return Err(
                        node_error(
                            input,
                            node.offset,
                            node.length,
                            "`providers` has no children",
                            None,
                        ),
                    );
                },
                Some(children) => {
                    match parse_providers(children, input, &mut connections.providers) {
                        Ok(()) => {},
                        Err(e) => return Err(e),
                    }
                },
            }
        } else {
            let message = between("unknown node `", node.name.as_str(), "`");
            return Err(
                node_error(
                    input,
                    node.offset,
                    node.length,
                    message.as_str(),
                    Some(
                        "expected `active` or `providers` (the legacy format is no longer supported)",
                    ),
                ),
            );
        }
        i += 1;
    }
    proof {
        assert(all.take(i as int) =~= all);
    }
    Ok(connections)
}

/// The error for a text that could not be read: that of its first diagnostic.
pub open spec fn unreadable(contents: Seq<char>, f: kdlfmt::FailureView) -> error::ErrorView {
    if f.diagnostics.len() > 0 {
        let d = f.diagnostics[0];
        error::located(
            f.input,
            fault(
                match d.message {
                    Some(m) => m,
                    None => f.message,
                },
                d.help,
                d.offset,
                d.length,
            ),
        )
    } else {
        error::located(contents, fault(f.message, None, 0, 0))
    }
}

/// The error for a text that could not be read.
pub fn unreadable_error(contents: &str, f: &ReadFailure) -> (r: CoreError)
    ensures
        r@ == unreadable(contents@, f@),
{
    if f.diagnostics.len() > 0 {
        let d = &f.diagnostics[0];
        proof {
            assert(f@.diagnostics[0] == d@);
        }
        let message = match &d.message {
            Some(m) => m.clone(),
            None => f.message.clone(),
        };
        let help = match &d.help {
            Some(h) => Some(h.clone()),
            None => None,
        };
        error_at(f.input.as_str(), d.offset, d.length, message, help)
    } else {
        error_at(contents, 0, 0, f.message.clone(), None)
    }
}

/// Whether the outcome is that of reading the text.
pub open spec fn is_reading(contents: Seq<char>, r: Result<Connections, CoreError>) -> bool {
    match kdlfmt::kdl_read(contents) {
        Err(f) => r matches Err(e) && e@ == unreadable(contents, f),
        Ok(d) => match read_nodes(kdlfmt::roots(d)) {
            Ok((c, _)) => r matches Ok(x) && x@ == c,
            Err(f) => r matches Err(e) && e@ == error::located(contents, f),
        },
    }
}

/// The connections that the text states.
pub fn from_kdl(contents: &str) -> (r: Result<Connections, CoreError>)
    ensures
        is_reading(contents@, r),
{
    match read_document(contents) {
        Ok(d) => from_document(&roots_of(&d), contents),
        Err(f) => Err(unreadable_error(contents, &f)),
    }
}

/// An argument with the text.
pub open spec fn text_entry(s: Seq<char>) -> EntryView {
    EntryView { name: None, value: ValueView::Text(s) }
}

/// A node with the text and nothing else.
pub open spec fn text_leaf(name: Seq<char>, s: Seq<char>) -> LeafView {
    LeafView { name, entries: seq![text_entry(s)], offset: 0, length: 0 }
}

/// The children of a provider's node.
pub open spec fn key_leaves(p: ProviderView) -> Seq<LeafView> {
    (match p.api_key {
        Some(k) => seq![text_leaf("api-key"@, k)],
        None => Seq::empty(),
    }) + (match p.base_url {
        Some(u) => seq![text_leaf("base-url"@, u)],
        None => Seq::empty(),
    })
}

/// The node of a provider.
pub open spec fn provider_shape(name: Seq<char>, p: ProviderView) -> Shape<LeafView> {
    Shape {
        name: "provider"@,
        entries: if p.kind_omitted {
            seq![text_entry(name)]
        } else {
            seq![
                text_entry(name),
                EntryView { name: Some("kind"@), value: ValueView::Text(p.kind) },
            ]
        },
        children: if key_leaves(p).len() > 0 {
            Some(key_leaves(p))
        } else {
            None
        },
        offset: 0,
        length: 0,
    }
}

/// The nodes of the providers.
pub open spec fn provider_shapes(ps: Seq<(Seq<char>, ProviderView)>) -> Seq<Shape<LeafView>> {
    Seq::new(ps.len(), |i: int| provider_shape(ps[i].0, ps[i].1))
}

/// The node of the providers.
pub open spec fn providers_shape(c: ConnectionsView) -> Shape<Shape<LeafView>> {
    Shape {
        name: "providers"@,
        entries: Seq::empty(),
        children: Some(provider_shapes(c.providers)),
        offset: 0,
        length: 0,
    }
}

/// The node of the provider in use.
pub open spec fn active_shape(provider: Seq<char>, model: Option<Seq<char>>) -> Shape<
    Shape<LeafView>,
> {
    Shape {
        name: "active"@,
        entries: match model {
            Some(m) => seq![text_entry(provider), text_entry(m)],
            None => seq![text_entry(provider)],
        },
        children: None,
        offset: 0,
        length: 0,
    }
}

/// The nodes that connections are saved as.
pub open spec fn written(c: ConnectionsView) -> Seq<Shape<Shape<LeafView>>> {
    match c.active_provider {
        Some(p) => seq![active_shape(p, c.active_model), providers_shape(c)],
        None => seq![providers_shape(c)],
    }
}

/// Whether a provider can be saved and read again: a kind that is left out is
/// the one that stands for it, and any other is not blank.
pub open spec fn provider_consistent(p: ProviderView) -> bool {
    if p.kind_omitted {
        p.kind == OPENAI_KIND@
    } else {
        text::trimmed(p.kind).len() > 0
    }
}

/// Whether connections can be saved and read again.
pub open spec fn consistent(c: ConnectionsView) -> bool {
    &&& text_map::ordered(c.providers)
    &&& c.active_model is Some ==> c.active_provider is Some
    &&& forall|i: int|
        0 <= i < c.providers.len() ==> provider_consistent((#[trigger] c.providers[i]).1)
}

/// Whether an optional text comes back when it is written and read again.
pub open spec fn opt_writable(o: Option<Seq<char>>) -> bool {
    o matches Some(s) ==> kdlfmt::writable(s)
}

/// Whether the texts of a provider come back when they are written and read again.
pub open spec fn provider_writable(name: Seq<char>, p: ProviderView) -> bool {
    &&& kdlfmt::writable(name)
    &&& p.kind_omitted || kdlfmt::writable(p.kind)
    &&& opt_writable(p.api_key)
    &&& opt_writable(p.base_url)
}

/// Whether all texts come back when they are written and read again.
pub open spec fn texts_writable(c: ConnectionsView) -> bool {
    &&& opt_writable(c.active_provider)
    &&& opt_writable(c.active_model)
    &&& forall|i: int|
        0 <= i < c.providers.len() ==> provider_writable(
            (#[trigger] c.providers[i]).0,
            c.providers[i].1,
        )
}

proof fn lemma_keys_read(p: ProviderView)
    ensures
        read_keys(key_leaves(p)) == Ok::<(Option<Seq<char>>, Option<Seq<char>>), Fault>(
            (p.api_key, p.base_url),
        ),
{
    reveal_strlit("api-key");
    reveal_strlit("base-url");
    assert("api-key"@.len() == 7 && "base-url"@.len() == 8);
    let ls = key_leaves(p);
    reveal_with_fuel(read_keys, 3);
    if let Some(k) = p.api_key {
        let l = text_leaf("api-key"@, k);
        assert(kdlfmt::first_argument(l.entries) == Some(ValueView::Text(k)));
        if let Some(u) = p.base_url {
            let m = text_leaf("base-url"@, u);
            assert(kdlfmt::first_argument(m.entries) == Some(ValueView::Text(u)));
            assert(ls =~= seq![l, m]);
            assert(ls.drop_last() =~= seq![l]);
            assert(ls.drop_last().drop_last() =~= Seq::empty());
        } else {
            assert(ls =~= seq![l]);
            assert(ls.drop_last() =~= Seq::empty());
        }
    } else if let Some(u) = p.base_url {
        let m = text_leaf("base-url"@, u);
        assert(kdlfmt::first_argument(m.entries) == Some(ValueView::Text(u)));
        assert(ls =~= seq![m]);
        assert(ls.drop_last() =~= Seq::empty());
    } else {
        assert(ls =~= Seq::empty());
    }
}

proof fn lemma_provider_read(
    name: Seq<char>,
    p: ProviderView,
    before: Seq<(Seq<char>, ProviderView)>,
)
    requires
        provider_consistent(p),
        text_map::lookup(before, name) is None,
    ensures
        read_provider(provider_shape(name, p), before) == Ok::<
            Seq<(Seq<char>, ProviderView)>,
            Fault,
        >(text_map::with(before, name, p)),
{
    let n = provider_shape(name, p);
    lemma_keys_read(p);
    assert(kdlfmt::first_argument(n.entries) == Some(ValueView::Text(name)));
    reveal_with_fuel(read_kind, 2);
    let rest = after_first(n.entries);
    if p.kind_omitted {
        assert(rest =~= Seq::empty());
    } else {
        let e = EntryView { name: Some("kind"@), value: ValueView::Text(p.kind) };
        assert(rest =~= seq![e]);
        assert(rest.drop_last() =~= Seq::empty());
    }
    if key_leaves(p).len() == 0 {
        assert(key_leaves(p) =~= Seq::empty());
    }
    let kind = if p.kind_omitted {
        None
    } else {
        Some(p.kind)
    };
    assert(provider_of(kind, (p.api_key, p.base_url)) =~= p);
}

proof fn lemma_providers_read(ps: Seq<(Seq<char>, ProviderView)>)
    requires
        text_map::ordered(ps),
        forall|i: int| 0 <= i < ps.len() ==> provider_consistent((#[trigger] ps[i]).1),
    ensures
        read_providers(provider_shapes(ps), Seq::empty()) == Ok::<
            Seq<(Seq<char>, ProviderView)>,
            Fault,
        >(ps),
    decreases ps.len(),
{
    let ns = provider_shapes(ps);
    if ps.len() > 0 {
        let before = ps.drop_last();
        let (name, p) = ps.last();
        assert(forall|i: int| 0 <= i < before.len() ==> before[i] == ps[i]);
        lemma_providers_read(before);
        assert(ns.drop_last() =~= provider_shapes(before));
        assert forall|i: int| 0 <= i < before.len() implies text_map::text_less(
            #[trigger] before[i].0,
            name,
        ) by {
            assert(text_map::text_less(ps[i].0, ps[ps.len() - 1].0));
        }
        text_map::lemma_with_last(before, name, p);
        assert(provider_consistent(ps[ps.len() - 1].1));
        lemma_provider_read(name, p, before);
        assert(before.push((name, p)) =~= ps);
    } else {
        assert(ps =~= Seq::empty());
    }
}

/// Reading the nodes that connections are saved as gives the connections back.
pub proof fn lemma_written_is_read_back(c: ConnectionsView)
    requires
        consistent(c),
    ensures
        read_nodes(written(c)) == Ok::<(ConnectionsView, bool), Fault>(
            (c, c.active_provider is Some),
        ),
{
    reveal_strlit("active");
    reveal_strlit("providers");
    assert("active"@.len() == 6 && "providers"@.len() == 9);
    lemma_providers_read(c.providers);
    reveal_with_fuel(read_nodes, 3);
    let ns = written(c);
    let last = providers_shape(c);
    let none = connections::no_connections();
    if let Some(p) = c.active_provider {
        let a = active_shape(p, c.active_model);
        assert(ns.drop_last() =~= seq![a]);
        assert(ns.drop_last().drop_last() =~= Seq::empty());
        let d = ConnectionsView { providers: Seq::empty(), ..c };
        assert(read_active(a, none) == Ok::<ConnectionsView, Fault>(d)) by {
            match c.active_model {
                Some(m) => {
                    assert(a.entries[0] == text_entry(p));
                    assert(a.entries[1] == text_entry(m));
                },
                None => {
                    assert(a.entries[0] == text_entry(p));
                },
            }
        }
        assert(read_nodes(seq![a]) == Ok::<(ConnectionsView, bool), Fault>((d, true)));
        assert(read_node(last, (d, true)) == Ok::<(ConnectionsView, bool), Fault>((c, true)));
    } else {
        assert(ns.drop_last() =~= Seq::empty());
        assert(read_node(last, (none, false)) == Ok::<(ConnectionsView, bool), Fault>((c, false)))
            by {
            assert(ConnectionsView { providers: c.providers, ..none } =~= c);
        }
    }
}

proof fn lemma_bare_kind(es: Seq<EntryView>, offset: nat, length: nat)
    ensures
        read_kind(es, 0, 0) matches Ok(k) ==> read_kind(es, offset, length) == Ok::<
            Option<Seq<char>>,
            Fault,
        >(k),
    decreases es.len(),
{
    if es.len() > 0 {
        lemma_bare_kind(es.drop_last(), offset, length);
    }
}

proof fn lemma_bare_keys(cs: Seq<LeafView>, bs: Seq<LeafView>)
    requires
        bs == Seq::new(cs.len(), |i: int| kdlfmt::bare_leaf(cs[i])),
    ensures
        read_keys(bs) matches Ok(k) ==> read_keys(cs) == Ok::<
            (Option<Seq<char>>, Option<Seq<char>>),
            Fault,
        >(k),
    decreases cs.len(),
{
    if cs.len() > 0 {
        let fewer = Seq::new(
            cs.drop_last().len(),
            |i: int| kdlfmt::bare_leaf(cs.drop_last()[i]),
        );
        assert(bs.drop_last() =~= fewer);
        lemma_bare_keys(cs.drop_last(), fewer);
        assert(bs.last() == kdlfmt::bare_leaf(cs.last()));
    }
}

proof fn lemma_bare_provider(n: Shape<LeafView>, ps: Seq<(Seq<char>, ProviderView)>)
    ensures
        read_provider(kdlfmt::bare_branch(n), ps) matches Ok(x) ==> read_provider(n, ps) == Ok::<
            Seq<(Seq<char>, ProviderView)>,
            Fault,
        >(x),
{
    lemma_bare_kind(after_first(n.entries), n.offset, n.length);
    if let Some(cs) = n.children {
        let bs = Seq::new(cs.len(), |i: int| kdlfmt::bare_leaf(cs[i]));
        assert(kdlfmt::bare_branch(n).children == Some(bs));
        lemma_bare_keys(cs, bs);
    }
}

proof fn lemma_bare_providers(
    ns: Seq<Shape<LeafView>>,
    bs: Seq<Shape<LeafView>>,
    ps: Seq<(Seq<char>, ProviderView)>,
)
    requires
        bs == Seq::new(ns.len(), |i: int| kdlfmt::bare_branch(ns[i])),
    ensures
        read_providers(bs, ps) matches Ok(x) ==> read_providers(ns, ps) == Ok::<
            Seq<(Seq<char>, ProviderView)>,
            Fault,
        >(x),
    decreases ns.len(),
{
    if ns.len() > 0 {
        let fewer = Seq::new(
            ns.drop_last().len(),
            |i: int| kdlfmt::bare_branch(ns.drop_last()[i]),
        );
        assert(bs.drop_last() =~= fewer);
        lemma_bare_providers(ns.drop_last(), fewer, ps);
        assert(bs.last() == kdlfmt::bare_branch(ns.last()));
        if let Ok(x) = read_providers(fewer, ps) {
            lemma_bare_provider(ns.last(), x);
        }
    }
}

proof fn lemma_bare_nodes(ns: Seq<Shape<Shape<LeafView>>>)
    ensures
        read_nodes(kdlfmt::bare_roots(ns)) matches Ok(x) ==> read_nodes(ns) == Ok::<
            (ConnectionsView, bool),
            Fault,
        >(x),
    decreases ns.len(),
{
    let bs = kdlfmt::bare_roots(ns);
    if ns.len() > 0 {
        assert(bs.drop_last() =~= kdlfmt::bare_roots(ns.drop_last()));
        lemma_bare_nodes(ns.drop_last());
        let n = ns.last();
        assert(bs.last() == kdlfmt::bare_root(n));
        if let Ok(x) = read_nodes(bs.drop_last()) {
            if let Some(cs) = n.children {
                let ds = Seq::new(cs.len(), |i: int| kdlfmt::bare_branch(cs[i]));
                assert(kdlfmt::bare_root(n).children == Some(ds));
                lemma_bare_providers(cs, ds, x.0.providers);
            }
        }
    }
}

/// Whether the text is one that the connections are saved as: the text of a
/// document with their nodes. Where the connections are consistent and all
/// their texts come back, reading it gives the connections back.
pub open spec fn is_writing(c: ConnectionsView, written_text: Seq<char>) -> bool {
    &&& exists|d: kdl::KdlDocument|
        written_text == #[trigger] kdlfmt::document_text(d) && kdlfmt::bare_roots(kdlfmt::roots(d))
            == written(c)
    &&& consistent(c) && texts_writable(c) ==> is_read_as(written_text, c)
}

/// Whether reading the text gives the connections.
pub open spec fn is_read_as(contents: Seq<char>, c: ConnectionsView) -> bool {
    match kdlfmt::kdl_read(contents) {
        Ok(d) => read_nodes(kdlfmt::roots(d)) matches Ok((x, _)) && x == c,
        Err(_) => false,
    }
}

/// The names of the nodes come back when they are written and read again.
proof fn lemma_names_writable()
    ensures
        kdlfmt::writable("active"@),
        kdlfmt::writable("providers"@),
        kdlfmt::writable("provider"@),
        kdlfmt::writable("kind"@),
        kdlfmt::writable("api-key"@),
        kdlfmt::writable("base-url"@),
{
    reveal_strlit("active");
    reveal_strlit("providers");
    reveal_strlit("provider");
    reveal_strlit("kind");
    reveal_strlit("api-key");
    reveal_strlit("base-url");
    reveal_with_fuel(kdlfmt::is_word_from, 10);
    kdlfmt::lemma_word_writable("active"@);
    kdlfmt::lemma_word_writable("providers"@);
    kdlfmt::lemma_word_writable("provider"@);
    kdlfmt::lemma_word_writable("kind"@);
    kdlfmt::lemma_word_writable("api-key"@);
    kdlfmt::lemma_word_writable("base-url"@);
}

proof fn lemma_leaf_writable(n: kdl::KdlNode, name: Seq<char>, value: Seq<char>)
    requires
        kdlfmt::node_name(n) == name,
        kdlfmt::node_entries(n) == seq![text_entry(value)],
        kdlfmt::node_children(n) is None,
        kdlfmt::node_is_plain(n),
        kdlfmt::writable(name),
        kdlfmt::writable(value),
    ensures
        kdlfmt::writable_leaf(n),
{
}

fn provider_node(name: &str, p: &ProviderConfig) -> (r: kdl::KdlNode)
    ensures
        kdlfmt::bare_branch(kdlfmt::branch(r)) == provider_shape(name@, p@),
        provider_writable(name@, p@) ==> kdlfmt::writable_branch(r),
{
    proof {
        lemma_names_writable();
    }
    let mut node = new_node("provider");
    push_argument(&mut node, name);
    if !p.kind_omitted {
        push_property(&mut node, "kind", p.kind.as_str());
    }
    let ghost shape = provider_shape(name@, p@);
    proof {
        assert(kdlfmt::node_entries(node) =~= shape.entries);
    }
    let mut children = kdl::KdlDocument::new();
    let mut any = false;
    if let Some(key) = &p.api_key {
        let leaf = scalar("api-key", key.as_str());
        proof {
            if kdlfmt::writable(key@) {
                lemma_leaf_writable(leaf, "api-key"@, key@);
            }
        }
        push_node(&mut children, leaf);
        any = true;
    }
    if let Some(url) = &p.base_url {
        let leaf = scalar("base-url", url.as_str());
        proof {
            if kdlfmt::writable(url@) {
                lemma_leaf_writable(leaf, "base-url"@, url@);
            }
        }
        push_node(&mut children, leaf);
        any = true;
    }
    proof {
        let ls = kdlfmt::leaves(children);
        let bs = Seq::new(ls.len(), |i: int| kdlfmt::bare_leaf(ls[i]));
        assert(bs =~= key_leaves(p@));
    }
    if any {
        node.set_children(children);
    }
    proof {
        assert(kdlfmt::bare_branch(kdlfmt::branch(node)) =~= shape);
    }
    node
}

fn providers_document(providers: &TextMap<ProviderConfig>) -> (r: kdl::KdlDocument)
    ensures
        ({
            let ns = kdlfmt::branches(r);
            Seq::new(ns.len(), |i: int| kdlfmt::bare_branch(ns[i])) == provider_shapes(
                text_map::viewed(providers@),
            )
        }),
        kdlfmt::document_is_plain(r),
        (forall|i: int|
            0 <= i < providers@.len() ==> provider_writable(
                (#[trigger] providers@[i]).0,
                providers@[i].1@,
            )) ==> forall|i: int|
            0 <= i < kdlfmt::document_nodes(r).len() ==> kdlfmt::writable_branch(
                #[trigger] kdlfmt::document_nodes(r)[i],
            ),
{
    let ghost shapes = provider_shapes(text_map::viewed(providers@));
    let mut doc = kdl::KdlDocument::new();
    let n: usize = providers.len();
    let mut i: usize = 0;
    while i < n
        invariant
            n == providers@.len(),
            i <= n,
            shapes == provider_shapes(text_map::viewed(providers@)),
            kdlfmt::document_is_plain(doc),
            kdlfmt::document_nodes(doc).len() == i,
            forall|k: int|
                0 <= k < i ==> kdlfmt::bare_branch(
                    kdlfmt::branch(#[trigger] kdlfmt::document_nodes(doc)[k]),
                ) == shapes[k],
            (forall|k: int|
                0 <= k < providers@.len() ==> provider_writable(
                    (#[trigger] providers@[k]).0,
                    providers@[k].1@,
                )) ==> forall|k: int|
                0 <= k < i ==> kdlfmt::writable_branch(
                    #[trigger] kdlfmt::document_nodes(doc)[k],
                ),
        decreases n - i,
    {
        let ghost before = kdlfmt::document_nodes(doc);
        let node = provider_node(providers.key(i), providers.value(i));
        push_node(&mut doc, node);
        proof {
            assert(shapes[i as int] == provider_shape(
                providers@[i as int].0,
                providers@[i as int].1@,
            ));
            assert(forall|k: int| 0 <= k < i ==> kdlfmt::document_nodes(doc)[k] == before[k]);
            assert(kdlfmt::document_nodes(doc)[i as int] == node);
        }
        i += 1;
    }
    proof {
        let ns = kdlfmt::branches(doc);
        assert(Seq::new(ns.len(), |i: int| kdlfmt::bare_branch(ns[i])) =~= shapes);
    }
    doc
}

/// The text of the file that the connections are saved in.
pub fn to_kdl(connections: &Connections) -> (r: String)
    ensures
        is_writing(connections@, r@),
{
    let ghost c = connections@;
    let ghost shapes = written(c);
    proof {
        lemma_names_writable();
    }
    let mut doc = kdl::KdlDocument::new();
    if let Some(provider) = &connections.active_provider {
        let mut node = new_node("active");
        push_argument(&mut node, provider.as_str());
        if let Some(model) = &connections.active_model {
            push_argument(&mut node, model.as_str());
        }
        proof {
            let shape = active_shape(provider@, c.active_model);
            assert(kdlfmt::node_entries(node) =~= shape.entries);
            assert(kdlfmt::bare_root(kdlfmt::root(node)) =~= shape);
            if texts_writable(c) {
                assert(kdlfmt::writable_root(node));
            }
        }
        push_node(&mut doc, node);
    }
    let ghost first = kdlfmt::document_nodes(doc);
    let mut node = new_node("providers");
    let body = providers_document(&connections.providers);
    node.set_children(body);
    proof {
        assert(kdlfmt::node_entries(node) =~= Seq::empty());
        assert(kdlfmt::bare_root(kdlfmt::root(node)) =~= providers_shape(c));
        if texts_writable(c) {
            assert forall|i: int| 0 <= i < connections.providers@.len() implies provider_writable(
                (#[trigger] connections.providers@[i]).0,
                connections.providers@[i].1@,
            ) by {
                assert(c.providers[i] == (
                    connections.providers@[i].0,
                    connections.providers@[i].1@,
                ));
            }
            assert(kdlfmt::writable_root(node));
        }
    }
    push_node(&mut doc, node);
    proof {
        assert(kdlfmt::document_nodes(doc) =~= first.push(node));
        assert(kdlfmt::bare_roots(kdlfmt::roots(doc)) =~= shapes);
    }
    let r = finish(doc);
    proof {
        if consistent(c) && texts_writable(c) {
            assert(kdlfmt::writable_document(doc));
            lemma_written_is_read_back(c);
            if let Ok(back) = kdlfmt::kdl_read(r@) {
                lemma_bare_nodes(kdlfmt::roots(back));
            }
        }
    }
    r
}

}
