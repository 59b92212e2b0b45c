//! The providers of an older connections file, in which nothing is refused.

use crate::catalog::CatalogProvider;
use crate::config;
use crate::config::connections as current;
use crate::config::connections::kind_is_connectable;
use crate::config::connections_kdl;
use crate::config::{config_file, CONNECTIONS_FILE_NAME};
use crate::error;
use crate::error::{CoreError, FileRead};
use crate::kdlfmt;
use crate::kdlfmt::{
    finish, new_node, parse, push_argument, push_node, scalar, value_text, Entry, EntryView, Leaf,
    LeafView, Node, Shape, Value, ValueView,
};
use crate::text;
use crate::text::same;
use crate::text_map;
use crate::text_map::TextMap;
use crate::views;
use vstd::prelude::*;

verus! {

/// A provider of the connections file. Its kind names a catalog entry.
#[derive(Debug, Clone, PartialEq)]
pub struct ProviderConfig {
    pub kind: String,
    pub api_key: Option<String>,
    pub base_url: Option<String>,
}

/// The content of a [`ProviderConfig`].
#[verifier::ext_equal]
pub struct ProviderView {
    pub kind: Seq<char>,
    pub api_key: Option<Seq<char>>,
    pub base_url: Option<Seq<char>>,
}

impl View for ProviderConfig {
    type V = ProviderView;

    open spec fn view(&self) -> ProviderView {
        ProviderView {
            kind: self.kind@,
            api_key: views::opt_view(self.api_key),
            base_url: views::opt_view(self.base_url),
        }
    }
}

/// The connections file: the providers by name, and the one in use.
#[derive(Debug, Clone, PartialEq)]
pub struct Connections {
    pub providers: TextMap<ProviderConfig>,
    pub active_provider: Option<String>,
    pub active_model: Option<String>,
}

/// The content of a [`Connections`].
#[verifier::ext_equal]
pub struct ConnectionsView {
    pub providers: Seq<(Seq<char>, ProviderView)>,
    pub active_provider: Option<Seq<char>>,
    pub active_model: Option<Seq<char>>,
}

impl View for Connections {
    type V = ConnectionsView;

    open spec fn view(&self) -> ConnectionsView {
        ConnectionsView {
            providers: text_map::viewed(self.providers@),
            active_provider: views::opt_view(self.active_provider),
            active_model: views::opt_view(self.active_model),
        }
    }
}

/// No providers, and none in use.
pub open spec fn no_connections() -> ConnectionsView {
    ConnectionsView { providers: Seq::empty(), active_provider: None, active_model: None }
}

impl Default for Connections {
    fn default() -> (r: Self)
        ensures
            r@ == no_connections(),
    {
        let r = Connections {
            providers: TextMap::new(),
            active_provider: None,
            active_model: None,
        };
        proof {
            assert(r@.providers =~= Seq::empty());
        }
        r
    }
}

/// The text of the first entry, if it is one.
pub open spec fn first_text(es: Seq<EntryView>) -> Option<Seq<char>> {
    if es.len() > 0 {
        match es[0].value {
            ValueView::Text(s) => Some(s),
            _ => None,
        }
    } else {
        None
    }
}

/// The name of a provider: its first entry, where that is a text or an integer.
pub open spec fn provider_name(es: Seq<EntryView>) -> Option<Seq<char>> {
    if es.len() > 0 {
        match es[0].value {
            ValueView::Text(_) => kdlfmt::as_text(es[0].value),
            ValueView::Integer(_) => kdlfmt::as_text(es[0].value),
            _ => None,
        }
    } else {
        None
    }
}

/// The provider of a node.
pub open spec fn provider_of(n: Shape<LeafView>) -> ProviderView {
    ProviderView {
        kind: match n.child_text("kind"@) {
            Some(k) => k,
            None => Seq::empty(),
        },
        api_key: n.child_text("api-key"@),
        base_url: n.child_text("base-url"@),
    }
}

/// The providers with those of the nodes. Nodes that are no provider or have no
/// name are passed over, and of two with one name the later stays.
pub open spec fn read_providers(
    ns: Seq<Shape<LeafView>>,
    providers: Seq<(Seq<char>, ProviderView)>,
) -> Seq<(Seq<char>, ProviderView)>
    decreases ns.len(),
{
    if ns.len() == 0 {
        providers
    } else {
        let ps = read_providers(ns.drop_last(), providers);
        let n = ns.last();
        if n.name == "provider"@ {
            match provider_name(n.entries) {
                Some(name) => text_map::with(ps, name, provider_of(n)),
                None => ps,
            }
        } else {
            ps
        }
    }
}

/// The connections with what the node states.
pub open spec fn read_node(n: Shape<Shape<LeafView>>, c: ConnectionsView) -> ConnectionsView {
    if n.name == "providers"@ {
        match n.children {
            Some(cs) => ConnectionsView { providers: read_providers(cs, c.providers), ..c },
            None => c,
        }
    } else if n.name == "active-provider"@ {
        ConnectionsView { active_provider: first_text(n.entries), ..c }
    } else if n.name == "active-model"@ {
        ConnectionsView { active_model: first_text(n.entries), ..c }
    } else {
        c
    }
}

/// The connections that the nodes state.
pub open spec fn read_nodes(ns: Seq<Shape<Shape<LeafView>>>) -> ConnectionsView
    decreases ns.len(),
{
    if ns.len() == 0 {
        no_connections()
    } else {
        read_node(ns.last(), read_nodes(ns.drop_last()))
    }
}

fn first_string(entries: &Vec<Entry>) -> (r: Option<String>)
    ensures
        views::opt_view(r) == first_text(views::views(entries@)),
{
    if entries.len() > 0 {
        proof {
            assert(views::views(entries@)[0] == entries@[0]@);
        }
        match &entries[0].value {
            Value::Text(s) => Some(s.clone()),
            _ => None,
        }
    } else {
        None
    }
}

fn name_of(entries: &Vec<Entry>) -> (r: Option<String>)
    ensures
        views::opt_view(r) == provider_name(views::views(entries@)),
{
    if entries.len() > 0 {
        proof {
            assert(views::views(entries@)[0] == entries@[0]@);
        }
        match &entries[0].value {
            Value::Text(_) => value_text(&entries[0].value),
            Value::Integer(_) => value_text(&entries[0].value),
            _ => None,
        }
    } else {
        None
    }
}

fn take_providers(nodes: &Vec<Node<Leaf>>, providers: &mut TextMap<ProviderConfig>)
    ensures
        text_map::viewed(final(providers)@) == read_providers(
            views::views(nodes@),
            text_map::viewed(old(providers)@),
        ),
{
    let ghost all = views::views(nodes@);
    let ghost start = text_map::viewed(providers@);
    let mut i: usize = 0;
    proof {
        assert(all.take(0) =~= Seq::empty());
    }
    while i < nodes.len()
        invariant
            all == views::views(nodes@),
            start == text_map::viewed(old(providers)@),
            i <= nodes@.len(),
            read_providers(all.take(i as int), start) == text_map::viewed(providers@),
        decreases nodes@.len() - i,
    {
        proof {
            assert(all.take(i + 1).drop_last() =~= all.take(i as int));
            assert(all.take(i + 1).last() == nodes@[i as int]@);
        }
        let node = &nodes[i];
        if same(node.name.as_str(), "provider") {
            if let Some(name) = name_of(&node.entries) {
                let kind = match node.string("kind") {
                    Some(k) => k,
                    None => String::new(),
                };
                let config = ProviderConfig {
                    kind,
                    api_key: node.string("api-key"),
                    base_url: node.string("base-url"),
                };
                proof {
                    assert(config@ =~= provider_of(node@));
                    text_map::lemma_viewed_with(providers@, name@, config);
                }
                providers.insert(name, config);
            }
        }
        i += 1;
    }
    proof {
        assert(all.take(i as int) =~= all);
    }
}

/// The connections that the nodes of a document state.
pub fn from_nodes(nodes: &Vec<Node<Node<Leaf>>>) -> (r: Connections)
    ensures
        r@ == read_nodes(views::views(nodes@)),
{
    let ghost all = views::views(nodes@);
    let mut connections = Connections::default();
    let mut i: usize = 0;
    proof {
        reveal_strlit("providers");
        reveal_strlit("active-provider");
        reveal_strlit("active-model");
        assert("providers"@.len() == 9 && "active-provider"@.len() == 15 && "active-model"@.len()
            == 12);
        assert(all.take(0) =~= Seq::empty());
    }
    while i < nodes.len()
        invariant
            all == views::views(nodes@),
            i <= nodes@.len(),
            read_nodes(all.take(i as int)) == connections@,
        decreases nodes@.len() - i,
    {
        proof {
            assert(all.take(i + 1).drop_last() =~= all.take(i as int));
            assert(all.take(i + 1).last() == nodes@[i as int]@);
        }
        let node = &nodes[i];
        if same(node.name.as_str(), "providers") {
            if let Some(children) = &node.children {
                take_providers(children, &mut connections.providers);
            }
        } else if same(node.name.as_str(), "active-provider") {
            connections.active_provider = first_string(&node.entries);
        } else if same(node.name.as_str(), "active-model") {
            connections.active_model = first_string(&node.entries);
        }
        i += 1;
    }
    proof {
        assert(all.take(i as int) =~= all);
    }
    connections
}

/// An argument with the text.
pub open spec fn text_entry(s: Seq<char>) -> EntryView {
    EntryView { name: None, value: ValueView::Text(s) }
}

/// A node with the text and nothing else.
pub open spec fn text_leaf(name: Seq<char>, s: Seq<char>) -> LeafView {
    LeafView { name, entries: seq![text_entry(s)], offset: 0, length: 0 }
}

/// A node, if there is a text for it.
pub open spec fn leaf_for(name: Seq<char>, o: Option<Seq<char>>) -> Seq<LeafView> {
    match o {
        Some(s) => seq![text_leaf(name, s)],
        None => Seq::empty(),
    }
}

/// The node of a provider.
pub open spec fn provider_shape(name: Seq<char>, p: ProviderView) -> Shape<LeafView> {
    Shape {
        name: "provider"@,
        entries: seq![text_entry(name)],
        children: Some(
            seq![text_leaf("kind"@, p.kind)] + leaf_for("api-key"@, p.api_key) + leaf_for(
                "base-url"@,
                p.base_url,
            ),
        ),
        offset: 0,
        length: 0,
    }
}

/// The node of the providers. It has a block only where there is a provider.
pub open spec fn providers_shape(ps: Seq<(Seq<char>, ProviderView)>) -> Shape<Shape<LeafView>> {
    Shape {
        name: "providers"@,
        entries: Seq::empty(),
        children: if ps.len() > 0 {
            Some(Seq::new(ps.len(), |i: int| provider_shape(ps[i].0, ps[i].1)))
        } else {
            None
        },
        offset: 0,
        length: 0,
    }
}

/// A node for a text, if there is one.
pub open spec fn root_for(name: Seq<char>, o: Option<Seq<char>>) -> Seq<Shape<Shape<LeafView>>> {
    match o {
        Some(s) => seq![
            Shape { name, entries: seq![text_entry(s)], children: None, offset: 0, length: 0 },
        ],
        None => Seq::empty(),
    }
}

/// The nodes that connections are saved as.
pub open spec fn written(c: ConnectionsView) -> Seq<Shape<Shape<LeafView>>> {
    seq![providers_shape(c.providers)] + root_for("active-provider"@, c.active_provider) + root_for(
        "active-model"@,
        c.active_model,
    )
}

proof fn lemma_provider_read(name: Seq<char>, p: ProviderView)
    ensures
        provider_of(provider_shape(name, p)) == p,
        provider_name(provider_shape(name, p).entries) == Some(name),
{
    reveal_strlit("kind");
    reveal_strlit("api-key");
    reveal_strlit("base-url");
    assert("kind"@.len() == 4 && "api-key"@.len() == 7 && "base-url"@.len() == 8);
    let n = provider_shape(name, p);
    let cs = n.children->0;
    assert(cs[0] == text_leaf("kind"@, p.kind));
    reveal_with_fuel(kdlfmt::child_from, 4);
    match p.api_key {
        Some(k) => {
            assert(cs[1] == text_leaf("api-key"@, k));
            match p.base_url {
                Some(u) => {
                    assert(cs.len() == 3 && cs[2] == text_leaf("base-url"@, u));
                },
                None => {
                    assert(cs.len() == 2);
                },
            }
        },
        None => {
            match p.base_url {
                Some(u) => {
                    assert(cs.len() == 2 && cs[1] == text_leaf("base-url"@, u));
                },
                None => {
                    assert(cs.len() == 1);
                },
            }
        },
    }
    assert(n.child("kind"@) == Some(cs[0]));
    assert(provider_of(n) =~= p);
}

proof fn lemma_providers_read(ps: Seq<(Seq<char>, ProviderView)>)
    requires
        text_map::ordered(ps),
    ensures
        read_providers(
            Seq::new(ps.len(), |i: int| provider_shape(ps[i].0, ps[i].1)),
            Seq::empty(),
        ) == ps,
    decreases ps.len(),
{
    let ns = Seq::new(ps.len(), |i: int| provider_shape(ps[i].0, ps[i].1));
    if ps.len() > 0 {
        let before = ps.drop_last();
        let (name, p) = ps.last();
        lemma_providers_read(before);
        assert(ns.drop_last() =~= Seq::new(
            before.len(),
            |i: int| provider_shape(before[i].0, before[i].1),
        ));
        assert forall|i: int| 0 <= i < before.len() implies text_map::text_less(
            #[trigger] before[i].0,
            name,
        ) by {
            assert(text_map::text_less(ps[i].0, ps[ps.len() - 1].0));
        }
        text_map::lemma_with_last(before, name, p);
        lemma_provider_read(name, p);
        assert(before.push((name, p)) =~= ps);
    } else {
        assert(ps =~= Seq::empty());
    }
}

/// Reading the nodes that connections are saved as gives the connections back.
pub proof fn lemma_written_is_read_back(c: ConnectionsView)
    requires
        text_map::ordered(c.providers),
    ensures
        read_nodes(written(c)) == c,
{
    reveal_strlit("providers");
    reveal_strlit("active-provider");
    reveal_strlit("active-model");
    assert("providers"@.len() == 9 && "active-provider"@.len() == 15 && "active-model"@.len()
        == 12);
    lemma_providers_read(c.providers);
    let first = seq![providers_shape(c.providers)];
    let second = first + root_for("active-provider"@, c.active_provider);
    let none = no_connections();
    let d = ConnectionsView { providers: c.providers, ..none };
    assert(first.drop_last() =~= Seq::empty());
    assert(read_nodes(Seq::empty()) == none);
    assert(read_nodes(first) == d) by {
        if c.providers.len() == 0 {
            assert(c.providers =~= Seq::empty());
            assert(d =~= none);
        }
    }
    let e = ConnectionsView { active_provider: c.active_provider, ..d };
    assert(read_nodes(second) == e) by {
        match c.active_provider {
            Some(_) => {
                assert(second.drop_last() =~= first);
            },
            None => {
                assert(second =~= first);
            },
        }
    }
    match c.active_model {
        Some(_) => {
            assert(written(c).drop_last() =~= second);
        },
        None => {
            assert(written(c) =~= second);
        },
    }
}

proof fn lemma_bare_child(cs: Seq<LeafView>, bs: Seq<LeafView>, name: Seq<char>, i: int)
    requires
        bs == Seq::new(cs.len(), |k: int| kdlfmt::bare_leaf(cs[k])),
        0 <= i,
    ensures
        kdlfmt::child_from(bs, name, i) == match kdlfmt::child_from(cs, name, i) {
            Some(l) => Some(kdlfmt::bare_leaf(l)),
            None => None,
        },
    decreases cs.len() - i,
{
    if i < cs.len() {
        assert(bs[i] == kdlfmt::bare_leaf(cs[i]));
        lemma_bare_child(cs, bs, name, i + 1);
    }
}

proof fn lemma_bare_provider(n: Shape<LeafView>)
    ensures
        provider_of(kdlfmt::bare_branch(n)) == provider_of(n),
{
    if let Some(cs) = n.children {
        let bs = Seq::new(cs.len(), |k: int| kdlfmt::bare_leaf(cs[k]));
        assert(kdlfmt::bare_branch(n).children == Some(bs));
        lemma_bare_child(cs, bs, "kind"@, 0);
        lemma_bare_child(cs, bs, "api-key"@, 0);
        lemma_bare_child(cs, bs, "base-url"@, 0);
    }
}

proof fn lemma_bare_providers(
    ns: Seq<Shape<LeafView>>,
    bs: Seq<Shape<LeafView>>,
    ps: Seq<(Seq<char>, ProviderView)>,
)
    requires
        bs == Seq::new(ns.len(), |i: int| kdlfmt::bare_branch(ns[i])),
    ensures
        read_providers(bs, ps) == read_providers(ns, ps),
    decreases ns.len(),
{
    if ns.len() > 0 {
        let fewer = Seq::new(
            ns.drop_last().len(),
            |i: int| kdlfmt::bare_branch(ns.drop_last()[i]),
        );
        assert(bs.drop_last() =~= fewer);
        lemma_bare_providers(ns.drop_last(), fewer, ps);
        assert(bs.last() == kdlfmt::bare_branch(ns.last()));
        lemma_bare_provider(ns.last());
    }
}

proof fn lemma_bare_nodes(ns: Seq<Shape<Shape<LeafView>>>)
    ensures
        read_nodes(kdlfmt::bare_roots(ns)) == read_nodes(ns),
    decreases ns.len(),
{
    let bs = kdlfmt::bare_roots(ns);
    if ns.len() > 0 {
        assert(bs.drop_last() =~= kdlfmt::bare_roots(ns.drop_last()));
        lemma_bare_nodes(ns.drop_last());
        let n = ns.last();
        assert(bs.last() == kdlfmt::bare_root(n));
        if let Some(cs) = n.children {
            let ds = Seq::new(cs.len(), |i: int| kdlfmt::bare_branch(cs[i]));
            assert(kdlfmt::bare_root(n).children == Some(ds));
            lemma_bare_providers(cs, ds, read_nodes(ns.drop_last()).providers);
        }
    }
}

/// Whether the texts of a provider come back when they are written and read again.
pub open spec fn provider_writable(name: Seq<char>, p: ProviderView) -> bool {
    &&& kdlfmt::writable(name)
    &&& kdlfmt::writable(p.kind)
    &&& connections_kdl::opt_writable(p.api_key)
    &&& connections_kdl::opt_writable(p.base_url)
}

/// Whether all texts come back when they are written and read again.
pub open spec fn texts_writable(c: ConnectionsView) -> bool {
    &&& connections_kdl::opt_writable(c.active_provider)
    &&& connections_kdl::opt_writable(c.active_model)
    &&& forall|i: int|
        0 <= i < c.providers.len() ==> provider_writable(
            (#[trigger] c.providers[i]).0,
            c.providers[i].1,
        )
}

/// Whether reading the text gives the connections.
pub open spec fn is_read_as(contents: Seq<char>, c: ConnectionsView) -> bool {
    match kdlfmt::kdl_read(contents) {
        Ok(d) => read_nodes(kdlfmt::roots(d)) == c,
        Err(_) => false,
    }
}

/// Whether the text is one that the connections are saved as: the text of a
/// document with their nodes. Where all their texts come back, reading it gives
/// the connections back.
pub open spec fn is_writing(c: ConnectionsView, written_text: Seq<char>) -> bool {
    &&& exists|d: kdl::KdlDocument|
        written_text == #[trigger] kdlfmt::document_text(d) && kdlfmt::bare_roots(kdlfmt::roots(d))
            == written(c)
    &&& texts_writable(c) ==> is_read_as(written_text, c)
}

/// The names of the nodes come back when they are written and read again.
proof fn lemma_names_writable()
    ensures
        kdlfmt::writable("providers"@),
        kdlfmt::writable("provider"@),
        kdlfmt::writable("kind"@),
        kdlfmt::writable("api-key"@),
        kdlfmt::writable("base-url"@),
        kdlfmt::writable("active-provider"@),
        kdlfmt::writable("active-model"@),
{
    reveal_strlit("providers");
    reveal_strlit("provider");
    reveal_strlit("kind");
    reveal_strlit("api-key");
    reveal_strlit("base-url");
    reveal_strlit("active-provider");
    reveal_strlit("active-model");
    reveal_with_fuel(kdlfmt::is_word_from, 16);
    kdlfmt::lemma_word_writable("providers"@);
    kdlfmt::lemma_word_writable("provider"@);
    kdlfmt::lemma_word_writable("kind"@);
    kdlfmt::lemma_word_writable("api-key"@);
    kdlfmt::lemma_word_writable("base-url"@);
    kdlfmt::lemma_word_writable("active-provider"@);
    kdlfmt::lemma_word_writable("active-model"@);
}

/// Whether the nodes of the document come back and have no children.
spec fn leaves_writable(d: kdl::KdlDocument) -> bool {
    &&& kdlfmt::document_is_plain(d)
    &&& forall|i: int|
        0 <= i < kdlfmt::document_nodes(d).len() ==> kdlfmt::writable_leaf(
            #[trigger] kdlfmt::document_nodes(d)[i],
        )
}

/// Whether the nodes of the document come back with one generation below them at most.
spec fn branches_writable(d: kdl::KdlDocument) -> bool {
    &&& kdlfmt::document_is_plain(d)
    &&& forall|i: int|
        0 <= i < kdlfmt::document_nodes(d).len() ==> kdlfmt::writable_branch(
            #[trigger] kdlfmt::document_nodes(d)[i],
        )
}

/// The nodes of a document as leaves, without their places.
pub open spec fn bare_leaves(d: kdl::KdlDocument) -> Seq<LeafView> {
    let ls = kdlfmt::leaves(d);
    Seq::new(ls.len(), |i: int| kdlfmt::bare_leaf(ls[i]))
}

/// The nodes of a document as branches, without their places.
pub open spec fn bare_branches(d: kdl::KdlDocument) -> Seq<Shape<LeafView>> {
    let bs = kdlfmt::branches(d);
    Seq::new(bs.len(), |i: int| kdlfmt::bare_branch(bs[i]))
}

fn push_scalar(d: &mut kdl::KdlDocument, name: &str, value: &Option<String>)
    ensures
        bare_leaves(*final(d)) == bare_leaves(*old(d)) + leaf_for(name@, views::opt_view(*value)),
        kdlfmt::bare_roots(kdlfmt::roots(*final(d))) == kdlfmt::bare_roots(kdlfmt::roots(*old(d)))
            + root_for(name@, views::opt_view(*value)),
        kdlfmt::writable(name@) && connections_kdl::opt_writable(views::opt_view(*value)) ==> {
            &&& leaves_writable(*old(d)) ==> leaves_writable(*final(d))
            &&& kdlfmt::writable_document(*old(d)) ==> kdlfmt::writable_document(*final(d))
        },
{
    let ghost before = *d;
    match value {
        Some(s) => {
            let node = scalar(name, s.as_str());
            push_node(d, node);
            proof {
                let ns = kdlfmt::document_nodes(*d);
                let old_ns = kdlfmt::document_nodes(before);
                assert(forall|i: int| 0 <= i < old_ns.len() ==> #[trigger] ns[i] == old_ns[i]);
                assert(ns[old_ns.len() as int] == node);
                let b = kdlfmt::bare_leaf(kdlfmt::leaf(node));
                assert(b =~= text_leaf(name@, s@));
                assert(bare_leaves(*d) =~= bare_leaves(before) + seq![b]);
                let r = kdlfmt::bare_root(kdlfmt::root(node));
                assert(seq![r] =~= root_for(name@, Some(s@)));
                assert(kdlfmt::bare_roots(kdlfmt::roots(*d)) =~= kdlfmt::bare_roots(
                    kdlfmt::roots(before),
                ) + seq![r]);
            }
        },
        None => {
            proof {
                assert(bare_leaves(*d) =~= bare_leaves(before) + Seq::<LeafView>::empty());
                assert(kdlfmt::bare_roots(kdlfmt::roots(*d)) =~= kdlfmt::bare_roots(
                    kdlfmt::roots(before),
                ) + Seq::<Shape<Shape<LeafView>>>::empty());
            }
        },
    }
}

fn provider_node(name: &str, p: &ProviderConfig) -> (r: kdl::KdlNode)
    ensures
        kdlfmt::bare_branch(kdlfmt::branch(r)) == provider_shape(name@, p@),
        provider_writable(name@, p@) ==> kdlfmt::writable_branch(r),
{
    proof {
        lemma_names_writable();
    }
    let mut node = new_node("provider");
    push_argument(&mut node, name);
    let mut children = kdl::KdlDocument::new();
    let leaf = scalar("kind", p.kind.as_str());
    push_node(&mut children, leaf);
    proof {
        assert(kdlfmt::bare_leaf(kdlfmt::leaf(leaf)) =~= text_leaf("kind"@, p@.kind));
        assert(bare_leaves(children) =~= seq![text_leaf("kind"@, p@.kind)]);
    }
    push_scalar(&mut children, "api-key", &p.api_key);
    push_scalar(&mut children, "base-url", &p.base_url);
    node.set_children(children);
    proof {
        assert(kdlfmt::node_entries(node) =~= seq![text_entry(name@)]);
        assert(kdlfmt::bare_branch(kdlfmt::branch(node)) =~= provider_shape(name@, p@));
        if provider_writable(name@, p@) {
            assert(leaves_writable(children));
        }
    }
    node
}

impl Connections {
    /// The connections that the text states.
    pub fn from_kdl(contents: &str) -> (r: Result<Self, CoreError>)
        ensures
            match kdlfmt::kdl_read(contents@) {
                Ok(d) => r matches Ok(c) && c@ == read_nodes(kdlfmt::roots(d)),
                Err(f) => r matches Err(e) && e@ == kdlfmt::failure_error(f),
            },
    {
        match parse(contents) {
            Ok(nodes) => Ok(from_nodes(&nodes)),
            Err(e) => Err(e),
        }
    }

    /// The connections of a file. A file that is not there gives none.
    pub fn load_from(read: FileRead) -> (r: Result<Self, CoreError>)
        ensures
            match read {
                FileRead::Text(contents) => match kdlfmt::kdl_read(contents@) {
                    Ok(d) => r matches Ok(c) && c@ == read_nodes(kdlfmt::roots(d)),
                    Err(f) => r matches Err(e) && e@ == kdlfmt::failure_error(f),
                },
                FileRead::Missing => r matches Ok(c) && c@ == no_connections(),
                FileRead::Failed(m) => r matches Err(e) && e@ == error::ErrorView::ConfigIo(m@),
            },
    {
        match read {
            FileRead::Text(contents) => Self::from_kdl(contents.as_str()),
            FileRead::Missing => Ok(Connections::default()),
            FileRead::Failed(m) => Err(CoreError::ConfigIo(m)),
        }
    }

    /// The text of the file that the connections are saved in: that of a
    /// document with their nodes.
    pub fn to_kdl(&self) -> (r: String)
        ensures
            is_writing(self@, r@),
    {
        let ghost c = self@;
        proof {
            lemma_names_writable();
        }
        let mut doc = kdl::KdlDocument::new();
        let mut providers = new_node("providers");
        let mut body = kdl::KdlDocument::new();
        let n: usize = self.providers.len();
        let mut i: usize = 0;
        proof {
            assert(bare_branches(body) =~= Seq::empty());
        }
        while i < n
            invariant
                n == self.providers@.len(),
                i <= n,
                c == self@,
                texts_writable(c) ==> branches_writable(body),
                bare_branches(body) =~= Seq::new(
                    i as nat,
                    |k: int| provider_shape(c.providers[k].0, c.providers[k].1),
                ),
            decreases n - i,
        {
            let ghost before = body;
            let node = provider_node(self.providers.key(i), self.providers.value(i));
            push_node(&mut body, node);
            proof {
                assert(bare_branches(body) =~= bare_branches(before).push(
                    kdlfmt::bare_branch(kdlfmt::branch(node)),
                ));
                let ns = kdlfmt::document_nodes(body);
                let old_ns = kdlfmt::document_nodes(before);
                assert(forall|k: int| 0 <= k < old_ns.len() ==> #[trigger] ns[k] == old_ns[k]);
                assert(ns[old_ns.len() as int] == node);
                assert(c.providers[i as int] == (
                    self.providers@[i as int].0,
                    self.providers@[i as int].1@,
                ));
            }
            i += 1;
        }
        if n > 0 {
            providers.set_children(body);
        }
        proof {
            assert(kdlfmt::node_entries(providers) =~= Seq::empty());
            assert(kdlfmt::bare_root(kdlfmt::root(providers)) =~= providers_shape(c.providers));
        }
        push_node(&mut doc, providers);
        proof {
            assert(kdlfmt::bare_roots(kdlfmt::roots(doc)) =~= seq![providers_shape(c.providers)]);
            if texts_writable(c) {
                assert(kdlfmt::writable_root(providers));
                assert(kdlfmt::writable_document(doc));
            }
        }
        push_scalar(&mut doc, "active-provider", &self.active_provider);
        push_scalar(&mut doc, "active-model", &self.active_model);
        let r = finish(doc);
        proof {
            if texts_writable(c) {
                assert(text_map::ordered(c.providers));
                lemma_written_is_read_back(c);
                if let Ok(back) = kdlfmt::kdl_read(r@) {
                    lemma_bare_nodes(kdlfmt::roots(back));
                }
            }
        }
        r
    }

    /// Whether the provider in use can be connected to.
    pub fn has_connected_providers(&self, providers: &Vec<CatalogProvider>) -> (b: bool)
        ensures
            b == match self@.active_provider {
                Some(name) => match text_map::lookup(self@.providers, name) {
                    Some(p) => current::kind_connectable(providers@, p.kind, p.api_key),
                    None => false,
                },
                None => false,
            },
    {
        match &self.active_provider {
            None => false,
            Some(name) => {
                proof {
                    text_map::lemma_viewed_lookup(self.providers@, name@);
                }
                match self.providers.get(name.as_str()) {
                    None => false,
                    Some(p) => p.is_connectable(providers),
                }
            },
        }
    }
}

impl ProviderConfig {
    /// A provider of the kind.
    pub fn new(kind: &str, api_key: Option<String>, base_url: Option<String>) -> (r: Self)
        ensures
            r@ == (ProviderView {
                kind: kind@,
                api_key: views::opt_view(api_key),
                base_url: views::opt_view(base_url),
            }),
    {
        ProviderConfig { kind: kind.to_owned(), api_key, base_url }
    }

    /// Whether the provider can be connected to.
    pub fn is_connectable(&self, providers: &Vec<CatalogProvider>) -> (b: bool)
        ensures
            b == current::kind_connectable(providers@, self@.kind, self@.api_key),
    {
        kind_is_connectable(providers, self.kind.as_str(), &self.api_key)
    }
}

impl Connections {
    /// The file of the connections.
    pub fn connections_path(platform: Option<&str>) -> (r: Result<String, CoreError>)
        ensures
            config::path_view(r) == config::settings_file(
                text::opt_str(platform),
                config::CONNECTIONS_FILE_NAME@,
            ),
    {
        config_file(platform, CONNECTIONS_FILE_NAME)
    }
}

}
