//! What holds of every connections file: what it states is what is read from it.

use crate::config::connections as current;
use crate::config::connections_kdl;
use crate::connections;
use crate::error;
use crate::error::{CoreError, Fault};
use crate::kdlfmt;
use crate::kdlfmt::{EntryView, LeafView, Shape, ValueView};
use crate::text;
use crate::text_map;
use crate::views;
use vstd::prelude::*;

verus! {

/// An argument or a property with a text.
pub open spec fn texted(name: Option<Seq<char>>, s: Seq<char>) -> EntryView {
    EntryView { name, value: ValueView::Text(s) }
}

/// The node of a provider in the file.
pub open spec fn provider_node(
    entries: Seq<EntryView>,
    children: Seq<LeafView>,
    at: (nat, nat),
) -> Shape<LeafView> {
    Shape {
        name: "provider"@,
        entries,
        children: Some(children),
        offset: at.0,
        length: at.1,
    }
}

/// A provider that states no kind is of the kind for the most common service, and one
/// that states a kind is of that one. Without a block it has neither key nor address.
pub proof fn lemma_kind_is_read(
    name: Seq<char>,
    kind: Seq<char>,
    at: (nat, nat),
    a: current::ProviderConfig,
    b: current::ProviderConfig,
)
    requires
        text::trimmed(kind).len() > 0,
        connections_kdl::named_provider(
            provider_node(seq![texted(None, name)], Seq::empty(), at),
        ) == Ok::<(Seq<char>, current::ProviderView), Fault>((name, a@)),
        connections_kdl::named_provider(
            provider_node(
                seq![texted(None, name), texted(Some("kind"@), kind)],
                Seq::empty(),
                at,
            ),
        ) == Ok::<(Seq<char>, current::ProviderView), Fault>((name, b@)),
    ensures
        a.kind@ == "openai"@,
        a.kind_omitted,
        b.kind@ == kind,
        !b.kind_omitted,
        a.api_key is None && a.base_url is None && b.api_key is None && b.base_url is None,
{
    lemma_kinds(name, kind, at);
}

proof fn lemma_kinds(name: Seq<char>, kind: Seq<char>, at: (nat, nat))
    ensures
        connections_kdl::read_kind(
            connections_kdl::after_first(seq![texted(None, name)]),
            at.0,
            at.1,
        ) == Ok::<Option<Seq<char>>, Fault>(None),
        text::trimmed(kind).len() > 0 ==> connections_kdl::read_kind(
            connections_kdl::after_first(
                seq![texted(None, name), texted(Some("kind"@), kind)],
            ),
            at.0,
            at.1,
        ) == Ok::<Option<Seq<char>>, Fault>(Some(kind)),
        text::trimmed(kind).len() == 0 ==> connections_kdl::read_kind(
            connections_kdl::after_first(
                seq![texted(None, name), texted(Some("kind"@), kind)],
            ),
            at.0,
            at.1,
        ) is Err,
{
    let one = seq![texted(None, name)];
    let two = seq![texted(None, name), texted(Some("kind"@), kind)];
    assert(one.skip(1) =~= Seq::empty());
    let k = seq![texted(Some("kind"@), kind)];
    assert(two.skip(1) =~= k);
    assert(k.drop_last() =~= Seq::empty());
    assert(k.last() == texted(Some("kind"@), kind));
    assert(connections_kdl::read_kind(Seq::empty(), at.0, at.1) == Ok::<Option<Seq<char>>, Fault>(
        None,
    ));
}

/// A provider with a name and a good kind is taken, and one with a blank kind is not.
/// A second name, or a property other than the kind, is refused.
pub proof fn lemma_provider_is_taken(
    name: Seq<char>,
    kind: Seq<char>,
    other: Seq<char>,
    at: (nat, nat),
)
    requires
        other != "kind"@,
    ensures
        connections_kdl::named_provider(
            provider_node(seq![texted(None, name)], Seq::empty(), at),
        ) is Ok,
        connections_kdl::named_provider(
            provider_node(
                seq![texted(None, name), texted(Some("kind"@), kind)],
                Seq::empty(),
                at,
            ),
        ) is Ok <==> text::trimmed(kind).len() > 0,
        connections_kdl::named_provider(
            provider_node(seq![texted(None, name), texted(None, kind)], Seq::empty(), at),
        ) is Err,
        connections_kdl::named_provider(
            provider_node(seq![texted(None, name), texted(Some(other), kind)], Seq::empty(), at),
        ) is Err,
        connections_kdl::named_provider(provider_node(Seq::empty(), Seq::empty(), at)) is Err,
{
    lemma_kinds(name, kind, at);
    let two = seq![texted(None, name), texted(None, kind)];
    let three = seq![texted(None, name), texted(Some(other), kind)];
    let a = seq![texted(None, kind)];
    let b = seq![texted(Some(other), kind)];
    assert(two.skip(1) =~= a);
    assert(three.skip(1) =~= b);
    assert(a.last() == texted(None, kind));
    assert(b.last() == texted(Some(other), kind));
}

proof fn lemma_key_added(cs: Seq<LeafView>, l: LeafView, s: Seq<char>)
    requires
        l.entries.len() > 0,
        l.entries[0] == texted(None, s),
    ensures
        l.name == "api-key"@ && connections_kdl::read_keys(cs) is Ok ==> connections_kdl::read_keys(
            cs.push(l),
        ) == Ok::<(Option<Seq<char>>, Option<Seq<char>>), Fault>(
            (Some(s), connections_kdl::read_keys(cs)->Ok_0.1),
        ),
        l.name == "base-url"@ && connections_kdl::read_keys(cs) is Ok ==> connections_kdl::read_keys(
            cs.push(l),
        ) == Ok::<(Option<Seq<char>>, Option<Seq<char>>), Fault>(
            (connections_kdl::read_keys(cs)->Ok_0.0, Some(s)),
        ),
        l.name != "api-key"@ && l.name != "base-url"@ ==> connections_kdl::read_keys(cs.push(l))
            == connections_kdl::read_keys(cs),
{
    reveal_strlit("api-key");
    reveal_strlit("base-url");
    assert("api-key"@.len() == 7 && "base-url"@.len() == 8);
    assert(cs.push(l).drop_last() =~= cs);
}

/// Stating a key last changes the key of a provider and nothing else, stating an
/// address last changes the address and nothing else, and anything else that its block
/// states makes no difference.
pub proof fn lemma_keys_are_read(
    entries: Seq<EntryView>,
    children: Seq<LeafView>,
    at: (nat, nat),
    l: LeafView,
    s: Seq<char>,
    name: Seq<char>,
    before: current::ProviderConfig,
    after: current::ProviderConfig,
)
    requires
        l.entries.len() > 0,
        l.entries[0] == texted(None, s),
        connections_kdl::named_provider(provider_node(entries, children, at)) == Ok::<
            (Seq<char>, current::ProviderView),
            Fault,
        >((name, before@)),
        connections_kdl::named_provider(provider_node(entries, children.push(l), at)) == Ok::<
            (Seq<char>, current::ProviderView),
            Fault,
        >((name, after@)),
    ensures
        after.kind@ == before.kind@ && after.kind_omitted == before.kind_omitted,
        l.name == "api-key"@ ==> after.api_key is Some && after.api_key->0@ == s && views::opt_view(
            after.base_url,
        ) == views::opt_view(before.base_url),
        l.name == "base-url"@ ==> after.base_url is Some && after.base_url->0@ == s
            && views::opt_view(after.api_key) == views::opt_view(before.api_key),
        l.name != "api-key"@ && l.name != "base-url"@ ==> after@ == before@,
{
    lemma_key_added(children, l, s);
}

/// A provider is taken in under its name, and the others stay as they were. A name that
/// is taken is refused.
pub proof fn lemma_provider_is_taken_in_by_name(
    n: Shape<LeafView>,
    ps: Seq<(Seq<char>, current::ProviderView)>,
    name: Seq<char>,
    p: current::ProviderView,
    other: Seq<char>,
)
    requires
        connections_kdl::named_provider(n) == Ok::<(Seq<char>, current::ProviderView), Fault>(
            (name, p),
        ),
    ensures
        text_map::lookup(ps, name) is Some ==> connections_kdl::read_provider(n, ps) is Err,
        text_map::lookup(ps, name) is None ==> match connections_kdl::read_provider(n, ps) {
            Ok(qs) => text_map::lookup(qs, name) == Some(p) && (other != name ==> text_map::lookup(
                qs,
                other,
            ) == text_map::lookup(ps, other)),
            Err(_) => false,
        },
{
    text_map::lemma_lookup_with(ps, name, p, other);
}

/// The first text of the node for what is in use is the provider, and the second, if
/// there is one, the model. A file may say it once.
pub proof fn lemma_provider_in_use_is_read(
    n: Shape<Shape<LeafView>>,
    before: current::Connections,
    after: current::Connections,
    stated: bool,
)
    requires
        n.name == "active"@,
        connections_kdl::read_node(n, (before@, stated)) == Ok::<
            (current::ConnectionsView, bool),
            Fault,
        >((after@, true)),
    ensures
        !stated,
        n.entries.len() == 1 || n.entries.len() == 2,
        n.entries[0].value is Text && after.active_provider is Some
            && after.active_provider->0@ == n.entries[0].value->Text_0,
        n.entries.len() == 2 ==> n.entries[1].value is Text && after.active_model is Some
            && after.active_model->0@ == n.entries[1].value->Text_0,
        n.entries.len() == 1 ==> views::opt_view(after.active_model) == views::opt_view(
            before.active_model,
        ),
        text_map::viewed(after.providers@) == text_map::viewed(before.providers@),
{
}

/// A provider in use, with a model or without, is accepted the first time that it is
/// stated, and refused the second time. A node of another name is refused.
pub proof fn lemma_provider_in_use_is_stated_once(
    n: Shape<Shape<LeafView>>,
    c: current::ConnectionsView,
)
    ensures
        n.name == "active"@ ==> connections_kdl::read_node(n, (c, true)) is Err,
        n.name == "active"@ && 1 <= n.entries.len() <= 2 && n.entries[0].value is Text && (
        n.entries.len() == 2 ==> n.entries[1].value is Text) ==> connections_kdl::read_node(
            n,
            (c, false),
        ) is Ok,
        n.name != "active"@ && n.name != "providers"@ ==> connections_kdl::read_node(n, (c, false))
            is Err,
{
}

/// A fault is told with the line and the column of its place, counted from one, and
/// with all that is known of it.
pub proof fn lemma_fault_is_told_in_full(input: Seq<char>, fault: Fault, e: CoreError)
    requires
        e@ == error::located(input, fault),
    ensures
        e matches CoreError::ConfigParse(p) && ({
            let at = error::line_column(input, fault.offset);
            &&& p.message@ == fault.message
            &&& p.line == at.0
            &&& p.column == at.1
            &&& p.length == fault.length
            &&& views::opt_view(p.help) == fault.help
        }),
{
}

proof fn lemma_child_from(cs: Seq<LeafView>, name: Seq<char>, i: int, k: int)
    requires
        0 <= i <= k <= cs.len(),
        forall|j: int| i <= j < k ==> (#[trigger] cs[j]).name != name,
    ensures
        kdlfmt::child_from(cs, name, i) == kdlfmt::child_from(cs, name, k),
    decreases k - i,
{
    if i < k {
        assert(cs[i].name != name);
        lemma_child_from(cs, name, i + 1, k);
    }
}

/// In an older file the first child of a name counts, with its first value.
pub proof fn lemma_first_child_counts(
    n: Shape<LeafView>,
    name: Seq<char>,
    k: int,
)
    requires
        n.children is Some,
        0 <= k <= n.children->0.len(),
        forall|j: int| 0 <= j < k ==> (#[trigger] n.children->0[j]).name != name,
    ensures
        k == n.children->0.len() ==> n.child_text(name) is None,
        k < n.children->0.len() && n.children->0[k].name == name ==> {
            let es = n.children->0[k].entries;
            &&& es.len() == 0 ==> n.child_text(name) is None
            &&& es.len() > 0 && es[0].value is Text ==> n.child_text(name) == Some(
                es[0].value->Text_0,
            )
        },
{
    lemma_child_from(n.children->0, name, 0, k);
}

/// In an older file a provider has the kind, the key and the address that its children
/// of those names state.
pub proof fn lemma_older_provider_is_read(n: Shape<LeafView>, p: connections::ProviderConfig)
    requires
        p@ == connections::provider_of(n),
    ensures
        views::opt_view(p.api_key) == n.child_text("api-key"@),
        views::opt_view(p.base_url) == n.child_text("base-url"@),
        n.child_text("kind"@) is Some ==> p.kind@ == n.child_text("kind"@)->0,
        n.child_text("kind"@) is None ==> p.kind@.len() == 0,
{
}

/// In an older file a provider is taken in under its name, in the place of one before
/// it with that name, and the others stay.
pub proof fn lemma_later_provider_stays(
    ns: Seq<Shape<LeafView>>,
    n: Shape<LeafView>,
    ps: Seq<(Seq<char>, connections::ProviderView)>,
    name: Seq<char>,
    other: Seq<char>,
)
    requires
        n.name == "provider"@,
        n.entries.len() > 0,
        n.entries[0].value == ValueView::Text(name),
        other != name,
    ensures
        text_map::lookup(connections::read_providers(ns.push(n), ps), name) == Some(
            connections::provider_of(n),
        ),
        text_map::lookup(connections::read_providers(ns.push(n), ps), other) == text_map::lookup(
            connections::read_providers(ns, ps),
            other,
        ),
{
    assert(ns.push(n).drop_last() =~= ns);
    text_map::lemma_lookup_with(
        connections::read_providers(ns, ps),
        name,
        connections::provider_of(n),
        other,
    );
}

/// In an older file the last node for the provider in use counts, and likewise for the
/// model. Neither changes anything else, and nodes of other names change nothing.
pub proof fn lemma_older_choice_is_read(
    n: Shape<Shape<LeafView>>,
    before: connections::Connections,
    after: connections::Connections,
    s: Seq<char>,
)
    requires
        after@ == connections::read_node(n, before@),
        n.entries.len() > 0,
        n.entries[0].value == ValueView::Text(s),
    ensures
        n.name == "active-provider"@ ==> after.active_provider is Some
            && after.active_provider->0@ == s && views::opt_view(after.active_model)
            == views::opt_view(before.active_model),
        n.name == "active-model"@ ==> after.active_model is Some && after.active_model->0@ == s
            && views::opt_view(after.active_provider) == views::opt_view(before.active_provider),
        n.name != "providers"@ ==> text_map::viewed(after.providers@) == text_map::viewed(
            before.providers@,
        ),
        n.name != "providers"@ && n.name != "active-provider"@ && n.name != "active-model"@
            ==> after@ == before@,
{
    reveal_strlit("providers");
    reveal_strlit("active-provider");
    reveal_strlit("active-model");
    assert("providers"@.len() == 9 && "active-provider"@.len() == 15 && "active-model"@.len()
        == 12);
}

}
