//! Language servers: from the settings to what runs, and back.

use crate::config;
use crate::config::{LspConfigRepr, LspReprView, LspServerSpecRepr, ServerReprView};
use crate::text;
use crate::text::copy_texts;
use crate::text_map;
use crate::text_map::TextMap;
use vstd::prelude::*;

verus! {

/// A language server that can run.
#[derive(Debug, Clone, PartialEq, Eq)]
pub struct LspServerSpec {
    pub command: Vec<String>,
    pub extensions: Vec<String>,
    pub auto_start: bool,
    pub root_markers: Vec<String>,
}

/// The content of a [`LspServerSpec`].
#[verifier::ext_equal]
pub struct ServerView {
    pub command: Seq<Seq<char>>,
    pub extensions: Seq<Seq<char>>,
    pub auto_start: bool,
    pub root_markers: Seq<Seq<char>>,
}

impl View for LspServerSpec {
    type V = ServerView;

    open spec fn view(&self) -> ServerView {
        ServerView {
            command: text::texts(self.command@),
            extensions: text::texts(self.extensions@),
            auto_start: self.auto_start,
            root_markers: text::texts(self.root_markers@),
        }
    }
}

/// The language servers that can run, by name.
#[derive(Debug, PartialEq)]
pub struct LspConfig {
    pub enabled: bool,
    pub servers: TextMap<LspServerSpec>,
}

/// The content of a [`LspConfig`].
#[verifier::ext_equal]
pub struct LspView {
    pub enabled: bool,
    pub servers: Seq<(Seq<char>, ServerView)>,
}

impl View for LspConfig {
    type V = LspView;

    open spec fn view(&self) -> LspView {
        LspView { enabled: self.enabled, servers: text_map::viewed(self.servers@) }
    }
}

/// The server that the settings describe.
pub open spec fn server_of(r: ServerReprView) -> ServerView {
    ServerView {
        command: r.command,
        extensions: r.extensions,
        auto_start: !r.no_auto_start,
        root_markers: r.root_markers,
    }
}

/// The settings that describe the server.
pub open spec fn server_repr(s: ServerView) -> ServerReprView {
    ServerReprView {
        command: s.command,
        extensions: s.extensions,
        no_auto_start: !s.auto_start,
        root_markers: s.root_markers,
    }
}

/// The servers that the settings describe.
pub open spec fn config_of(r: LspReprView) -> LspView {
    LspView {
        enabled: !r.disabled,
        servers: Seq::new(
            r.servers.len(),
            |i: int| (r.servers[i].0, server_of(r.servers[i].1)),
        ),
    }
}

/// The settings that describe the servers.
pub open spec fn repr_of(c: LspView) -> LspReprView {
    LspReprView {
        disabled: !c.enabled,
        servers: Seq::new(
            c.servers.len(),
            |i: int| (c.servers[i].0, server_repr(c.servers[i].1)),
        ),
    }
}

/// Going from the settings to the servers and back gives the settings again.
pub proof fn lemma_conversion_is_invertible(r: LspReprView)
    ensures
        repr_of(config_of(r)) == r,
{
    let back = repr_of(config_of(r));
    assert forall|i: int| 0 <= i < r.servers.len() implies back.servers[i] == r.servers[i] by {
        assert(server_repr(server_of(r.servers[i].1)) =~= r.servers[i].1);
    }
    assert(back.servers =~= r.servers);
}

fn server_from_repr(spec_repr: &LspServerSpecRepr) -> (r: LspServerSpec)
    ensures
        r@ == server_of(spec_repr@),
{
    LspServerSpec {
        command: copy_texts(spec_repr.command.as_slice()),
        extensions: copy_texts(spec_repr.extensions.as_slice()),
        auto_start: !spec_repr.no_auto_start,
        root_markers: copy_texts(spec_repr.root_markers.as_slice()),
    }
}

fn server_to_repr(server: &LspServerSpec) -> (r: LspServerSpecRepr)
    ensures
        r@ == server_repr(server@),
{
    LspServerSpecRepr {
        command: copy_texts(server.command.as_slice()),
        extensions: copy_texts(server.extensions.as_slice()),
        no_auto_start: !server.auto_start,
        root_markers: copy_texts(server.root_markers.as_slice()),
    }
}

/// The servers that the settings describe.
pub fn lsp_config_from_repr(repr: &LspConfigRepr) -> (r: LspConfig)
    ensures
        r@ == config_of(repr@),
{
    let ghost all = config_of(repr@).servers;
    let n: usize = repr.servers.len();
    let mut servers: TextMap<LspServerSpec> = TextMap::new();
    let mut i: usize = 0;
    proof {
        assert(text_map::viewed(servers@) =~= all.take(0));
    }
    while i < n
        invariant
            n == repr.servers@.len(),
            text_map::ordered(repr.servers@),
            i <= n,
            all == config_of(repr@).servers,
            servers@.len() == i,
            forall|k: int| 0 <= k < i ==> (#[trigger] servers@[k]).0 == repr.servers@[k].0,
            text_map::viewed(servers@) =~= all.take(i as int),
        decreases n - i,
    {
        let ghost before = servers@;
        let key = repr.servers.key(i);
        let server = server_from_repr(repr.servers.value(i));
        proof {
            assert forall|k: int| 0 <= k < before.len() implies text_map::text_less(
                #[trigger] before[k].0,
                key@,
            ) by {
                assert(before[k].0 == repr.servers@[k].0);
                assert(text_map::text_less(repr.servers@[k].0, repr.servers@[i as int].0));
            }
            text_map::lemma_with_last(before, key@, server);
        }
        servers.insert(key.to_owned(), server);
        proof {
            assert(servers@ == before.push((key@, server)));
            assert(all[i as int] == (key@, server@));
            assert(text_map::viewed(servers@) =~= text_map::viewed(before).push((key@, server@)));
        }
        i += 1;
    }
    proof {
        assert(all.take(i as int) =~= all);
    }
    LspConfig { enabled: !repr.disabled, servers }
}

/// The settings that describe the servers.
pub fn lsp_config_to_repr(config: &LspConfig) -> (r: LspConfigRepr)
    ensures
        r@ == repr_of(config@),
{
    let ghost all = repr_of(config@).servers;
    let n: usize = config.servers.len();
    let mut servers: TextMap<LspServerSpecRepr> = TextMap::new();
    let mut i: usize = 0;
    proof {
        assert(text_map::viewed(servers@) =~= all.take(0));
    }
    while i < n
        invariant
            n == config.servers@.len(),
            text_map::ordered(config.servers@),
            i <= n,
            all == repr_of(config@).servers,
            servers@.len() == i,
            forall|k: int| 0 <= k < i ==> (#[trigger] servers@[k]).0 == config.servers@[k].0,
            text_map::viewed(servers@) =~= all.take(i as int),
        decreases n - i,
    {
        let ghost before = servers@;
        let key = config.servers.key(i);
        let server = server_to_repr(config.servers.value(i));
        proof {
            assert forall|k: int| 0 <= k < before.len() implies text_map::text_less(
                #[trigger] before[k].0,
                key@,
            ) by {
                assert(before[k].0 == config.servers@[k].0);
                assert(text_map::text_less(config.servers@[k].0, config.servers@[i as int].0));
            }
            text_map::lemma_with_last(before, key@, server);
        }
        servers.insert(key.to_owned(), server);
        proof {
            assert(servers@ == before.push((key@, server)));
            assert(all[i as int] == (key@, server@));
            assert(text_map::viewed(servers@) =~= text_map::viewed(before).push((key@, server@)));
        }
        i += 1;
    }
    proof {
        assert(all.take(i as int) =~= all);
    }
    LspConfigRepr { disabled: !config.enabled, servers }
}

}
