//! Tool servers: from the settings to what is connected to.

use crate::catalog;
use crate::catalog::resolve_env;
use crate::text;
use crate::text::copy_texts;
use crate::text_map;
use crate::text_map::TextMap;
use vstd::prelude::*;

verus! {

/// The variables that a server is started with.
#[derive(Debug)]
pub struct EnvsConfig {
    pub inherit: bool,
    pub entries: TextMap<String>,
}

/// A server that is started as a program.
#[derive(Debug)]
pub struct McpStdioConfig {
    pub command: String,
    pub args: Vec<String>,
    pub envs: EnvsConfig,
}

/// A server that is reached at an address.
#[derive(Debug)]
pub struct McpHttpConfig {
    pub url: String,
    pub headers: TextMap<String>,
}

/// The servers in the settings, by name.
#[derive(Debug)]
pub struct McpConfig {
    pub stdio: TextMap<McpStdioConfig>,
    pub http: TextMap<McpHttpConfig>,
}

/// The variables that a server is started with, with their values filled in.
#[derive(Debug)]
pub struct EnvSpec {
    pub inherit: bool,
    pub entries: TextMap<String>,
}

/// A server to connect to.
#[derive(Debug)]
pub enum McpServerSpec {
    Stdio { command: String, args: Vec<String>, envs: EnvSpec },
    Http { url: String, headers: TextMap<String> },
}

/// The content of a [`McpServerSpec`].
#[verifier::ext_equal]
pub enum ServerView {
    Stdio {
        command: Seq<char>,
        args: Seq<Seq<char>>,
        inherit: bool,
        entries: Seq<(Seq<char>, Seq<char>)>,
    },
    Http { url: Seq<char>, headers: Seq<(Seq<char>, Seq<char>)> },
}

impl View for McpServerSpec {
    type V = ServerView;

    open spec fn view(&self) -> ServerView {
        match self {
            McpServerSpec::Stdio { command, args, envs } => ServerView::Stdio {
                command: command@,
                args: text::texts(args@),
                inherit: envs.inherit,
                entries: text_map::viewed(envs.entries@),
            },
            McpServerSpec::Http { url, headers } => ServerView::Http {
                url: url@,
                headers: text_map::viewed(headers@),
            },
        }
    }
}

/// The entries with the values of the variables put in.
pub open spec fn filled_in(
    s: Seq<(Seq<char>, String)>,
    env: Seq<(Seq<char>, String)>,
) -> Seq<(Seq<char>, Seq<char>)> {
    Seq::new(s.len(), |i: int| (s[i].0, catalog::resolved(s[i].1@, env)))
}

fn fill_in(m: &TextMap<String>, env: &TextMap<String>) -> (r: TextMap<String>)
    ensures
        text_map::viewed(r@) == filled_in(m@, env@),
{
    let ghost all = filled_in(m@, env@);
    let n: usize = m.len();
    let mut out: TextMap<String> = TextMap::new();
    let mut i: usize = 0;
    proof {
        assert(text_map::viewed(out@) =~= all.take(0));
    }
    while i < n
        invariant
            n == m@.len(),
            text_map::ordered(m@),
            i <= n,
            all == filled_in(m@, env@),
            out@.len() == i,
            forall|k: int| 0 <= k < i ==> (#[trigger] out@[k]).0 == m@[k].0,
            text_map::viewed(out@) =~= all.take(i as int),
        decreases n - i,
    {
        let ghost before = out@;
        let key = m.key(i);
        let value = resolve_env(m.value(i).as_str(), env);
        proof {
            assert forall|k: int| 0 <= k < before.len() implies text_map::text_less(
                #[trigger] before[k].0,
                key@,
            ) by {
                assert(before[k].0 == m@[k].0);
                assert(text_map::text_less(m@[k].0, m@[i as int].0));
            }
            text_map::lemma_with_last(before, key@, value);
        }
        out.insert(key.to_owned(), value);
        proof {
            assert(out@ == before.push((key@, value)));
            assert(all[i as int] == (key@, value@));
            assert(text_map::viewed(out@) =~= text_map::viewed(before).push((key@, value@)));
        }
        i += 1;
    }
    proof {
        assert(all.take(i as int) =~= all);
    }
    out
}

/// The server that is started as a program.
pub open spec fn stdio_server(c: McpStdioConfig, env: Seq<(Seq<char>, String)>) -> ServerView {
    ServerView::Stdio {
        command: c.command@,
        args: text::texts(c.args@),
        inherit: c.envs.inherit,
        entries: filled_in(c.envs.entries@, env),
    }
}

/// The server that is reached at an address.
pub open spec fn http_server(c: McpHttpConfig, env: Seq<(Seq<char>, String)>) -> ServerView {
    ServerView::Http { url: c.url@, headers: filled_in(c.headers@, env) }
}

/// The servers that are started as programs.
pub open spec fn stdio_servers(
    s: Seq<(Seq<char>, McpStdioConfig)>,
    env: Seq<(Seq<char>, String)>,
) -> Seq<(Seq<char>, ServerView)>
    decreases s.len(),
{
    if s.len() == 0 {
        Seq::empty()
    } else {
        text_map::with(
            stdio_servers(s.drop_last(), env),
            s.last().0,
            stdio_server(s.last().1, env),
        )
    }
}

/// The servers with those that are reached at an address. Of two with one name
/// the one at the address stays.
pub open spec fn with_http_servers(
    base: Seq<(Seq<char>, ServerView)>,
    s: Seq<(Seq<char>, McpHttpConfig)>,
    env: Seq<(Seq<char>, String)>,
) -> Seq<(Seq<char>, ServerView)>
    decreases s.len(),
{
    if s.len() == 0 {
        base
    } else {
        text_map::with(
            with_http_servers(base, s.drop_last(), env),
            s.last().0,
            http_server(s.last().1, env),
        )
    }
}

/// The servers to connect to, with the values of the variables put in.
pub fn mcp_specs(config: &McpConfig, env: &TextMap<String>) -> (r: TextMap<McpServerSpec>)
    ensures
        text_map::viewed(r@) == with_http_servers(
            stdio_servers(config.stdio@, env@),
            config.http@,
            env@,
        ),
{
    let mut specs: TextMap<McpServerSpec> = TextMap::new();
    let n: usize = config.stdio.len();
    let mut i: usize = 0;
    proof {
        assert(text_map::viewed(specs@) =~= stdio_servers(config.stdio@.take(0), env@));
    }
    while i < n
        invariant
            n == config.stdio@.len(),
            i <= n,
            text_map::viewed(specs@) == stdio_servers(config.stdio@.take(i as int), env@),
        decreases n - i,
    {
        proof {
            assert(config.stdio@.take(i + 1).drop_last() =~= config.stdio@.take(i as int));
            assert(config.stdio@.take(i + 1).last() == config.stdio@[i as int]);
        }
        let name = config.stdio.key(i);
        let server = config.stdio.value(i);
        let envs = EnvSpec {
            inherit: server.envs.inherit,
            entries: fill_in(&server.envs.entries, env),
        };
        let made = McpServerSpec::Stdio {
            command: server.command.clone(),
            args: copy_texts(server.args.as_slice()),
            envs,
        };
        proof {
            text_map::lemma_viewed_with(specs@, name@, made);
        }
        specs.insert(name.to_owned(), made);
        i += 1;
    }
    let ghost base = stdio_servers(config.stdio@, env@);
    let m: usize = config.http.len();
    let mut j: usize = 0;
    proof {
        assert(config.stdio@.take(i as int) =~= config.stdio@);
        assert(with_http_servers(base, config.http@.take(0), env@) == base);
    }
    while j < m
        invariant
            m == config.http@.len(),
            j <= m,
            text_map::viewed(specs@) == with_http_servers(
                base,
                config.http@.take(j as int),
                env@,
            ),
        decreases m - j,
    {
        proof {
            assert(config.http@.take(j + 1).drop_last() =~= config.http@.take(j as int));
            assert(config.http@.take(j + 1).last() == config.http@[j as int]);
        }
        let name = config.http.key(j);
        let server = config.http.value(j);
        let made = McpServerSpec::Http {
            url: server.url.clone(),
            headers: fill_in(&server.headers, env),
        };
        proof {
            text_map::lemma_viewed_with(specs@, name@, made);
        }
        specs.insert(name.to_owned(), made);
        j += 1;
    }
    proof {
        assert(config.http@.take(j as int) =~= config.http@);
    }
    specs
}

}
