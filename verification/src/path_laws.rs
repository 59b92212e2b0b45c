//! What holds of all paths, and of the servers that the settings describe.

use crate::catalog;
use crate::config;
use crate::config::LspConfigRepr;
use crate::error::ErrorView;
use crate::lsp_manager;
use crate::lsp_manager::LspConfig;
use crate::mcp_manager;
use crate::mcp_manager::{McpConfig, McpHttpConfig, McpServerSpec, McpStdioConfig};
use crate::paths;
use crate::paths::{PartView, PathPart};
use crate::text;
use crate::text_map;
use vstd::prelude::*;

verus! {

proof fn lemma_resolved_on(a: Seq<PartView>, b: Seq<PartView>, rest: Seq<PartView>)
    requires
        paths::resolved(a) == paths::resolved(b),
    ensures
        paths::resolved(a + rest) == paths::resolved(b + rest),
    decreases rest.len(),
{
    if rest.len() == 0 {
        assert(a + rest =~= a);
        assert(b + rest =~= b);
    } else {
        lemma_resolved_on(a, b, rest.drop_last());
        assert((a + rest).drop_last() =~= a + rest.drop_last());
        assert((b + rest).drop_last() =~= b + rest.drop_last());
    }
}

/// A component that stands for the directory itself makes no difference, wherever it
/// stands.
pub proof fn lemma_current_directory_makes_no_difference(a: Seq<PartView>, b: Seq<PartView>)
    ensures
        paths::normalized(a + seq![PartView::Current] + b) == paths::normalized(a + b),
{
    let c = a + seq![PartView::Current];
    assert(c.drop_last() =~= a);
    lemma_resolved_on(c, a, b);
}

/// A name and the way up from it take each other away, wherever they stand.
pub proof fn lemma_parent_takes_the_name_away(
    a: Seq<PartView>,
    name: Seq<char>,
    b: Seq<PartView>,
)
    ensures
        paths::normalized(a + seq![PartView::Name(name), PartView::Parent] + b)
            == paths::normalized(a + b),
{
    let c = a + seq![PartView::Name(name)];
    let d = a + seq![PartView::Name(name), PartView::Parent];
    assert(c.drop_last() =~= a);
    assert(d.drop_last() =~= c);
    let r = paths::resolved(a).0;
    assert(r.push(PartView::Name(name)).drop_last() =~= r);
    assert(c.last() == PartView::Name(name));
    assert(paths::resolved(c) == (r.push(PartView::Name(name)), paths::resolved(a).1));
    assert(d.last() == PartView::Parent);
    assert(paths::resolved(d) == paths::resolved(a));
    lemma_resolved_on(d, a, b);
}

/// What comes before a root does not count, and there is no way up from it.
pub proof fn lemma_root_begins_anew(a: Seq<PartView>, b: Seq<PartView>)
    ensures
        paths::normalized(a + seq![PartView::Root] + b) == paths::normalized(
            seq![PartView::Root] + b,
        ),
        paths::normalized(seq![PartView::Root, PartView::Parent] + b) == paths::normalized(
            seq![PartView::Root] + b,
        ),
        paths::normalized(seq![PartView::Root] + b)[0] == PartView::Root,
{
    let root = seq![PartView::Root];
    let c = a + root;
    assert(c.drop_last() =~= a);
    assert(root.drop_last() =~= Seq::empty());
    lemma_resolved_on(c, root, b);
    let up = seq![PartView::Root, PartView::Parent];
    assert(up.drop_last() =~= root);
    lemma_resolved_on(up, root, b);
    lemma_absolute(root, b);
}

proof fn lemma_absolute(a: Seq<PartView>, b: Seq<PartView>)
    requires
        paths::resolved(a).1,
    ensures
        paths::resolved(a + b).1,
    decreases b.len(),
{
    if b.len() == 0 {
        assert(a + b =~= a);
    } else {
        lemma_absolute(a, b.drop_last());
        assert((a + b).drop_last() =~= a + b.drop_last());
    }
}

/// Names alone stay as they are, below a root or not, and behind ways up at the front.
/// A path that leads nowhere is the directory itself.
pub proof fn lemma_plain_path_stays(ups: nat, names: Seq<PartView>)
    requires
        forall|i: int| 0 <= i < names.len() ==> (#[trigger] names[i]) is Name,
        ups + names.len() > 0,
    ensures
        ({
            let front = Seq::new(ups, |i: int| PartView::Parent);
            &&& paths::normalized(front + names) == front + names
            &&& paths::normalized(seq![PartView::Root] + names) == seq![PartView::Root] + names
        }),
        paths::normalized(Seq::empty()) == seq![PartView::Current],
{
    let front = Seq::new(ups, |i: int| PartView::Parent);
    lemma_ups(ups);
    lemma_names(front, names);
    let root = seq![PartView::Root];
    assert(root.drop_last() =~= Seq::empty());
    lemma_names(root, names);
    assert(Seq::<PartView>::empty() + names =~= names);
}

proof fn lemma_ups(n: nat)
    ensures
        ({
            let front = Seq::new(n, |i: int| PartView::Parent);
            paths::resolved(front) == (front, false)
        }),
    decreases n,
{
    let front = Seq::new(n, |i: int| PartView::Parent);
    if n > 0 {
        let m = (n - 1) as nat;
        lemma_ups(m);
        let less = Seq::new(m, |i: int| PartView::Parent);
        assert(front.drop_last() =~= less);
        assert(less.push(PartView::Parent) =~= front);
    } else {
        assert(front =~= Seq::empty());
    }
}

proof fn lemma_names(a: Seq<PartView>, names: Seq<PartView>)
    requires
        forall|i: int| 0 <= i < names.len() ==> (#[trigger] names[i]) is Name,
    ensures
        paths::resolved(a + names) == (paths::resolved(a).0 + names, paths::resolved(a).1),
    decreases names.len(),
{
    if names.len() == 0 {
        assert(a + names =~= a);
        assert(paths::resolved(a).0 + names =~= paths::resolved(a).0);
    } else {
        let d = names.drop_last();
        assert(forall|i: int| 0 <= i < d.len() ==> d[i] == names[i]);
        lemma_names(a, d);
        assert((a + names).drop_last() =~= a + d);
        assert(names[names.len() - 1] is Name);
        assert((paths::resolved(a).0 + d).push(names.last()) =~= paths::resolved(a).0 + names);
    }
}

/// A path below a base is the base and the path from there on; the path from there on
/// names the same place from the base, unless it has a root.
pub proof fn lemma_path_below_a_base(base: Seq<PartView>, rest: Seq<PartView>)
    ensures
        paths::is_below(base + rest, base),
        paths::relative(base + rest, base) == rest,
        !rest.contains(PartView::Root) ==> paths::from_base(rest, base) == base + rest,
        rest.contains(PartView::Root) ==> paths::from_base(rest, base) == rest,
{
    assert((base + rest).take(base.len() as int) =~= base);
    assert((base + rest).skip(base.len() as int) =~= rest);
}

/// A path that differs from the base within its length does not lie below it, and
/// stands for itself.
pub proof fn lemma_path_beside_a_base(path: Seq<PartView>, base: Seq<PartView>, i: int)
    requires
        0 <= i < base.len(),
        i >= path.len() || path[i] != base[i],
    ensures
        !paths::is_below(path, base),
        paths::relative(path, base) == path,
{
    if base.len() <= path.len() {
        assert(path.take(base.len() as int)[i] == path[i]);
    }
}

/// A name is hidden exactly if it begins with a dot and is more than one or two dots.
pub proof fn lemma_dotted_names_are_hidden(p: PathPart)
    ensures
        p matches PathPart::Name(s) ==> paths::is_hidden(p@) == (s@.len() > 0 && s@[0] == '.'
            && s@ != "."@ && s@ != ".."@),
        p is Root || p is Current || p is Parent ==> !paths::is_hidden(p@),
{
    reveal_strlit(".");
    if let PathPart::Name(s) = p {
        if s@.len() > 0 {
            assert(s@.take(1)[0] == s@[0]);
            if s@[0] == '.' {
                assert(s@.take(1) =~= "."@);
            }
        }
    }
}

/// What follows the sign of the home directory and a separator lies below it; the sign
/// alone is the directory itself, and a path that begins otherwise does not begin there.
pub proof fn lemma_home_is_recognized(rest: Seq<char>, path: Seq<char>)
    ensures
        paths::below_home("~"@) == Some(Seq::<char>::empty()),
        paths::below_home("~/"@ + rest) == Some(rest),
        paths::below_home("~\\"@ + rest) == Some(rest),
        path.len() == 0 || path[0] != '~' || path.len() > 1 && path[1] != '/' && path[1] != '\\'
            ==> paths::below_home(path) is None,
{
    reveal_strlit("~");
    reveal_strlit("~/");
    reveal_strlit("~\\");
    let a = "~/"@ + rest;
    let b = "~\\"@ + rest;
    assert(a.take(2) =~= "~/"@);
    assert(a.skip(2) =~= rest);
    assert(b.take(2) =~= "~\\"@);
    assert(b.skip(2) =~= rest);
    assert(b.take(2)[1] == '\\' && "~/"@[1] == '/');
    assert(a.len() >= 2 && b.len() >= 2);
    if path.len() > 1 {
        assert(path.take(2)[0] == path[0] && path.take(2)[1] == path[1]);
    }
}

/// Of a path to write to, as much exists as the longest beginning that does, if only
/// names come after it.
pub proof fn lemma_longest_existing_beginning(
    path: Seq<PartView>,
    exists_to: Seq<bool>,
    n: int,
    k: int,
)
    requires
        0 <= k <= n <= path.len(),
        exists_to.len() == path.len() + 1,
        forall|j: int| k < j <= n ==> !#[trigger] exists_to[j],
        exists_to[k],
    ensures
        (forall|j: int| k <= j < n ==> (#[trigger] path[j]) is Name) ==> paths::existing(
            path,
            exists_to,
            n,
        ) == Some(k),
        (exists|j: int| k <= j < n && !((#[trigger] path[j]) is Name)) ==> paths::existing(
            path,
            exists_to,
            n,
        ) is None,
    decreases n - k,
{
    if k < n {
        assert(!exists_to[n]);
        if path[n - 1] is Name {
            lemma_longest_existing_beginning(path, exists_to, n - 1, k);
        }
    }
}

/// A name in a directory is reached by one separator, whether the directory is written
/// with one at its end or not.
pub proof fn lemma_one_separator_joins(dir: Seq<char>, name: Seq<char>)
    requires
        dir.len() > 0,
        dir.last() != '/',
    ensures
        paths::joined(dir, name) == dir + "/"@ + name,
        paths::joined(dir + "/"@, name) == dir + "/"@ + name,
        paths::joined(Seq::empty(), name) == name,
{
    reveal_strlit("/");
    assert(dir.skip(dir.len() - 1)[0] == dir.last());
    let d = dir + "/"@;
    assert(d.skip(d.len() - 1) =~= "/"@);
    assert(Seq::<char>::empty() + name =~= name);
}

/// A language server runs as the settings say, by its name; servers are on unless they
/// are switched off, and each starts by itself unless that is switched off.
pub proof fn lemma_language_server_runs_as_set(repr: LspConfigRepr, r: LspConfig, i: int)
    requires
        r@ == lsp_manager::config_of(repr@),
        0 <= i < repr.servers@.len(),
    ensures
        r.enabled == !repr.disabled,
        r.servers@.len() == repr.servers@.len(),
        r.servers@[i].0 == repr.servers@[i].0,
        ({
            let s = r.servers@[i].1;
            let t = repr.servers@[i].1;
            &&& text::texts(s.command@) == text::texts(t.command@)
            &&& text::texts(s.extensions@) == text::texts(t.extensions@)
            &&& s.auto_start == !t.no_auto_start
            &&& text::texts(s.root_markers@) == text::texts(t.root_markers@)
        }),
{
    let a = text_map::viewed(r.servers@);
    let b = text_map::viewed(repr.servers@);
    assert(r@.servers == a && repr@.servers == b);
    assert(a.len() == r.servers@.len() && b.len() == repr.servers@.len());
    assert(a[i] == (r.servers@[i].0, r.servers@[i].1@));
    assert(b[i] == (repr.servers@[i].0, repr.servers@[i].1@));
}

/// The settings describe the language servers as they run.
pub proof fn lemma_language_server_is_described(config: LspConfig, r: LspConfigRepr, i: int)
    requires
        r@ == lsp_manager::repr_of(config@),
        0 <= i < config.servers@.len(),
    ensures
        r.disabled == !config.enabled,
        r.servers@.len() == config.servers@.len(),
        r.servers@[i].0 == config.servers@[i].0,
        ({
            let s = config.servers@[i].1;
            let t = r.servers@[i].1;
            &&& text::texts(s.command@) == text::texts(t.command@)
            &&& text::texts(s.extensions@) == text::texts(t.extensions@)
            &&& s.auto_start == !t.no_auto_start
            &&& text::texts(s.root_markers@) == text::texts(t.root_markers@)
        }),
{
    let a = text_map::viewed(config.servers@);
    let b = text_map::viewed(r.servers@);
    assert(config@.servers == a && r@.servers == b);
    assert(a.len() == config.servers@.len() && b.len() == r.servers@.len());
    assert(a[i] == (config.servers@[i].0, config.servers@[i].1@));
    assert(b[i] == (r.servers@[i].0, r.servers@[i].1@));
}

proof fn lemma_stdio(s: Seq<(Seq<char>, McpStdioConfig)>, env: Seq<(Seq<char>, String)>, i: int)
    requires
        text_map::ordered(s),
        0 <= i < s.len(),
    ensures
        text_map::lookup(mcp_manager::stdio_servers(s, env), s[i].0) == Some(
            mcp_manager::stdio_server(s[i].1, env),
        ),
    decreases s.len(),
{
    let d = s.drop_last();
    let last = s.last();
    text_map::lemma_lookup_with(
        mcp_manager::stdio_servers(d, env),
        last.0,
        mcp_manager::stdio_server(last.1, env),
        s[i].0,
    );
    if i < d.len() {
        assert(text_map::ordered(d)) by {
            assert(forall|k: int| 0 <= k < d.len() ==> d[k] == s[k]);
        }
        assert(text_map::text_less(s[i].0, s[s.len() - 1].0));
        text_map::lemma_less_irreflexive(last.0);
        lemma_stdio(d, env, i);
    }
}

proof fn lemma_http(
    base: Seq<(Seq<char>, mcp_manager::ServerView)>,
    s: Seq<(Seq<char>, McpHttpConfig)>,
    env: Seq<(Seq<char>, String)>,
    name: Seq<char>,
)
    requires
        text_map::ordered(s),
    ensures
        forall|i: int|
            0 <= i < s.len() && #[trigger] s[i].0 == name ==> text_map::lookup(
                mcp_manager::with_http_servers(base, s, env),
                name,
            ) == Some(mcp_manager::http_server(s[i].1, env)),
        (forall|i: int| 0 <= i < s.len() ==> #[trigger] s[i].0 != name) ==> text_map::lookup(
            mcp_manager::with_http_servers(base, s, env),
            name,
        ) == text_map::lookup(base, name),
    decreases s.len(),
{
    if s.len() > 0 {
        let d = s.drop_last();
        let last = s.last();
        assert(s[s.len() - 1] == last);
        assert(forall|k: int| 0 <= k < d.len() ==> d[k] == s[k]);
        lemma_http(base, d, env, name);
        text_map::lemma_lookup_with(
            mcp_manager::with_http_servers(base, d, env),
            last.0,
            mcp_manager::http_server(last.1, env),
            name,
        );
        assert forall|i: int| 0 <= i < s.len() && #[trigger] s[i].0 == name implies text_map::lookup(
            mcp_manager::with_http_servers(base, s, env),
            name,
        ) == Some(mcp_manager::http_server(s[i].1, env)) by {
            if i < d.len() {
                assert(text_map::text_less(s[i].0, s[s.len() - 1].0));
                text_map::lemma_less_irreflexive(last.0);
                assert(d[i].0 == name);
            }
        }
    }
}

proof fn lemma_filled_in(
    s: Seq<(Seq<char>, String)>,
    env: Seq<(Seq<char>, String)>,
    r: Seq<(Seq<char>, String)>,
    i: int,
)
    requires
        text_map::viewed(r) == mcp_manager::filled_in(s, env),
        0 <= i < s.len(),
    ensures
        r.len() == s.len(),
        r[i].0 == s[i].0,
        r[i].1@ == catalog::resolved(s[i].1@, env),
{
    assert(text_map::viewed(r).len() == r.len());
    assert(text_map::viewed(r)[i] == (r[i].0, r[i].1@));
}

/// A server that is started as a program is started as the settings say, with the values
/// of the variables filled in, unless one at an address has its name.
pub proof fn lemma_program_is_started_as_set(
    config: McpConfig,
    env: Seq<(Seq<char>, String)>,
    r: Seq<(Seq<char>, McpServerSpec)>,
    i: int,
    k: int,
)
    requires
        text_map::ordered(config.stdio@),
        text_map::ordered(config.http@),
        text_map::viewed(r) == mcp_manager::with_http_servers(
            mcp_manager::stdio_servers(config.stdio@, env),
            config.http@,
            env,
        ),
        0 <= i < config.stdio@.len(),
        0 <= k < config.stdio@[i].1.envs.entries@.len(),
        forall|j: int|
            0 <= j < config.http@.len() ==> #[trigger] config.http@[j].0 != config.stdio@[i].0,
    ensures
        text_map::lookup(r, config.stdio@[i].0) is Some,
        text_map::lookup(r, config.stdio@[i].0)->0 matches McpServerSpec::Stdio {
            command,
            args,
            envs,
        } && ({
            let c = config.stdio@[i].1;
            &&& command@ == c.command@
            &&& text::texts(args@) == text::texts(c.args@)
            &&& envs.inherit == c.envs.inherit
            &&& envs.entries@.len() == c.envs.entries@.len()
            &&& envs.entries@[k].0 == c.envs.entries@[k].0
            &&& envs.entries@[k].1@ == catalog::resolved(c.envs.entries@[k].1@, env)
        }),
{
    let name = config.stdio@[i].0;
    let c = config.stdio@[i].1;
    lemma_stdio(config.stdio@, env, i);
    lemma_http(mcp_manager::stdio_servers(config.stdio@, env), config.http@, env, name);
    text_map::lemma_viewed_lookup(r, name);
    if let McpServerSpec::Stdio { command, args, envs } = text_map::lookup(r, name)->0 {
        lemma_filled_in(c.envs.entries@, env, envs.entries@, k);
    }
}

/// A server at an address is reached as the settings say, with the values of the
/// variables filled in, though a program has its name.
pub proof fn lemma_address_is_reached_as_set(
    config: McpConfig,
    env: Seq<(Seq<char>, String)>,
    r: Seq<(Seq<char>, McpServerSpec)>,
    i: int,
    k: int,
)
    requires
        text_map::ordered(config.http@),
        text_map::viewed(r) == mcp_manager::with_http_servers(
            mcp_manager::stdio_servers(config.stdio@, env),
            config.http@,
            env,
        ),
        0 <= i < config.http@.len(),
        0 <= k < config.http@[i].1.headers@.len(),
    ensures
        text_map::lookup(r, config.http@[i].0) is Some,
        text_map::lookup(r, config.http@[i].0)->0 matches McpServerSpec::Http { url, headers } && ({
            let c = config.http@[i].1;
            &&& url@ == c.url@
            &&& headers@.len() == c.headers@.len()
            &&& headers@[k].0 == c.headers@[k].0
            &&& headers@[k].1@ == catalog::resolved(c.headers@[k].1@, env)
        }),
{
    let name = config.http@[i].0;
    let c = config.http@[i].1;
    lemma_http(mcp_manager::stdio_servers(config.stdio@, env), config.http@, env, name);
    text_map::lemma_viewed_lookup(r, name);
    if let McpServerSpec::Http { url, headers } = text_map::lookup(r, name)->0 {
        lemma_filled_in(c.headers@, env, headers@, k);
    }
}

/// The settings stand in a directory of their own below that of the platform, and without
/// one nowhere.
pub proof fn lemma_settings_stand_below_the_platform(dir: Seq<char>, name: Seq<char>)
    requires
        dir.len() > 0,
        dir.last() != '/',
    ensures
        config::settings_file(Some(dir), name) == Ok::<Seq<char>, ErrorView>(
            dir + "/shuvarie/"@ + name,
        ),
        config::settings_file(None, name) is Err,
        config::CONFIG_FILE_NAME@ == "config.kdl"@,
        config::CONNECTIONS_FILE_NAME@ == "connections.kdl"@,
{
    reveal_strlit("/");
    reveal_strlit("shuvarie");
    reveal_strlit("/shuvarie/");
    lemma_one_separator_joins(dir, "shuvarie"@);
    let d = dir + "/"@ + "shuvarie"@;
    assert(d.last() == 'e');
    lemma_one_separator_joins(d, name);
    assert(d + "/"@ + name =~= dir + "/shuvarie/"@ + name);
}

}
