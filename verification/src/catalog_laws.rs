//! What holds of every lookup in the catalog, and of what a provider is set up with.

use crate::catalog;
use crate::catalog::{CatalogModel, CatalogProvider, CatalogState, EffortOption, Transport};
use crate::config::connections as current;
use crate::settings::ProviderConfig;
use crate::text;
use crate::text_map;
use vstd::prelude::*;

verus! {

/// The catalog that was fetched counts, else the one that is built in.
pub proof fn lemma_fetched_catalog_counts(state: CatalogState)
    ensures
        state.remote is Some ==> state.effective() == state.remote->0@,
        state.remote is None ==> state.effective() == state.embedded@,
{
}

proof fn lemma_provider_from(ps: Seq<CatalogProvider>, id: Seq<char>, i: int, k: int)
    requires
        0 <= i <= k <= ps.len(),
        forall|j: int| i <= j < k ==> (#[trigger] ps[j]).id@ != id,
    ensures
        catalog::provider_from(ps, id, i) == catalog::provider_from(ps, id, k),
    decreases k - i,
{
    if i < k {
        assert(ps[i].id@ != id);
        lemma_provider_from(ps, id, i + 1, k);
    }
}

/// Of the providers with an id the first is found, and none exactly if none has it.
pub proof fn lemma_first_provider_is_found(ps: Seq<CatalogProvider>, id: Seq<char>, k: int)
    requires
        0 <= k <= ps.len(),
        forall|j: int| 0 <= j < k ==> (#[trigger] ps[j]).id@ != id,
    ensures
        k < ps.len() && ps[k].id@ == id ==> catalog::provider_with(ps, id) == Some(ps[k]),
        k == ps.len() ==> catalog::provider_with(ps, id) is None,
{
    lemma_provider_from(ps, id, 0, k);
}

proof fn lemma_model_from(
    ms: Seq<CatalogModel>,
    test: spec_fn(Seq<char>) -> bool,
    i: int,
    k: int,
)
    requires
        0 <= i <= k <= ms.len(),
        forall|j: int| i <= j < k ==> !test(#[trigger] ms[j].id@),
    ensures
        catalog::model_from(ms, test, i) == catalog::model_from(ms, test, k),
    decreases k - i,
{
    if i < k {
        assert(!test(ms[i].id@));
        lemma_model_from(ms, test, i + 1, k);
    }
}

/// Whether no model has the id.
pub open spec fn unlisted(ms: Seq<CatalogModel>, id: Seq<char>) -> bool {
    forall|j: int| 0 <= j < ms.len() ==> (#[trigger] ms[j]).id@ != id
}

proof fn lemma_unlisted(ms: Seq<CatalogModel>, id: Seq<char>)
    requires
        unlisted(ms, id),
    ensures
        catalog::exact_match(ms, id) is None,
{
    assert forall|j: int| 0 <= j < ms.len() implies !catalog::has_id(id)(
        #[trigger] ms[j].id@,
    ) by {
        assert(ms[j].id@ != id);
    }
    lemma_model_from(ms, catalog::has_id(id), 0, ms.len() as int);
}

proof fn lemma_listed(ms: Seq<CatalogModel>, id: Seq<char>, k: int)
    requires
        0 <= k < ms.len(),
        ms[k].id@ == id,
        forall|j: int| 0 <= j < k ==> (#[trigger] ms[j]).id@ != id,
    ensures
        catalog::exact_match(ms, id) == Some(k),
{
    assert forall|j: int| 0 <= j < k implies !catalog::has_id(id)(#[trigger] ms[j].id@) by {
        assert(ms[j].id@ != id);
    }
    lemma_model_from(ms, catalog::has_id(id), 0, k);
}

/// The first model with the very id comes before every other that might be meant.
pub proof fn lemma_exact_id_comes_first(ms: Seq<CatalogModel>, id: Seq<char>, k: int)
    requires
        0 <= k < ms.len(),
        ms[k].id@ == id,
        forall|j: int| 0 <= j < k ==> (#[trigger] ms[j]).id@ != id,
    ensures
        catalog::model_named(ms, id) == Some(ms[k]),
{
    lemma_listed(ms, id, k);
}

proof fn lemma_slash(vendor: Seq<char>, rest: Seq<char>)
    requires
        !vendor.contains('/'),
    ensures
        catalog::vendor_tail(vendor + "/"@ + rest) == Some(rest),
        catalog::vendor_tail(vendor) is None,
{
    reveal_strlit("/");
    assert("/"@ =~= seq!['/']);
    lemma_first_mark(vendor, '/', "/"@, rest);
    let s = vendor + "/"@ + rest;
    assert(s.skip(vendor.len() as int + 1) =~= rest);
}

proof fn lemma_first_mark(head: Seq<char>, c: char, p: Seq<char>, rest: Seq<char>)
    requires
        p == seq![c],
        !head.contains(c),
    ensures
        text::position(head + p + rest, p) == Some(head.len() as int),
        text::position(head, p) is None,
{
    let s = head + p + rest;
    let n = head.len() as int;
    assert(s.subrange(n, n + 1) =~= p);
    assert(text::occurs_at(s, p, n));
    assert forall|k: int| 0 <= k < n implies !text::occurs_at(s, p, k) by {
        if text::occurs_at(s, p, k) {
            assert(s.subrange(k, k + 1)[0] == s[k]);
            assert(head.contains(head[k]));
        }
    }
    assert(text::first_occurrence(s, p, n));
    text::lemma_position(s, p);
    text::lemma_position(head, p);
    if text::occurs(head, p) {
        let k = choose|k: int| text::occurs_at(head, p, k);
        assert(head.subrange(k, k + 1)[0] == head[k]);
        assert(head.contains(head[k]));
    }
}

/// An id with the name of a vendor before it names the model without the vendor,
/// where none is listed under the whole id.
pub proof fn lemma_vendor_is_left_out(
    ms: Seq<CatalogModel>,
    vendor: Seq<char>,
    id: Seq<char>,
    k: int,
)
    requires
        !vendor.contains('/'),
        unlisted(ms, vendor + "/"@ + id),
        0 <= k < ms.len(),
        ms[k].id@ == id,
        forall|j: int| 0 <= j < k ==> (#[trigger] ms[j]).id@ != id,
    ensures
        catalog::model_named(ms, vendor + "/"@ + id) == Some(ms[k]),
{
    reveal_strlit("/");
    assert("/"@ =~= seq!['/']);
    lemma_unlisted(ms, vendor + "/"@ + id);
    lemma_slash(vendor, id);
    lemma_listed(ms, id, k);
}

/// Whether the text is a date: digits and dashes, among them six digits or more.
pub open spec fn is_date_text(s: Seq<char>) -> bool {
    &&& forall|i: int| 0 <= i < s.len() ==> '0' <= #[trigger] s[i] <= '9' || s[i] == '-'
    &&& s.filter(|c: char| c != '-').len() >= 6
}

proof fn lemma_digits(s: Seq<char>)
    requires
        forall|i: int| 0 <= i < s.len() ==> '0' <= #[trigger] s[i] <= '9' || s[i] == '-',
    ensures
        catalog::digits(s) == s.filter(|c: char| c != '-').len(),
    decreases s.len(),
{
    reveal(Seq::filter);
    if s.len() > 0 {
        let d = s.drop_last();
        assert(s.last() == s[s.len() - 1]);
        assert forall|i: int| 0 <= i < d.len() implies '0' <= #[trigger] d[i] <= '9' || d[i]
            == '-' by {
            assert(d[i] == s[i]);
        }
        lemma_digits(d);
    }
}

proof fn lemma_dates(s: Seq<char>)
    ensures
        catalog::is_date(s) == is_date_text(s),
{
    if forall|i: int| 0 <= i < s.len() ==> '0' <= #[trigger] s[i] <= '9' || s[i] == '-' {
        lemma_digits(s);
        assert forall|i: int| 0 <= i < s.len() implies catalog::is_digit(#[trigger] s[i]) || s[i]
            == '-' by {
            assert('0' <= s[i] <= '9' || s[i] == '-');
        }
    } else {
        let i = choose|i: int| 0 <= i < s.len() && !('0' <= #[trigger] s[i] <= '9' || s[i] == '-');
        assert(!(catalog::is_digit(s[i]) || s[i] == '-'));
    }
}

/// Whether the one id is the other with a date after it.
pub open spec fn is_dated(long: Seq<char>, short: Seq<char>) -> bool {
    &&& 0 < short.len() <= long.len()
    &&& long.take(short.len() as int) == short
    &&& is_date_text(long.skip(short.len() as int))
}

/// An id without a slash that no model has names the first model that differs from it
/// by a date alone, on either side.
pub proof fn lemma_dates_are_left_out(ms: Seq<CatalogModel>, id: Seq<char>, k: int)
    requires
        !id.contains('/'),
        unlisted(ms, id),
        0 <= k < ms.len(),
        is_dated(ms[k].id@, id) || is_dated(id, ms[k].id@),
        forall|j: int|
            0 <= j < k ==> !is_dated((#[trigger] ms[j]).id@, id) && !is_dated(id, ms[j].id@),
    ensures
        catalog::model_named(ms, id) == Some(ms[k]),
{
    reveal_strlit("/");
    assert("/"@ =~= seq!['/']);
    lemma_unlisted(ms, id);
    lemma_slash(id, Seq::empty());
    let test = catalog::has_date_apart(id);
    assert forall|j: int| 0 <= j <= k implies test(#[trigger] ms[j].id@) == (is_dated(ms[j].id@, id)
        || is_dated(id, ms[j].id@)) by {
        let m = ms[j].id@;
        lemma_dates(m.skip(id.len() as int));
        lemma_dates(id.skip(m.len() as int));
    }
    assert(test(ms[k].id@));
    assert forall|j: int| 0 <= j < k implies !test(#[trigger] ms[j].id@) by {
        assert(!is_dated(ms[j].id@, id) && !is_dated(id, ms[j].id@));
    }
    lemma_model_from(ms, test, 0, k);
}

/// A tag behind a colon is left out: the one model that is the same but for tags is
/// named, where no other is meant. If two are, neither is.
pub proof fn lemma_tags_are_left_out(
    ms: Seq<CatalogModel>,
    base: Seq<char>,
    tag: Seq<char>,
    k: int,
)
    requires
        !base.contains(':'),
        !base.contains('/'),
        !tag.contains('/'),
        unlisted(ms, base + ":"@ + tag),
        0 <= k < ms.len(),
        ms[k].id@ == base,
        forall|j: int|
            0 <= j < ms.len() ==> !is_dated((#[trigger] ms[j]).id@, base + ":"@ + tag) && !is_dated(
                base + ":"@ + tag,
                ms[j].id@,
            ),
    ensures
        (forall|j: int|
            0 <= j < ms.len() && j != k ==> catalog::untagged((#[trigger] ms[j]).id@) != base)
            ==> catalog::model_named(ms, base + ":"@ + tag) == Some(ms[k]),
        (exists|j: int|
            0 <= j < ms.len() && j != k && catalog::untagged((#[trigger] ms[j]).id@) == base)
            ==> catalog::model_named(ms, base + ":"@ + tag) is None,
{
    reveal_strlit("/");
    reveal_strlit(":");
    assert("/"@ =~= seq!['/']);
    assert(":"@ =~= seq![':']);
    let id = base + ":"@ + tag;
    lemma_unlisted(ms, id);
    assert(!id.contains('/')) by {
        if id.contains('/') {
            let i = choose|i: int| 0 <= i < id.len() && id[i] == '/';
            if i < base.len() {
                assert(base.contains(base[i]));
            } else if i > base.len() {
                assert(tag.contains(tag[i - base.len() - 1]));
            }
        }
    }
    lemma_slash(id, Seq::empty());
    lemma_first_mark(base, ':', ":"@, tag);
    assert(id.take(base.len() as int) =~= base);
    assert(catalog::untagged(id) == base);
    assert(catalog::untagged(base) == base);
    let dated = catalog::has_date_apart(id);
    assert forall|j: int| 0 <= j < ms.len() implies !dated(#[trigger] ms[j].id@) by {
        let m = ms[j].id@;
        lemma_dates(m.skip(id.len() as int));
        lemma_dates(id.skip(m.len() as int));
        assert(!is_dated(ms[j].id@, id) && !is_dated(id, ms[j].id@));
    }
    lemma_model_from(ms, dated, 0, ms.len() as int);
    let test = catalog::has_base(id);
    assert(test(ms[k].id@));
    let n = ms.len() as int;
    if forall|j: int|
        0 <= j < ms.len() && j != k ==> catalog::untagged((#[trigger] ms[j]).id@) != base {
        assert forall|j: int| 0 <= j < n && j != k implies !test(#[trigger] ms[j].id@) by {
            assert(catalog::untagged(ms[j].id@) != base);
        }
        lemma_model_from(ms, test, 0, k);
        lemma_model_from(ms, test, k + 1, n);
    } else {
        let j = choose|j: int|
            0 <= j < ms.len() && j != k && catalog::untagged((#[trigger] ms[j]).id@) == base;
        assert(test(ms[j].id@));
        let (a, b) = if j < k {
            (j, k)
        } else {
            (k, j)
        };
        lemma_two_pass(ms, test, 0, a, b);
    }
}

proof fn lemma_two_pass(
    ms: Seq<CatalogModel>,
    test: spec_fn(Seq<char>) -> bool,
    i: int,
    a: int,
    b: int,
)
    requires
        0 <= i <= a < b < ms.len(),
        test(ms[a].id@),
        test(ms[b].id@),
    ensures
        catalog::model_from(ms, test, i) matches Some(x) && i <= x <= a && catalog::model_from(
            ms,
            test,
            x + 1,
        ) is Some,
    decreases a - i,
{
    if test(ms[i].id@) {
        lemma_one_passes(ms, test, i + 1, b);
    } else {
        lemma_two_pass(ms, test, i + 1, a, b);
    }
}

proof fn lemma_one_passes(
    ms: Seq<CatalogModel>,
    test: spec_fn(Seq<char>) -> bool,
    i: int,
    b: int,
)
    requires
        0 <= i <= b < ms.len(),
        test(ms[b].id@),
    ensures
        catalog::model_from(ms, test, i) is Some,
    decreases b - i,
{
    if !test(ms[i].id@) {
        lemma_one_passes(ms, test, i + 1, b);
    }
}

proof fn lemma_efforts_from(os: Seq<EffortOption>, i: int, k: int)
    requires
        0 <= i <= k <= os.len(),
        forall|j: int|
            i <= j < k ==> (#[trigger] os[j]).kind@ != "effort"@ || os[j].values@.len() == 0,
    ensures
        catalog::efforts_from(os, i) == catalog::efforts_from(os, k),
    decreases k - i,
{
    if i < k {
        assert(os[i].kind@ != "effort"@ || os[i].values@.len() == 0);
        lemma_efforts_from(os, i + 1, k);
    }
}

/// The efforts of a model are the values of the first of its options that is about
/// effort and has values. Without such an option it has none.
pub proof fn lemma_first_effort_option_counts(m: CatalogModel, k: int)
    requires
        0 <= k <= m.reasoning_options@.len(),
        forall|j: int|
            0 <= j < k ==> (#[trigger] m.reasoning_options@[j]).kind@ != "effort"@
                || m.reasoning_options@[j].values@.len() == 0,
    ensures
        k < m.reasoning_options@.len() && m.reasoning_options@[k].kind@ == "effort"@
            && m.reasoning_options@[k].values@.len() > 0 ==> catalog::efforts(m) == text::texts(
            m.reasoning_options@[k].values@,
        ),
        k == m.reasoning_options@.len() ==> catalog::efforts(m).len() == 0,
{
    lemma_efforts_from(m.reasoning_options@, 0, k);
}

/// An effort that the model does not have is followed by its first one, or by the
/// default where it has none. Without any effort there is nothing to go on to.
pub proof fn lemma_unknown_effort_is_left(values: Seq<Seq<char>>, current: Seq<char>)
    requires
        !values.contains(current),
    ensures
        values.len() > 0 ==> catalog::following(values, Some(current)) == Some(Some(values[0])),
        values.len() == 0 ==> catalog::following(values, Some(current)) == Some(
            None::<Seq<char>>,
        ),
        values.len() == 0 ==> catalog::following(values, None) is None,
{
    lemma_not_from(values, current, 0);
}

proof fn lemma_not_from(values: Seq<Seq<char>>, t: Seq<char>, i: int)
    requires
        0 <= i,
        !values.contains(t),
    ensures
        catalog::text_from(values, t, i) is None,
    decreases values.len() - i,
{
    if i < values.len() {
        assert(values.contains(values[i]));
        lemma_not_from(values, t, i + 1);
    }
}

/// A provider with a key that is not blank can always be connected to. One without a
/// key can be exactly if its catalog entry needs none, or if it names no entry and
/// speaks to a local server.
pub proof fn lemma_key_opens_the_connection(ps: Seq<CatalogProvider>, p: ProviderConfig)
    ensures
        ({
            let keyed = p.api_key is Some && text::trimmed(p.api_key->0@).len() > 0;
            let open = catalog::connectable(ps, p@);
            let id = match p.catalog {
                Some(c) => c@,
                None => p.kind@,
            };
            let entry = catalog::provider_with(ps, id);
            let named = p.catalog is None && catalog::transport_named(p.kind@) is Some;
            &&& keyed ==> open
            &&& !keyed && named ==> open == (p.kind@ == "ollama"@)
            &&& !keyed && !named ==> open == (entry is Some && entry->0.api_key is None)
        }),
{
    if p.catalog is None && catalog::transport_named(p.kind@) is Some {
        lemma_local(p.kind@);
    }
}

proof fn lemma_local(kind: Seq<char>)
    requires
        catalog::transport_named(kind) is Some,
    ensures
        catalog::transport_named(kind) == Some(Transport::Ollama) <==> kind == "ollama"@,
{
    reveal_strlit("openai");
    reveal_strlit("openai-compat");
    reveal_strlit("openrouter");
    reveal_strlit("vercel");
    reveal_strlit("anthropic");
    reveal_strlit("google");
    reveal_strlit("azure");
    reveal_strlit("bedrock");
    reveal_strlit("google-vertex");
    reveal_strlit("ollama");
    assert("ollama"@.len() == 6 && "openai"@.len() == 6 && "vercel"@.len() == 6 && "google"@.len()
        == 6);
    assert("ollama"@[1] == 'l' && "openai"@[1] == 'p' && "vercel"@[1] == 'e' && "google"@[1]
        == 'o');
    assert("openai-compat"@.len() == 13 && "openrouter"@.len() == 10 && "anthropic"@.len() == 9
        && "azure"@.len() == 5 && "bedrock"@.len() == 7 && "google-vertex"@.len() == 13);
}

/// In a connections file a provider with a key can be connected to. Without one it can
/// be exactly if the catalog says that none is needed, or does not list it and it is
/// the local one.
pub proof fn lemma_listed_kind_says_whether_a_key_is_needed(
    ps: Seq<CatalogProvider>,
    kind: Seq<char>,
    key: Option<Seq<char>>,
)
    ensures
        ({
            let keyed = key is Some && text::trimmed(key->0).len() > 0;
            let entry = catalog::provider_with(ps, kind);
            let open = current::kind_connectable(ps, kind, key);
            &&& keyed ==> open
            &&& !keyed && entry is Some ==> open == (entry->0.api_key is None)
            &&& !keyed && entry is None ==> open == (kind == "ollama"@)
        }),
{
}

proof fn lemma_resolved_plain(head: Seq<char>, rest: Seq<char>, env: Seq<(Seq<char>, String)>)
    requires
        !head.contains('$'),
    ensures
        catalog::resolved(head + rest, env) == head + catalog::resolved(rest, env),
    decreases head.len(),
{
    if head.len() == 0 {
        assert(head + rest =~= rest);
        assert(head + catalog::resolved(rest, env) =~= catalog::resolved(rest, env));
    } else {
        let tail = head.skip(1);
        assert(head.contains(head[0]));
        assert forall|i: int| 0 <= i < tail.len() implies tail[i] != '$' by {
            assert(head.contains(head[i + 1]));
        }
        lemma_resolved_plain(tail, rest, env);
        assert((head + rest).skip(1) =~= tail + rest);
        assert(catalog::resolved(head + rest, env) =~= head + catalog::resolved(rest, env));
    }
}

/// The value of a variable stands where its name stands in braces after a dollar sign.
/// What comes before it stays, and what comes after it is filled in likewise. A
/// variable that is not set stays as it was written.
pub proof fn lemma_braced_variable_is_filled_in(
    head: Seq<char>,
    name: Seq<char>,
    rest: Seq<char>,
    env: Seq<(Seq<char>, String)>,
)
    requires
        !head.contains('$'),
        !name.contains('}'),
    ensures
        ({
            let written = "${"@ + name + "}"@;
            let value = text_map::lookup(env, name);
            catalog::resolved(head + (written + rest), env) == head + (if value is Some {
                value->0@
            } else {
                written
            }) + catalog::resolved(rest, env)
        }),
{
    reveal_strlit("${");
    reveal_strlit("}");
    let written = "${"@ + name + "}"@;
    lemma_resolved_plain(head, written + rest, env);
    let s = written + rest;
    assert("}"@ =~= seq!['}']);
    lemma_first_mark(name, '}', "}"@, rest);
    assert(s.skip(2) =~= name + "}"@ + rest);
    assert(s[0] == '$' && s[1] == '{');
    let n = name.len() as int + 3;
    assert(catalog::placeholder_len(s) == n);
    assert(s.subrange(2, n - 1) =~= name);
    assert(s.take(n) =~= written);
    assert(s.skip(n) =~= rest);
    let value = text_map::lookup(env, name);
    let put = if value is Some {
        value->0@
    } else {
        written
    };
    assert(head + (put + catalog::resolved(rest, env)) =~= head + put + catalog::resolved(
        rest,
        env,
    ));
}

/// Whether a text can be the name of a variable without braces.
pub open spec fn is_plain_name(name: Seq<char>) -> bool {
    &&& name.len() > 0
    &&& forall|i: int|
        0 <= i < name.len() ==> 'a' <= #[trigger] name[i] <= 'z' || 'A' <= name[i] <= 'Z' || '0'
            <= name[i] <= '9' || name[i] == '_'
}

proof fn lemma_name_len(name: Seq<char>, rest: Seq<char>)
    requires
        forall|i: int|
            0 <= i < name.len() ==> 'a' <= #[trigger] name[i] <= 'z' || 'A' <= name[i] <= 'Z' || '0'
                <= name[i] <= '9' || name[i] == '_',
        rest.len() > 0 ==> !catalog::is_name_char(rest[0]),
    ensures
        catalog::name_len(name + rest) == name.len(),
    decreases name.len(),
{
    if name.len() == 0 {
        assert(name + rest =~= rest);
    } else {
        let tail = name.skip(1);
        assert(catalog::is_name_char(name[0]));
        assert forall|i: int| 0 <= i < tail.len() implies 'a' <= #[trigger] tail[i] <= 'z' || 'A'
            <= tail[i] <= 'Z' || '0' <= tail[i] <= '9' || tail[i] == '_' by {
            assert(tail[i] == name[i + 1]);
        }
        lemma_name_len(tail, rest);
        assert((name + rest).skip(1) =~= tail + rest);
    }
}

/// Without braces the name of a variable goes as far as letters, digits and
/// underscores do.
pub proof fn lemma_plain_variable_is_filled_in(
    head: Seq<char>,
    name: Seq<char>,
    rest: Seq<char>,
    env: Seq<(Seq<char>, String)>,
)
    requires
        !head.contains('$'),
        is_plain_name(name),
        rest.len() > 0 ==> !is_plain_name(rest.take(1)),
    ensures
        ({
            let written = "$"@ + name;
            let value = text_map::lookup(env, name);
            catalog::resolved(head + (written + rest), env) == head + (if value is Some {
                value->0@
            } else {
                written
            }) + catalog::resolved(rest, env)
        }),
{
    reveal_strlit("$");
    let written = "$"@ + name;
    lemma_resolved_plain(head, written + rest, env);
    let s = written + rest;
    if rest.len() > 0 {
        let t = rest.take(1);
        assert(t[0] == rest[0]);
        if catalog::is_name_char(rest[0]) {
            assert(is_plain_name(t));
        }
    }
    lemma_name_len(name, rest);
    assert(s.skip(1) =~= name + rest);
    assert(s[0] == '$' && s[1] == name[0]);
    assert('a' <= name[0] <= 'z' || 'A' <= name[0] <= 'Z' || '0' <= name[0] <= '9' || name[0]
        == '_');
    let n = name.len() as int + 1;
    assert(catalog::placeholder_len(s) == n);
    assert(s.subrange(1, n) =~= name);
    assert(s.take(n) =~= written);
    assert(s.skip(n) =~= rest);
    let value = text_map::lookup(env, name);
    let put = if value is Some {
        value->0@
    } else {
        written
    };
    assert(head + (put + catalog::resolved(rest, env)) =~= head + put + catalog::resolved(
        rest,
        env,
    ));
}

/// A kind that names a transport speaks it; another kind speaks that of its entry in
/// the catalog, and where there is none the most common one.
pub proof fn lemma_kind_names_the_transport(ps: Seq<CatalogProvider>, kind: Seq<char>)
    ensures
        catalog::transport_named(kind) is Some ==> catalog::transport_for(ps, kind)
            == catalog::transport_named(kind)->0,
        catalog::transport_named(kind) is None ==> {
            let entry = catalog::provider_with(ps, kind);
            catalog::transport_for(ps, kind) == (if entry is Some && entry->0.kind is Some {
                entry->0.kind->0
            } else {
                Transport::OpenaiCompat
            })
        },
{
}

/// The address of a catalog entry is known only where nothing in it is left to fill in.
pub proof fn lemma_known_address_is_complete(
    p: CatalogProvider,
    env: Seq<(Seq<char>, String)>,
)
    ensures
        match catalog::known_endpoint(p, env) {
            Some(e) => p.api_endpoint is Some && e == catalog::resolved(p.api_endpoint->0@, env)
                && !e.contains('$'),
            None => p.api_endpoint is None || catalog::resolved(p.api_endpoint->0@, env).contains(
                '$',
            ),
        },
{
    reveal_strlit("$");
    if p.api_endpoint is Some {
        let e = catalog::resolved(p.api_endpoint->0@, env);
        if e.contains('$') {
            let i = choose|i: int| 0 <= i < e.len() && e[i] == '$';
            assert(e.subrange(i, i + 1) =~= "$"@);
            assert(text::occurs_at(e, "$"@, i));
        }
        if text::occurs(e, "$"@) {
            let i = choose|i: int| text::occurs_at(e, "$"@, i);
            assert(e.subrange(i, i + 1)[0] == e[i]);
            assert(e.contains(e[i]));
        }
    }
}

}
