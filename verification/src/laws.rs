//! Properties that hold across the library's operations.

use vstd::prelude::*;
use crate::actions::{model_action_table, backend_action_table, param_names, params_from, closing_brace};
use crate::text::{occurs_at, replaced_first};
use crate::browser::{App, TAB_COUNT, next_tab, moved_index, scrolled};
use crate::cli::{ApiCall, HttpMethod, route_of, split_at_equals, first_index_from, overridden};
use crate::client::trim_slashes;
use crate::input::moved_cursor;
use crate::json::{Json, find_member, member_value, insert_member, lemma_find_member};
use crate::table::{table_of, truncated};
use crate::browser::{endpoint_action, get_endpoints, tab_names, KeyCode, KeyPress, Popup, Step};
use crate::discover::{
    Doc, EndpointView, Operation, PathItem, doc_endpoints, doc_tags, endpoint_key, is_reordering,
    item_operations, method_entry, ops_tags, texts,
    lemma_doc_endpoint_keys_distinct,
};
use crate::order::{key_lt, lemma_key_asymmetric, lemma_key_irreflexive, lemma_key_total};
use crate::text::{lex_lt, lemma_lex_irreflexive, lemma_lex_transitive};

verus! {

/// Moving the cursor keeps it within the value whenever the value's byte
/// length fits in an `i16`.
pub proof fn law_cursor_within_value(cursor: usize, delta: i16, len: usize)
    requires
        len <= 0x7fff,
        -0x8000 <= (cursor as i16) + delta <= 0x7fff,
    ensures
        moved_cursor(cursor, delta, len) <= len,
{
    assert((len as i16) == len) by (bit_vector)
        requires
            len <= 0x7fff,
    ;
}

/// Moving the selection keeps it inside a non-empty list whose length fits
/// in an `i16`.
pub proof fn law_selection_within_list(sel: Option<usize>, delta: i16, len: usize)
    requires
        0 < len <= 0x7fff,
        -0x8000 <= ((match sel {
            Some(i) => i,
            None => 0,
        }) as i16) + delta <= 0x7fff,
    ensures
        moved_index(sel, delta, len) < len,
{
    assert((len as i16) == len) by (bit_vector)
        requires
            len <= 0x7fff,
    ;
}

/// Scrolling the result never goes before the first row nor past the point
/// where the last row is at the bottom, whenever that point fits in an `i32`.
pub proof fn law_scroll_bounded(scroll: usize, delta: i32, total: usize, height: usize)
    requires
        total <= 0x7fff_ffff,
        -0x8000_0000 <= (scroll as i32) + delta <= 0x7fff_ffff,
    ensures
        scrolled(scroll, delta, total, height) as int <= if total > height {
            total - height
        } else {
            0
        },
{
    let max: usize = if total > height {
        (total - height) as usize
    } else {
        0
    };
    assert((max as i32) == max) by (bit_vector)
        requires
            max <= 0x7fff_ffff,
    ;
}

/// Tab switching stays on the four tabs, and one step on followed by one step
/// back returns to the starting tab.
pub proof fn law_tab_cycle(tab: usize)
    requires
        tab < TAB_COUNT,
    ensures
        next_tab(tab, 1i16) < TAB_COUNT,
        next_tab(tab, -1i16) < TAB_COUNT,
        next_tab(next_tab(tab, 1i16), -1i16) == tab,
        next_tab(next_tab(tab, -1i16), 1i16) == tab,
{
    assert((tab as i16) == tab) by (bit_vector)
        requires
            tab < 4,
    ;
    let up = next_tab(tab, 1i16);
    let down = next_tab(tab, -1i16);
    assert((up as i16) == up) by (bit_vector)
        requires
            up < 4,
    ;
    assert((down as i16) == down) by (bit_vector)
        requires
            down < 4,
    ;
}

/// Switching a tab on and back leaves the active tab where it was.
pub proof fn law_switch_tab_round_trip(a: App, b: App, c: App)
    requires
        a.wf(),
        a.switched_tab(b, 1),
        b.switched_tab(c, -1i16),
    ensures
        c.tab == a.tab,
        c.selections == a.selections,
        c.result_scroll == 0,
{
    law_tab_cycle(a.tab);
}

/// A table never has more than six columns, and every row has one cell per column.
pub proof fn law_table_shape(v: Json)
    ensures
        table_of(v).0.len() <= 6,
        forall|r: int|
            0 <= r < table_of(v).1.len() ==> (#[trigger] table_of(v).1[r]).len() == table_of(
                v,
            ).0.len(),
{
}

/// A cut text has at most `max` characters, and a text that fits is kept whole.
pub proof fn law_truncated_fits(s: Seq<char>, max: nat)
    requires
        max >= 1,
    ensures
        truncated(s, max).len() <= max,
        s.len() <= max ==> truncated(s, max) == s,
{
}

/// Removing trailing slashes a second time changes nothing, and leaves no
/// trailing slash.
pub proof fn law_trim_idempotent(s: Seq<char>)
    ensures
        trim_slashes(trim_slashes(s)) == trim_slashes(s),
        trim_slashes(s).len() == 0 || trim_slashes(s).last() != '/',
    decreases s.len(),
{
    if s.len() > 0 && s.last() == '/' {
        law_trim_idempotent(s.drop_last());
    }
}

/// A parsed query parameter gives back its text as key, `=` and value, and
/// its key holds no `=`.
pub proof fn law_query_round_trip(q: Seq<char>)
    requires
        split_at_equals(q) is Some,
    ensures
        ({
            let (key, value) = split_at_equals(q)->0;
            key + seq!['='] + value == q && !key.contains('=')
        }),
{
    lemma_first_index_from(q, '=', 0);
    let i = first_index_from(q, '=', 0)->0;
    assert(q.take(i) + seq!['='] + q.skip(i + 1) =~= q);
}

proof fn lemma_first_index_from(s: Seq<char>, c: char, j: int)
    requires
        0 <= j,
    ensures
        match first_index_from(s, c, j) {
            Some(i) => j <= i < s.len() && s[i] == c && forall|k: int| j <= k < i ==> s[k] != c,
            None => forall|k: int| j <= k < s.len() ==> s[k] != c,
        },
    decreases s.len() - j,
{
    if j < s.len() && s[j] != c {
        lemma_first_index_from(s, c, j + 1);
    }
}

/// After inserting a member, looking it up gives the inserted value, and
/// every other name gives what it gave before.
pub proof fn law_insert_then_lookup(
    members: Seq<(Seq<char>, Json)>,
    key: Seq<char>,
    value: Json,
    other: Seq<char>,
)
    requires
        other != key,
    ensures
        member_value(insert_member(members, key, value), key) == Some(value),
        member_value(insert_member(members, key, value), other) == member_value(members, other),
{
    lemma_find_member(members, key);
    lemma_find_member(members, other);
    let after = insert_member(members, key, value);
    lemma_find_member(after, key);
    lemma_find_member(after, other);
    match find_member(members, key) {
        Some(i) => {
            assert(after[i].0 == key);
            match find_member(after, key) {
                Some(k) => {
                    if k < i {
                        assert(after[k] == members[k]);
                    } else if k > i {
                        assert(after[i].0 == key);
                    }
                },
                None => {
                    assert(after[i].0 == key);
                },
            }
            match (find_member(members, other), find_member(after, other)) {
                (Some(a), Some(b)) => {
                    if a < b {
                        assert(after[a] == members[a] || a == i);
                    } else if b < a {
                        assert(after[b].0 == other);
                        assert(b != i);
                        assert(members[b] == after[b]);
                    }
                },
                (Some(a), None) => {
                    assert(a != i);
                    assert(after[a] == members[a]);
                },
                (None, Some(b)) => {
                    assert(b != i);
                    assert(after[b] == members[b]);
                },
                (None, None) => {},
            }
        },
        None => {
            let n = members.len() as int;
            assert(after[n].0 == key);
            match find_member(after, key) {
                Some(k) => {
                    if k < n {
                        assert(after[k] == members[k]);
                    }
                },
                None => {},
            }
            match (find_member(members, other), find_member(after, other)) {
                (Some(a), Some(b)) => {
                    if b < a {
                        assert(after[b] == members[b]);
                    } else if a < b {
                        assert(after[a] == members[a]);
                    }
                },
                (Some(a), None) => {
                    assert(after[a] == members[a]);
                },
                (None, Some(b)) => {
                    if b < n {
                        assert(after[b] == members[b]);
                    }
                },
                (None, None) => {},
            }
        },
    }
}


proof fn lemma_params_skip(s: Seq<char>, i: int, j: int)
    requires
        0 <= i <= j <= s.len(),
        forall|k: int| i <= k < j ==> s[k] != '{',
    ensures
        params_from(s, i) == params_from(s, j),
    decreases j - i,
{
    if i < j {
        lemma_params_skip(s, i + 1, j);
    }
}

proof fn lemma_closing_at(s: Seq<char>, a: int, b: int)
    requires
        0 <= a <= b < s.len(),
        s[b] == '}',
        forall|k: int| a <= k < b ==> s[k] != '}',
    ensures
        closing_brace(s, a) == b,
    decreases b - a,
{
    if a < b {
        lemma_closing_at(s, a + 1, b);
    }
}

/// A path made of a prefix without braces and one template parameter `{name}`
/// has that one parameter, and filling it in gives the prefix followed by
/// the value.
pub proof fn law_single_template(prefix: Seq<char>, name: Seq<char>, value: Seq<char>)
    requires
        forall|k: int| 0 <= k < prefix.len() ==> prefix[k] != '{',
        name.len() > 0,
        forall|k: int| 0 <= k < name.len() ==> name[k] != '}',
    ensures
        param_names(prefix + "{"@ + name + "}"@) == seq![name],
        replaced_first(prefix + "{"@ + name + "}"@, "{"@ + name + "}"@, value) == prefix + value,
{
    reveal_strlit("{");
    reveal_strlit("}");
    let pat = "{"@ + name + "}"@;
    let s = prefix + pat;
    assert(s =~= prefix + "{"@ + name + "}"@);
    let p = prefix.len() as int;
    let close = p + 1 + name.len();
    assert(s[p] == '{');
    assert(s[close] == '}');
    lemma_params_skip(s, 0, p);
    lemma_closing_at(s, p + 1, close);
    assert(s.subrange(p + 1, close) =~= name);
    assert(params_from(s, close + 1) == Seq::<Seq<char>>::empty());
    assert(param_names(s) =~= seq![name]);
    assert(s.subrange(p, p + pat.len()) =~= pat);
    assert(occurs_at(s, pat, p));
    assert forall|j: int| 0 <= j < p implies !occurs_at(s, pat, j) by {
        if occurs_at(s, pat, j) {
            assert(s.subrange(j, j + pat.len())[0] == pat[0]);
        }
    }
    let i = choose|i: int|
        #[trigger] occurs_at(s, pat, i) && forall|j: int| 0 <= j < i ==> !occurs_at(s, pat, j);
    assert(i == p);
    assert(s.take(p) =~= prefix);
    assert(s.skip(p + pat.len()) =~= Seq::<char>::empty());
}

/// The browser's model and backend actions use the paths of the matching
/// read subcommands, and filling in the `{uuid}` of "Job by UUID" gives the
/// path of `models job <uuid>` / `backends job <uuid>`.
pub proof fn law_actions_follow_cli(uuid: String)
    ensures
        model_action_table()[0].1 == route_of(ApiCall::ModelsList).1,
        model_action_table()[1].1 == route_of(ApiCall::ModelsAvailable).1,
        model_action_table()[2].1 == route_of(ApiCall::ModelsGalleries).1,
        model_action_table()[3].1 == route_of(ApiCall::ModelsJobs).1,
        param_names(model_action_table()[4].1) == seq!["uuid"@],
        replaced_first(model_action_table()[4].1, "{"@ + "uuid"@ + "}"@, uuid@) == route_of(
            ApiCall::ModelsJob(uuid),
        ).1,
        backend_action_table()[0].1 == route_of(ApiCall::BackendsList).1,
        backend_action_table()[1].1 == route_of(ApiCall::BackendsAvailable).1,
        backend_action_table()[2].1 == route_of(ApiCall::BackendsKnown).1,
        backend_action_table()[3].1 == route_of(ApiCall::BackendsGalleries).1,
        backend_action_table()[4].1 == route_of(ApiCall::BackendsJobs).1,
        param_names(backend_action_table()[5].1) == seq!["uuid"@],
        replaced_first(backend_action_table()[5].1, "{"@ + "uuid"@ + "}"@, uuid@) == route_of(
            ApiCall::BackendsJob(uuid),
        ).1,
        forall|i: int|
            0 <= i < 4 ==> route_of(#[trigger] model_action_table_call(i)).0 == HttpMethod::Get,
{
    reveal_strlit("/models/jobs/{uuid}");
    reveal_strlit("/models/jobs/");
    reveal_strlit("/backends/jobs/{uuid}");
    reveal_strlit("/backends/jobs/");
    reveal_strlit("{");
    reveal_strlit("}");
    reveal_strlit("uuid");
    let name = "uuid"@;
    assert(forall|k: int| 0 <= k < name.len() ==> name[k] != '}');
    let mp = "/models/jobs/"@;
    assert(forall|k: int| 0 <= k < mp.len() ==> mp[k] != '{');
    assert("/models/jobs/{uuid}"@ =~= mp + "{"@ + name + "}"@);
    law_single_template(mp, name, uuid@);
    let bp = "/backends/jobs/"@;
    assert(forall|k: int| 0 <= k < bp.len() ==> bp[k] != '{');
    assert("/backends/jobs/{uuid}"@ =~= bp + "{"@ + name + "}"@);
    law_single_template(bp, name, uuid@);
}

/// The read calls behind the first four model actions.
pub open spec fn model_action_table_call(i: int) -> ApiCall {
    if i == 0 {
        ApiCall::ModelsList
    } else if i == 1 {
        ApiCall::ModelsAvailable
    } else if i == 2 {
        ApiCall::ModelsGalleries
    } else {
        ApiCall::ModelsJobs
    }
}


/// The last value the overrides give to `key`, if any.
pub open spec fn last_override(overrides: Seq<(Seq<char>, Option<String>)>, key: Seq<char>) -> Option<
    String,
>
    decreases overrides.len(),
{
    if overrides.len() == 0 {
        None
    } else {
        let o = overrides.last();
        if o.0 == key && o.1 is Some {
            o.1
        } else {
            last_override(overrides.drop_last(), key)
        }
    }
}

/// After the convenience flags are applied to a body, each flag that was
/// given maps to its (last) value as a string, and every other member keeps
/// its value.
pub proof fn law_overrides_lookup(
    members: Seq<(Seq<char>, Json)>,
    overrides: Seq<(Seq<char>, Option<String>)>,
    key: Seq<char>,
)
    ensures
        member_value(overridden(members, overrides), key) == match last_override(overrides, key) {
            Some(v) => Some(Json::String(v)),
            None => member_value(members, key),
        },
    decreases overrides.len(),
{
    if overrides.len() > 0 {
        let rest = overrides.drop_last();
        law_overrides_lookup(members, rest, key);
        let o = overrides.last();
        match o.1 {
            Some(v) => {
                if o.0 == key {
                    let other = key.push('=');
                    assert(other.len() != key.len());
                    law_insert_then_lookup(overridden(members, rest), o.0, Json::String(v), other);
                } else {
                    law_insert_then_lookup(overridden(members, rest), o.0, Json::String(v), key);
                }
            },
            None => {},
        }
    }
}

/// Two orderings that are strictly increasing under `lt` and hold the same
/// values agree.
proof fn lemma_strictly_sorted_unique<A>(x: Seq<A>, y: Seq<A>, lt: spec_fn(A, A) -> bool)
    requires
        forall|i: int| 0 <= i < x.len() ==> y.contains(#[trigger] x[i]),
        forall|i: int| 0 <= i < y.len() ==> x.contains(#[trigger] y[i]),
        forall|i: int, j: int| 0 <= i < j < x.len() ==> lt(#[trigger] x[i], #[trigger] x[j]),
        forall|i: int, j: int| 0 <= i < j < y.len() ==> lt(#[trigger] y[i], #[trigger] y[j]),
        forall|a: A| !(#[trigger] lt(a, a)),
        forall|a: A, b: A| #[trigger] lt(a, b) ==> !lt(b, a),
    ensures
        x == y,
{
    let n = if x.len() < y.len() {
        x.len()
    } else {
        y.len()
    };
    lemma_sorted_prefix(x, y, lt, n as int);
    if x.len() < y.len() {
        assert(x.contains(y[n as int]));
        let j = choose|j: int| 0 <= j < x.len() && x[j] == y[n as int];
        assert(lt(y[j], y[n as int]));
    } else if y.len() < x.len() {
        assert(y.contains(x[n as int]));
        let j = choose|j: int| 0 <= j < y.len() && y[j] == x[n as int];
        assert(lt(x[j], x[n as int]));
    }
    assert(x =~= y);
}

proof fn lemma_sorted_prefix<A>(x: Seq<A>, y: Seq<A>, lt: spec_fn(A, A) -> bool, k: int)
    requires
        forall|i: int| 0 <= i < x.len() ==> y.contains(#[trigger] x[i]),
        forall|i: int| 0 <= i < y.len() ==> x.contains(#[trigger] y[i]),
        forall|i: int, j: int| 0 <= i < j < x.len() ==> lt(#[trigger] x[i], #[trigger] x[j]),
        forall|i: int, j: int| 0 <= i < j < y.len() ==> lt(#[trigger] y[i], #[trigger] y[j]),
        forall|a: A| !(#[trigger] lt(a, a)),
        forall|a: A, b: A| #[trigger] lt(a, b) ==> !lt(b, a),
        0 <= k <= x.len(),
        k <= y.len(),
    ensures
        forall|i: int| 0 <= i < k ==> x[i] == y[i],
    decreases k,
{
    if k > 0 {
        let m = k - 1;
        lemma_sorted_prefix(x, y, lt, m);
        if x[m] != y[m] {
            assert(y.contains(x[m]));
            let j = choose|j: int| 0 <= j < y.len() && y[j] == x[m];
            assert(x.contains(y[m]));
            let i = choose|i: int| 0 <= i < x.len() && x[i] == y[m];
            if j < m {
                assert(x[j] == y[j]);
                assert(lt(x[j], x[m]));
            } else if i < m {
                assert(x[i] == y[i]);
                assert(lt(y[i], y[m]));
            } else {
                assert(j > m && i > m);
                assert(lt(y[m], y[j]));
                assert(lt(x[m], x[i]));
            }
        }
    }
}

/// The browser lists what the listings give: for a doc whose paths are
/// distinct, the Endpoints tab holds an action for each `GET` endpoint of
/// `endpoints(doc)`, in that order, and for no other endpoint; the Tags tab holds `tags(doc)`; and each
/// tag's list is its `GET` endpoints of `endpoints(doc)` (once per
/// occurrence of the tag), reordered by path.
pub proof fn law_new_follows_listings(
    doc: Doc,
    app: App,
    eps: Seq<EndpointView>,
    tags: Seq<Seq<char>>,
)
    requires
        doc.wf(),
        app.lists_from(&doc),
        is_reordering(eps, doc_endpoints(doc.paths@)),
        forall|a: int, b: int|
            0 <= a < b < eps.len() ==> key_lt(
                endpoint_key(#[trigger] eps[a]),
                endpoint_key(#[trigger] eps[b]),
            ),
        forall|a: int, b: int| 0 <= a < b < tags.len() ==> lex_lt(#[trigger] tags[a], #[trigger] tags[b]),
        forall|t: Seq<char>| tags.contains(t) <==> doc_tags(doc.paths@).contains(t),
    ensures
        crate::actions::actions_view(app.endpoint_actions@) == eps.filter(
            |e: EndpointView| e.method == "GET"@,
        ).map_values(|e: EndpointView| endpoint_action(e)),
        crate::actions::actions_view(app.endpoint_actions@) == get_endpoints(eps).map_values(|e: EndpointView| endpoint_action(e)),
        texts(app.tags@) == tags,
        forall|i: int|
            0 <= i < app.tags@.len() ==> is_reordering(
                crate::browser::pairs_view(#[trigger] app.tag_endpoints@[i]@),
                crate::browser::tagged_entries(eps, tags[i]),
            ),
        forall|i: int, j: int|
            0 <= i < app.tags@.len() && 0 <= j < app.tag_endpoints@[i]@.len() - 1 ==> !lex_lt(
                #[trigger] app.tag_endpoints@[i]@[j + 1].0@,
                app.tag_endpoints@[i]@[j].0@,
            ),
{
    let z = doc_endpoints(doc.paths@);
    lemma_doc_endpoint_keys_distinct(doc.paths@);
    let e0 = choose|e0: Seq<EndpointView>|
        {
            &&& is_reordering(e0, z)
            &&& forall|a: int, b: int|
                0 <= a < b < e0.len() ==> !key_lt(
                    endpoint_key(#[trigger] e0[b]),
                    endpoint_key(#[trigger] e0[a]),
                )
            &&& crate::actions::actions_view(app.endpoint_actions@) == get_endpoints(
                e0,
            ).map_values(|e: EndpointView| endpoint_action(e))
            &&& forall|i: int|
                0 <= i < app.tags@.len() ==> is_reordering(
                    crate::browser::pairs_view(#[trigger] app.tag_endpoints@[i]@),
                    crate::browser::tagged_entries(e0, app.tags@[i]@),
                )
        };
    let p0 = choose|p: Seq<usize>|
        crate::order::is_index_permutation(p, z.len()) && e0.len() == z.len() && forall|k: int|
            0 <= k < e0.len() ==> #[trigger] e0[k] == z[p[k] as int];
    let p1 = choose|p: Seq<usize>|
        crate::order::is_index_permutation(p, z.len()) && eps.len() == z.len() && forall|k: int|
            0 <= k < eps.len() ==> #[trigger] eps[k] == z[p[k] as int];
    let lt = |a: EndpointView, b: EndpointView| key_lt(endpoint_key(a), endpoint_key(b));
    assert forall|a: int, b: int| 0 <= a < b < e0.len() implies lt(
        #[trigger] e0[a],
        #[trigger] e0[b],
    ) by {
        assert(e0[a] == z[p0[a] as int]);
        assert(e0[b] == z[p0[b] as int]);
        assert(p0[a] != p0[b]);
        if p0[a] < p0[b] {
            assert(endpoint_key(z[p0[a] as int]) != endpoint_key(z[p0[b] as int]));
        } else {
            assert(endpoint_key(z[p0[b] as int]) != endpoint_key(z[p0[a] as int]));
        }
        lemma_key_total(endpoint_key(e0[a]), endpoint_key(e0[b]));
    }
    assert forall|i: int| 0 <= i < e0.len() implies eps.contains(#[trigger] e0[i]) by {
        assert(crate::order::index_listed(p1, p0[i] as int));
        let k = choose|k: int| 0 <= k < p1.len() && #[trigger] p1[k] == p0[i] as int;
        assert(eps[k] == e0[i]);
    }
    assert forall|i: int| 0 <= i < eps.len() implies e0.contains(#[trigger] eps[i]) by {
        assert(crate::order::index_listed(p0, p1[i] as int));
        let k = choose|k: int| 0 <= k < p0.len() && #[trigger] p0[k] == p1[i] as int;
        assert(e0[k] == eps[i]);
    }
    assert forall|a: EndpointView| !(#[trigger] lt(a, a)) by {
        lemma_key_irreflexive(endpoint_key(a));
    }
    assert forall|a: EndpointView, b: EndpointView| #[trigger] lt(a, b) implies !lt(b, a) by {
        lemma_key_asymmetric(endpoint_key(a), endpoint_key(b));
    }
    lemma_strictly_sorted_unique(e0, eps, lt);
    law_get_endpoints_filter(eps);

    let tv = texts(app.tags@);
    let llt = |a: Seq<char>, b: Seq<char>| lex_lt(a, b);
    assert forall|i: int| 0 <= i < tv.len() implies tags.contains(#[trigger] tv[i]) by {
        assert(tv.contains(tv[i]));
    }
    assert forall|i: int| 0 <= i < tags.len() implies tv.contains(#[trigger] tags[i]) by {
        assert(tags.contains(tags[i]));
    }
    assert forall|a: Seq<char>| !(#[trigger] llt(a, a)) by {
        lemma_lex_irreflexive(a);
    }
    assert forall|a: Seq<char>, b: Seq<char>| #[trigger] llt(a, b) implies !llt(b, a) by {
        if lex_lt(b, a) {
            lemma_lex_transitive(a, b, a);
            lemma_lex_irreflexive(a);
        }
    }
    lemma_strictly_sorted_unique(tv, tags, llt);
    assert forall|i: int| 0 <= i < app.tags@.len() implies tags[i] == app.tags@[i]@ by {
        assert(tv[i] == app.tags@[i]@);
    }
}

/// With no popup open, the digit keys `1` to `4` make the tab of that
/// number active (counting from one) and change nothing else; `4` is the
/// Tags tab.
pub proof fn law_digit_selects_tab(app: App, next: App, d: char, step: Step)
    requires
        app.popup == Popup::Closed,
        '1' <= d <= '4',
        app.key_outcome(next, (KeyPress { code: KeyCode::Char(d), ctrl: false }), step),
    ensures
        next.tab == (d as u32) - ('1' as u32),
        next == (App { tab: next.tab, ..app }),
        step == Step::Continue,
        d == '4' ==> tab_names()[next.tab as int] == "Tags"@,
{
    if d == '4' {
        assert(tab_names()[3] == "Tags"@);
    }
}

/// Each subcommand without a parameter is sent to its own route: no two of
/// these calls share a method and path.
pub proof fn law_routes_distinct(a: ApiCall, b: ApiCall)
    requires
        fixed_call(a),
        fixed_call(b),
        a != b,
    ensures
        route_of(a) != route_of(b),
{
    lemma_route_key(a);
    lemma_route_key(b);
}

/// The length of a path with its second and eleventh characters (a space
/// when it is shorter): enough to tell the fixed routes apart.
spec fn path_key(p: Seq<char>) -> (nat, char, char) {
    (p.len(), p[1], if p.len() > 10 {
        p[10]
    } else {
        ' '
    })
}

/// The path key of each fixed call's route.
spec fn route_code(c: ApiCall) -> (nat, char, char) {
    match c {
        ApiCall::ModelsList => (10, 'v', ' '),
        ApiCall::ModelsAvailable => (17, 'm', 'a'),
        ApiCall::ModelsApply => (13, 'm', 'p'),
        ApiCall::ModelsGalleries => (17, 'm', 'l'),
        ApiCall::ModelsJobs => (12, 'm', 'b'),
        ApiCall::Chat => (20, 'v', 'o'),
        ApiCall::Completions => (15, 'v', 't'),
        ApiCall::Embeddings => (14, 'v', 'i'),
        ApiCall::ImagesGenerate => (22, 'v', '/'),
        ApiCall::ImagesInpaint => (21, 'v', '/'),
        ApiCall::AudioTranscribe => (24, 'v', 't'),
        ApiCall::AudioSpeech => (16, 'v', 's'),
        ApiCall::AudioTransform => (16, 'a', 'n'),
        ApiCall::BackendsList => (9, 'b', ' '),
        ApiCall::BackendsAvailable => (19, 'b', 'a'),
        ApiCall::BackendsJobs => (14, 'b', 'j'),
        ApiCall::BackendsGalleries => (19, 'b', 'g'),
        ApiCall::BackendsKnown => (15, 'b', 'k'),
        _ => (0, ' ', ' '),
    }
}

proof fn lemma_route_key(c: ApiCall)
    requires
        fixed_call(c),
    ensures
        path_key(route_of(c).1) == route_code(c),
{
    match c {
        ApiCall::ModelsList => {
            reveal_strlit("/v1/models");
        },
        ApiCall::ModelsAvailable => {
            reveal_strlit("/models/available");
        },
        ApiCall::ModelsApply => {
            reveal_strlit("/models/apply");
        },
        ApiCall::ModelsGalleries => {
            reveal_strlit("/models/galleries");
        },
        ApiCall::ModelsJobs => {
            reveal_strlit("/models/jobs");
        },
        ApiCall::Chat => {
            reveal_strlit("/v1/chat/completions");
        },
        ApiCall::Completions => {
            reveal_strlit("/v1/completions");
        },
        ApiCall::Embeddings => {
            reveal_strlit("/v1/embeddings");
        },
        ApiCall::ImagesGenerate => {
            reveal_strlit("/v1/images/generations");
        },
        ApiCall::ImagesInpaint => {
            reveal_strlit("/v1/images/inpainting");
        },
        ApiCall::AudioTranscribe => {
            reveal_strlit("/v1/audio/transcriptions");
        },
        ApiCall::AudioSpeech => {
            reveal_strlit("/v1/audio/speech");
        },
        ApiCall::AudioTransform => {
            reveal_strlit("/audio/transform");
        },
        ApiCall::BackendsList => {
            reveal_strlit("/backends");
        },
        ApiCall::BackendsAvailable => {
            reveal_strlit("/backends/available");
        },
        ApiCall::BackendsJobs => {
            reveal_strlit("/backends/jobs");
        },
        ApiCall::BackendsGalleries => {
            reveal_strlit("/backends/galleries");
        },
        ApiCall::BackendsKnown => {
            reveal_strlit("/backends/known");
        },
        _ => {},
    }
}

/// A job is read at its jobs list's path followed by `/` and its UUID, with
/// the same method, for models and for backends alike.
pub proof fn law_job_routes(uuid: String)
    ensures
        route_of(ApiCall::ModelsJob(uuid)) == (route_of(ApiCall::ModelsJobs).0, route_of(
            ApiCall::ModelsJobs,
        ).1 + "/"@ + uuid@),
        route_of(ApiCall::BackendsJob(uuid)) == (route_of(ApiCall::BackendsJobs).0, route_of(
            ApiCall::BackendsJobs,
        ).1 + "/"@ + uuid@),
{
    reveal_strlit("/models/jobs/");
    reveal_strlit("/models/jobs");
    reveal_strlit("/backends/jobs/");
    reveal_strlit("/backends/jobs");
    reveal_strlit("/");
    assert("/models/jobs/"@ =~= "/models/jobs"@ + "/"@);
    assert("/backends/jobs/"@ =~= "/backends/jobs"@ + "/"@);
    assert("/models/jobs/"@ + uuid@ =~= "/models/jobs"@ + "/"@ + uuid@);
    assert("/backends/jobs/"@ + uuid@ =~= "/backends/jobs"@ + "/"@ + uuid@);
}

/// The calls that take no parameter.
pub open spec fn fixed_call(c: ApiCall) -> bool {
    !(c is ModelsDelete || c is ModelsJob || c is BackendsJob)
}

/// The routes of the generation endpoints, as the LocalAI API names them:
/// chat at `POST /v1/chat/completions`, completions at `POST /v1/completions`,
/// embeddings at `POST /v1/embeddings`.
pub proof fn law_generation_routes()
    ensures
        route_of(ApiCall::Chat) == (HttpMethod::Post, "/v1/chat/completions"@),
        route_of(ApiCall::Completions) == (HttpMethod::Post, "/v1/completions"@),
        route_of(ApiCall::Embeddings) == (HttpMethod::Post, "/v1/embeddings"@),
        route_of(ApiCall::Completions).1 != route_of(ApiCall::Chat).1,
{
    law_routes_distinct(ApiCall::Completions, ApiCall::Chat);
}

/// An operation is listed under a tag filter exactly when one of its tags,
/// at any position, equals the filter up to ASCII case; without a filter
/// every operation is listed.
pub proof fn law_tag_filter(op: crate::discover::Operation, f: Seq<char>, k: int)
    ensures
        crate::discover::passes_filter(op, None),
        0 <= k < op.tags@.len() && crate::text::eq_ignore_ascii_case(op.tags@[k]@, f)
            ==> crate::discover::passes_filter(op, Some(f)),
        (forall|i: int|
            0 <= i < op.tags@.len() ==> !crate::text::eq_ignore_ascii_case(
                #[trigger] op.tags@[i]@,
                f,
            )) ==> !crate::discover::passes_filter(op, Some(f)),
{
}

/// The Endpoints tab's endpoints are exactly those whose method is `GET`, in
/// their order: `GET` endpoints are kept and all others dropped.
pub proof fn law_get_endpoints_filter(eps: Seq<EndpointView>)
    ensures
        get_endpoints(eps) == eps.filter(|e: EndpointView| e.method == "GET"@),
        forall|i: int|
            0 <= i < get_endpoints(eps).len() ==> (#[trigger] get_endpoints(eps)[i]).method
                == "GET"@,
    decreases eps.len(),
{
    reveal(Seq::filter);
    if eps.len() > 0 {
        law_get_endpoints_filter(eps.drop_last());
    }
    let g = get_endpoints(eps);
    let fl = eps.filter(|e: EndpointView| e.method == "GET"@);
    assert(g =~= fl);
    assert forall|i: int| 0 <= i < g.len() implies (#[trigger] g[i]).method == "GET"@ by {
        eps.lemma_filter_pred(|e: EndpointView| e.method == "GET"@, i);
    }
}

/// Every tag of every operation of the document is among the document's
/// tags (and so in `tags(doc)`), whatever the operation's method and
/// whatever the tag's position among its tags.
pub proof fn law_doc_tags_complete(paths: Seq<(String, PathItem)>, p: int, k: int)
    requires
        0 <= p < paths.len(),
    ensures
        paths[p].1.get matches Some(op) ==> (0 <= k < op.tags@.len() ==> doc_tags(
            paths,
        ).contains(op.tags@[k]@)),
        paths[p].1.post matches Some(op) ==> (0 <= k < op.tags@.len() ==> doc_tags(
            paths,
        ).contains(op.tags@[k]@)),
        paths[p].1.put matches Some(op) ==> (0 <= k < op.tags@.len() ==> doc_tags(
            paths,
        ).contains(op.tags@[k]@)),
        paths[p].1.delete matches Some(op) ==> (0 <= k < op.tags@.len() ==> doc_tags(
            paths,
        ).contains(op.tags@[k]@)),
        paths[p].1.patch matches Some(op) ==> (0 <= k < op.tags@.len() ==> doc_tags(
            paths,
        ).contains(op.tags@[k]@)),
        paths[p].1.head matches Some(op) ==> (0 <= k < op.tags@.len() ==> doc_tags(
            paths,
        ).contains(op.tags@[k]@)),
{
    let item = paths[p].1;
    let ops = item_operations(item);
    let g = method_entry("GET"@, item.get);
    let po = method_entry("POST"@, item.post);
    let pu = method_entry("PUT"@, item.put);
    let de = method_entry("DELETE"@, item.delete);
    let pa = method_entry("PATCH"@, item.patch);
    let he = method_entry("HEAD"@, item.head);
    assert(ops == g + po + pu + de + pa + he);
    if item.get is Some && 0 <= k < item.get->0.tags@.len() {
        assert(ops[0].1 == item.get->0);
        lemma_doc_tags_contains(paths, p, 0, k);
    }
    if item.post is Some && 0 <= k < item.post->0.tags@.len() {
        let j = g.len() as int;
        assert(ops[j].1 == item.post->0);
        lemma_doc_tags_contains(paths, p, j, k);
    }
    if item.put is Some && 0 <= k < item.put->0.tags@.len() {
        let j = (g.len() + po.len()) as int;
        assert(ops[j].1 == item.put->0);
        lemma_doc_tags_contains(paths, p, j, k);
    }
    if item.delete is Some && 0 <= k < item.delete->0.tags@.len() {
        let j = (g.len() + po.len() + pu.len()) as int;
        assert(ops[j].1 == item.delete->0);
        lemma_doc_tags_contains(paths, p, j, k);
    }
    if item.patch is Some && 0 <= k < item.patch->0.tags@.len() {
        let j = (g.len() + po.len() + pu.len() + de.len()) as int;
        assert(ops[j].1 == item.patch->0);
        lemma_doc_tags_contains(paths, p, j, k);
    }
    if item.head is Some && 0 <= k < item.head->0.tags@.len() {
        let j = (g.len() + po.len() + pu.len() + de.len() + pa.len()) as int;
        assert(ops[j].1 == item.head->0);
        lemma_doc_tags_contains(paths, p, j, k);
    }
}

/// Tag `k` of operation `j` of path `p` is among the document's tags.
proof fn lemma_doc_tags_contains(paths: Seq<(String, PathItem)>, p: int, j: int, k: int)
    requires
        0 <= p < paths.len(),
        0 <= j < item_operations(paths[p].1).len(),
        0 <= k < item_operations(paths[p].1)[j].1.tags@.len(),
    ensures
        doc_tags(paths).contains(item_operations(paths[p].1)[j].1.tags@[k]@),
    decreases paths.len(),
{
    let init = paths.drop_last();
    let t = item_operations(paths[p].1)[j].1.tags@[k]@;
    if p == paths.len() - 1 {
        lemma_ops_tags_contains(item_operations(paths[p].1), j, k);
        let rest = ops_tags(item_operations(paths[p].1));
        let i = choose|i: int| 0 <= i < rest.len() && rest[i] == t;
        assert(doc_tags(paths)[doc_tags(init).len() + i] == t);
    } else {
        assert(init[p] == paths[p]);
        lemma_doc_tags_contains(init, p, j, k);
        let i = choose|i: int| 0 <= i < doc_tags(init).len() && doc_tags(init)[i] == t;
        assert(doc_tags(paths)[i] == t);
    }
}

/// Tag `k` of operation `j` is among the operations' tags.
proof fn lemma_ops_tags_contains(ops: Seq<(Seq<char>, Operation)>, j: int, k: int)
    requires
        0 <= j < ops.len(),
        0 <= k < ops[j].1.tags@.len(),
    ensures
        ops_tags(ops).contains(ops[j].1.tags@[k]@),
    decreases ops.len(),
{
    let init = ops.drop_last();
    let t = ops[j].1.tags@[k]@;
    if j == ops.len() - 1 {
        assert(ops_tags(ops)[ops_tags(init).len() + k] == t);
    } else {
        assert(init[j] == ops[j]);
        lemma_ops_tags_contains(init, j, k);
        let i = choose|i: int| 0 <= i < ops_tags(init).len() && ops_tags(init)[i] == t;
        assert(ops_tags(ops)[i] == t);
    }
}

} // verus!
