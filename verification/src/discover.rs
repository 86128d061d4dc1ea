//! The API description (a Swagger document) and what is derived from it:
//! the flat, ordered list of endpoints, the set of tags, and the printed
//! endpoint listing.

use vstd::prelude::*;
use crate::json::Json;
use crate::order::{
    SortKey,
    key_lt,
    key_view,
    keys_view,
    is_index_permutation,
    index_listed,
    sort_order,
    lemma_key_total,
    };
use crate::text::{
    chars_of,
    owned,
    concat,
    join,
    join_strings,
    lex_lt,
    eq_ignore_ascii_case,
    eq_ignore_ascii_case_str,
    pad_right,
    pad_right_string,
    spaces,
    str_eq,
    lemma_lex_total,
    lemma_lex_transitive,
};

verus! {

broadcast use vstd::string::group_string_axioms;

// ---------------------------------------------------------------------------
// Types
// ---------------------------------------------------------------------------

/// One documented parameter of an operation.
#[derive(Clone, Debug)]
pub struct Parameter {
    pub name: String,
    pub location: String,
    pub required: bool,
    pub param_type: Option<String>,
    pub description: Option<String>,
}

/// One documented operation (a method on a path).
#[derive(Debug)]
pub struct Operation {
    pub summary: Option<String>,
    pub tags: Vec<String>,
    pub parameters: Vec<Parameter>,
    pub consumes: Vec<String>,
    pub produces: Vec<String>,
}

/// The operations documented for one path, by method.
#[derive(Debug)]
pub struct PathItem {
    pub get: Option<Operation>,
    pub post: Option<Operation>,
    pub put: Option<Operation>,
    pub delete: Option<Operation>,
    pub patch: Option<Operation>,
    pub head: Option<Operation>,
}

/// The API description: every documented path with its operations, and the
/// schema definitions. Each path occurs once (see [`Doc::wf`]); the order of
/// `paths` carries no meaning.
#[derive(Debug)]
pub struct Doc {
    pub paths: Vec<(String, PathItem)>,
    pub definitions: Vec<(String, Json)>,
}

/// A flattened, ordered view of a single operation within an API path.
#[derive(Debug, Clone)]
pub struct Endpoint {
    pub method: String,
    pub path: String,
    pub summary: String,
    pub tags: Vec<String>,
    pub parameters: Vec<Parameter>,
}

/// One entry of the printed endpoint listing: `METHOD path`, the summary,
/// and the tags joined with `", "`.
#[derive(Debug)]
pub struct ListingEntry {
    pub label: String,
    pub summary: String,
    pub tags: String,
}

// ---------------------------------------------------------------------------
// Views
// ---------------------------------------------------------------------------

/// The characters of each text.
pub open spec fn texts(v: Seq<String>) -> Seq<Seq<char>> {
    v.map_values(|s: String| s@)
}

/// The characters of an optional text.
pub open spec fn opt_text(o: Option<String>) -> Option<Seq<char>> {
    match o {
        Some(s) => Some(s@),
        None => None,
    }
}

/// The characters of an optional text, or nothing (as `unwrap_or_default`).
pub open spec fn text_or_empty(o: Option<String>) -> Seq<char> {
    match o {
        Some(s) => s@,
        None => seq![],
    }
}

pub struct ParameterView {
    pub name: Seq<char>,
    pub location: Seq<char>,
    pub required: bool,
    pub param_type: Option<Seq<char>>,
    pub description: Option<Seq<char>>,
}

impl View for Parameter {
    type V = ParameterView;

    open spec fn view(&self) -> ParameterView {
        ParameterView {
            name: self.name@,
            location: self.location@,
            required: self.required,
            param_type: opt_text(self.param_type),
            description: opt_text(self.description),
        }
    }
}

/// The view of each parameter.
pub open spec fn params_view(v: Seq<Parameter>) -> Seq<ParameterView> {
    v.map_values(|p: Parameter| p@)
}

pub struct EndpointView {
    pub method: Seq<char>,
    pub path: Seq<char>,
    pub summary: Seq<char>,
    pub tags: Seq<Seq<char>>,
    pub parameters: Seq<ParameterView>,
}

impl View for Endpoint {
    type V = EndpointView;

    open spec fn view(&self) -> EndpointView {
        EndpointView {
            method: self.method@,
            path: self.path@,
            summary: self.summary@,
            tags: texts(self.tags@),
            parameters: params_view(self.parameters@),
        }
    }
}

/// The view of each endpoint.
pub open spec fn endpoints_view(v: Seq<Endpoint>) -> Seq<EndpointView> {
    v.map_values(|e: Endpoint| e@)
}

pub struct ListingEntryView {
    pub label: Seq<char>,
    pub summary: Seq<char>,
    pub tags: Seq<char>,
}

impl View for ListingEntry {
    type V = ListingEntryView;

    open spec fn view(&self) -> ListingEntryView {
        ListingEntryView { label: self.label@, summary: self.summary@, tags: self.tags@ }
    }
}

/// The view of each listing entry.
pub open spec fn entries_view(v: Seq<ListingEntry>) -> Seq<ListingEntryView> {
    v.map_values(|e: ListingEntry| e@)
}

// ---------------------------------------------------------------------------
// Specification of the derived lists
// ---------------------------------------------------------------------------

/// The operation `o` under the method name `m`, if there is one.
pub open spec fn method_entry(m: Seq<char>, o: Option<Operation>) -> Seq<(Seq<char>, Operation)> {
    match o {
        Some(op) => seq![(m, op)],
        None => seq![],
    }
}

/// The operations of a path, in the order GET, POST, PUT, DELETE, PATCH, HEAD.
pub open spec fn item_operations(item: PathItem) -> Seq<(Seq<char>, Operation)> {
    method_entry("GET"@, item.get) + method_entry("POST"@, item.post) + method_entry(
        "PUT"@,
        item.put,
    ) + method_entry("DELETE"@, item.delete) + method_entry("PATCH"@, item.patch)
        + method_entry("HEAD"@, item.head)
}

/// The endpoint for method `m` of `op` on `path`.
pub open spec fn endpoint_of(path: Seq<char>, m: Seq<char>, op: Operation) -> EndpointView {
    EndpointView {
        method: m,
        path: path,
        summary: text_or_empty(op.summary),
        tags: texts(op.tags@),
        parameters: params_view(op.parameters@),
    }
}

/// The endpoints of one path, in the order of its operations.
pub open spec fn item_endpoints(path: Seq<char>, ops: Seq<(Seq<char>, Operation)>) -> Seq<
    EndpointView,
> {
    ops.map_values(|mo: (Seq<char>, Operation)| endpoint_of(path, mo.0, mo.1))
}

/// Every operation of the document as an endpoint, path by path.
pub open spec fn doc_endpoints(paths: Seq<(String, PathItem)>) -> Seq<EndpointView>
    decreases paths.len(),
{
    if paths.len() == 0 {
        seq![]
    } else {
        doc_endpoints(paths.drop_last()) + item_endpoints(
            paths.last().0@,
            item_operations(paths.last().1),
        )
    }
}

/// The sort key of an endpoint: path, then method.
pub open spec fn endpoint_key(e: EndpointView) -> (Seq<char>, Seq<char>) {
    (e.path, e.method)
}

/// The tags of each operation, in order.
pub open spec fn ops_tags(ops: Seq<(Seq<char>, Operation)>) -> Seq<Seq<char>>
    decreases ops.len(),
{
    if ops.len() == 0 {
        seq![]
    } else {
        ops_tags(ops.drop_last()) + texts(ops.last().1.tags@)
    }
}

/// Every tag of every operation of the document, repetitions included.
pub open spec fn doc_tags(paths: Seq<(String, PathItem)>) -> Seq<Seq<char>>
    decreases paths.len(),
{
    if paths.len() == 0 {
        seq![]
    } else {
        doc_tags(paths.drop_last()) + ops_tags(item_operations(paths.last().1))
    }
}

/// Whether an operation is listed under the tag filter: always without a
/// filter, else when one of its tags equals the filter up to ASCII case.
pub open spec fn passes_filter(op: Operation, filter: Option<Seq<char>>) -> bool {
    match filter {
        None => true,
        Some(f) => exists|i: int|
            0 <= i < op.tags@.len() && eq_ignore_ascii_case(#[trigger] op.tags@[i]@, f),
    }
}

/// The listing entry of method `m` of `op` on `path`.
pub open spec fn listing_of(path: Seq<char>, m: Seq<char>, op: Operation) -> ListingEntryView {
    ListingEntryView {
        label: m + " "@ + path,
        summary: text_or_empty(op.summary),
        tags: join(texts(op.tags@), ", "@),
    }
}

/// The listing entries of one path's operations that pass the filter.
pub open spec fn ops_listing(
    path: Seq<char>,
    ops: Seq<(Seq<char>, Operation)>,
    filter: Option<Seq<char>>,
) -> Seq<ListingEntryView>
    decreases ops.len(),
{
    if ops.len() == 0 {
        seq![]
    } else {
        let rest = ops_listing(path, ops.drop_last(), filter);
        let last = ops.last();
        if passes_filter(last.1, filter) {
            rest.push(listing_of(path, last.0, last.1))
        } else {
            rest
        }
    }
}

/// The listing entries of the document that pass the filter, path by path.
pub open spec fn doc_listing(paths: Seq<(String, PathItem)>, filter: Option<Seq<char>>) -> Seq<
    ListingEntryView,
>
    decreases paths.len(),
{
    if paths.len() == 0 {
        seq![]
    } else {
        doc_listing(paths.drop_last(), filter) + ops_listing(
            paths.last().0@,
            item_operations(paths.last().1),
            filter,
        )
    }
}

/// The number of UTF-8 bytes of a text (as `str::len`).
pub open spec fn byte_len(s: Seq<char>) -> nat {
    (vstd::utf8::encode_utf8(s).len() as usize) as nat
}

/// The largest byte length of the entries' labels, 0 when there are none.
pub open spec fn label_width(entries: Seq<ListingEntryView>) -> nat
    decreases entries.len(),
{
    if entries.len() == 0 {
        0
    } else {
        let w = label_width(entries.drop_last());
        let l = byte_len(entries.last().label);
        if l > w {
            l
        } else {
            w
        }
    }
}

/// The printed lines of one entry: the label padded to `width`, two spaces and
/// the summary; then, when the entry has tags, a line indented past the labels
/// with the tags in brackets.
pub open spec fn entry_lines(e: ListingEntryView, width: nat) -> Seq<Seq<char>> {
    let first = pad_right(e.label, width) + "  "@ + e.summary;
    if e.tags.len() == 0 {
        seq![first]
    } else {
        seq![first, spaces(width) + "  ["@ + e.tags + "]"@]
    }
}

/// The printed lines of all entries, in order.
pub open spec fn listing_lines(entries: Seq<ListingEntryView>, width: nat) -> Seq<Seq<char>>
    decreases entries.len(),
{
    if entries.len() == 0 {
        seq![]
    } else {
        listing_lines(entries.drop_last(), width) + entry_lines(entries.last(), width)
    }
}

/// `a` holds the elements of `b` in the order given by an index permutation.
pub open spec fn is_reordering<T>(a: Seq<T>, b: Seq<T>) -> bool {
    exists|p: Seq<usize>|
        is_index_permutation(p, b.len()) && a.len() == b.len() && forall|k: int|
            0 <= k < a.len() ==> #[trigger] a[k] == b[p[k] as int]
}

impl Doc {
    /// Each path occurs once.
    pub open spec fn wf(&self) -> bool {
        forall|i: int, j: int|
            0 <= i < j < self.paths@.len() ==> (#[trigger] self.paths@[i]).0@ != (
            #[trigger] self.paths@[j]).0@
    }
}

// ---------------------------------------------------------------------------
// Copies
// ---------------------------------------------------------------------------

/// A copy of an optional text.
pub fn copy_opt_text(o: &Option<String>) -> (res: Option<String>)
    ensures
        opt_text(res) == opt_text(*o),
{
    match o {
        Some(s) => Some(s.clone()),
        None => None,
    }
}

/// A copy of a list of texts.
pub fn copy_texts(v: &Vec<String>) -> (res: Vec<String>)
    ensures
        texts(res@) == texts(v@),
{
    let mut out: Vec<String> = Vec::new();
    for i in 0..v.len()
        invariant
            out@.len() == i,
            forall|k: int| 0 <= k < i ==> #[trigger] out@[k]@ == v@[k]@,
    {
        out.push(v[i].clone());
    }
    assert(texts(out@) =~= texts(v@));
    out
}

impl Parameter {
    /// A copy of this parameter.
    pub fn copy(&self) -> (res: Parameter)
        ensures
            res@ == self@,
    {
        Parameter {
            name: self.name.clone(),
            location: self.location.clone(),
            required: self.required,
            param_type: copy_opt_text(&self.param_type),
            description: copy_opt_text(&self.description),
        }
    }
}

/// A copy of a list of parameters.
pub fn copy_params(v: &Vec<Parameter>) -> (res: Vec<Parameter>)
    ensures
        params_view(res@) == params_view(v@),
{
    let mut out: Vec<Parameter> = Vec::new();
    for i in 0..v.len()
        invariant
            out@.len() == i,
            forall|k: int| 0 <= k < i ==> #[trigger] out@[k]@ == v@[k]@,
    {
        out.push(v[i].copy());
    }
    assert(params_view(out@) =~= params_view(v@));
    out
}

impl Endpoint {
    /// A copy of this endpoint.
    pub fn copy(&self) -> (res: Endpoint)
        ensures
            res@ == self@,
    {
        Endpoint {
            method: self.method.clone(),
            path: self.path.clone(),
            summary: self.summary.clone(),
            tags: copy_texts(&self.tags),
            parameters: copy_params(&self.parameters),
        }
    }
}

// ---------------------------------------------------------------------------
// Operations of a path
// ---------------------------------------------------------------------------

impl PathItem {
    /// The documented operations of this path with their method names, in the
    /// order GET, POST, PUT, DELETE, PATCH, HEAD.
    pub fn operations(&self) -> (ops: Vec<(&'static str, &Operation)>)
        ensures
            ops@.len() == item_operations(*self).len(),
            forall|i: int|
                0 <= i < ops@.len() ==> (#[trigger] ops@[i]).0@ == item_operations(*self)[i].0
                    && *ops@[i].1 == item_operations(*self)[i].1,
    {
        let mut ops: Vec<(&'static str, &Operation)> = Vec::new();
        if let Some(op) = &self.get {
            ops.push(("GET", op));
        }
        let ghost s1 = method_entry("GET"@, self.get);
        assert(ops@.len() == s1.len());
        if let Some(op) = &self.post {
            ops.push(("POST", op));
        }
        let ghost s2 = s1 + method_entry("POST"@, self.post);
        assert(ops@.len() == s2.len());
        if let Some(op) = &self.put {
            ops.push(("PUT", op));
        }
        let ghost s3 = s2 + method_entry("PUT"@, self.put);
        if let Some(op) = &self.delete {
            ops.push(("DELETE", op));
        }
        let ghost s4 = s3 + method_entry("DELETE"@, self.delete);
        if let Some(op) = &self.patch {
            ops.push(("PATCH", op));
        }
        let ghost s5 = s4 + method_entry("PATCH"@, self.patch);
        if let Some(op) = &self.head {
            ops.push(("HEAD", op));
        }
        let ghost s6 = s5 + method_entry("HEAD"@, self.head);
        assert(s6 == item_operations(*self));
        assert(ops@.len() == s6.len());
        assert forall|i: int| 0 <= i < ops@.len() implies (#[trigger] ops@[i]).0@ == s6[i].0
            && *ops@[i].1 == s6[i].1 by {}
        ops
    }
}


// ---------------------------------------------------------------------------
// Endpoints and tags
// ---------------------------------------------------------------------------

/// The endpoints of every operation, path by path, in the order of `doc.paths`.
fn collect_endpoints(doc: &Doc) -> (res: Vec<Endpoint>)
    ensures
        endpoints_view(res@) == doc_endpoints(doc.paths@),
{
    let mut out: Vec<Endpoint> = Vec::new();
    for i in 0..doc.paths.len()
        invariant
            endpoints_view(out@) == doc_endpoints(doc.paths@.take(i as int)),
    {
        let path = &doc.paths[i].0;
        let ops = doc.paths[i].1.operations();
        let ghost item_ops = item_operations(doc.paths@[i as int].1);
        let ghost before = endpoints_view(out@);
        for j in 0..ops.len()
            invariant
                ops@.len() == item_ops.len(),
                forall|m: int|
                    0 <= m < ops@.len() ==> (#[trigger] ops@[m]).0@ == item_ops[m].0 && *ops@[m].1
                        == item_ops[m].1,
                *path == doc.paths@[i as int].0,
                endpoints_view(out@) == before + item_endpoints(path@, item_ops.take(j as int)),
        {
            let op = ops[j].1;
            let summary = match &op.summary {
                Some(s) => s.clone(),
                None => String::new(),
            };
            let e = Endpoint {
                method: owned(ops[j].0),
                path: path.clone(),
                summary: summary,
                tags: copy_texts(&op.tags),
                parameters: copy_params(&op.parameters),
            };
            let ghost prev = endpoints_view(out@);
            out.push(e);
            assert(endpoints_view(out@) =~= prev.push(e@));
            assert(item_endpoints(path@, item_ops.take(j + 1)) =~= item_endpoints(
                path@,
                item_ops.take(j as int),
            ).push(endpoint_of(path@, item_ops[j as int].0, item_ops[j as int].1)));
        }
        assert(item_ops.take(ops.len() as int) =~= item_ops);
        assert(doc.paths@.take(i + 1).drop_last() =~= doc.paths@.take(i as int));
    }
    assert(doc.paths@.take(doc.paths.len() as int) =~= doc.paths@);
    out
}

/// The tags of every operation, path by path, repetitions included.
fn collect_tags(doc: &Doc) -> (res: Vec<String>)
    ensures
        texts(res@) == doc_tags(doc.paths@),
{
    let mut out: Vec<String> = Vec::new();
    for i in 0..doc.paths.len()
        invariant
            texts(out@) == doc_tags(doc.paths@.take(i as int)),
    {
        let ops = doc.paths[i].1.operations();
        let ghost item_ops = item_operations(doc.paths@[i as int].1);
        let ghost before = texts(out@);
        for j in 0..ops.len()
            invariant
                ops@.len() == item_ops.len(),
                forall|m: int|
                    0 <= m < ops@.len() ==> (#[trigger] ops@[m]).0@ == item_ops[m].0 && *ops@[m].1
                        == item_ops[m].1,
                texts(out@) == before + ops_tags(item_ops.take(j as int)),
        {
            let op = ops[j].1;
            let ghost mid = texts(out@);
            for t in 0..op.tags.len()
                invariant
                    texts(out@) == mid + texts(op.tags@.take(t as int)),
            {
                let ghost prev = texts(out@);
                out.push(op.tags[t].clone());
                assert(texts(out@) =~= prev.push(op.tags@[t as int]@));
                assert(texts(op.tags@.take(t + 1)) =~= texts(op.tags@.take(t as int)).push(
                    op.tags@[t as int]@,
                ));
            }
            assert(op.tags@.take(op.tags.len() as int) =~= op.tags@);
            assert(item_ops.take(j + 1).drop_last() =~= item_ops.take(j as int));
            assert(texts(out@) =~= before + ops_tags(item_ops.take(j + 1)));
        }
        assert(item_ops.take(ops.len() as int) =~= item_ops);
        assert(doc.paths@.take(i + 1).drop_last() =~= doc.paths@.take(i as int));
    }
    assert(doc.paths@.take(doc.paths.len() as int) =~= doc.paths@);
    out
}

/// The method names of one path's operations are distinct.
proof fn lemma_item_methods_distinct(item: PathItem)
    ensures
        forall|i: int, j: int|
            0 <= i < j < item_operations(item).len() ==> (#[trigger] item_operations(item)[i]).0
                != (#[trigger] item_operations(item)[j]).0,
{
    reveal_strlit("GET");
    reveal_strlit("POST");
    reveal_strlit("PUT");
    reveal_strlit("DELETE");
    reveal_strlit("PATCH");
    reveal_strlit("HEAD");
    let names = seq!["GET"@, "POST"@, "PUT"@, "DELETE"@, "PATCH"@, "HEAD"@];
    assert(names[0][0] == 'G' && names[1][0] == 'P' && names[1][1] == 'O');
    assert(names[2][0] == 'P' && names[2][1] == 'U' && names[3][0] == 'D');
    assert(names[4][0] == 'P' && names[4][1] == 'A' && names[5][0] == 'H');
    assert forall|a: int, b: int| 0 <= a < b < 6 implies names[a] != names[b] by {
        if a == 0 {
            assert(names[a][0] != names[b][0]);
        } else if a == 1 || a == 2 || a == 4 {
            if b == 3 || b == 5 {
                assert(names[a][0] != names[b][0]);
            } else {
                assert(names[a][1] != names[b][1]);
            }
        } else {
            assert(names[a][0] != names[b][0]);
        }
    }
    let opts = seq![item.get, item.post, item.put, item.delete, item.patch, item.head];
    lemma_prefix_methods_distinct(names, opts, 6);
    let e1 = method_entry("GET"@, item.get);
    let e2 = method_entry("POST"@, item.post);
    let e3 = method_entry("PUT"@, item.put);
    let e4 = method_entry("DELETE"@, item.delete);
    let e5 = method_entry("PATCH"@, item.patch);
    let e6 = method_entry("HEAD"@, item.head);
    assert(ops_prefix(names, opts, 0) == Seq::<(Seq<char>, Operation)>::empty());
    assert(ops_prefix(names, opts, 1) == ops_prefix(names, opts, 0) + e1);
    assert(ops_prefix(names, opts, 1) =~= e1);
    assert(ops_prefix(names, opts, 2) == e1 + e2);
    assert(ops_prefix(names, opts, 3) == e1 + e2 + e3);
    assert(ops_prefix(names, opts, 4) == e1 + e2 + e3 + e4);
    assert(ops_prefix(names, opts, 5) == e1 + e2 + e3 + e4 + e5);
    assert(ops_prefix(names, opts, 6) == e1 + e2 + e3 + e4 + e5 + e6);
}

/// The operations named by the first `n` method names carry distinct names,
/// each one of those `n`.
proof fn lemma_prefix_methods_distinct(
    names: Seq<Seq<char>>,
    opts: Seq<Option<Operation>>,
    n: int,
)
    requires
        0 <= n <= names.len(),
        n <= opts.len(),
        forall|a: int, b: int| 0 <= a < b < names.len() ==> names[a] != names[b],
    ensures
        forall|i: int|
            0 <= i < ops_prefix(names, opts, n).len() ==> exists|r: int|
                0 <= r < n && #[trigger] ops_prefix(names, opts, n)[i].0 == names[r],
        forall|i: int, j: int|
            0 <= i < j < ops_prefix(names, opts, n).len() ==> (#[trigger] ops_prefix(
                names,
                opts,
                n,
            )[i]).0 != (#[trigger] ops_prefix(names, opts, n)[j]).0,
    decreases n,
{
    if n > 0 {
        lemma_prefix_methods_distinct(names, opts, n - 1);
        let acc = ops_prefix(names, opts, n - 1);
        let next = ops_prefix(names, opts, n);
        assert(next == acc + method_entry(names[n - 1], opts[n - 1]));
        assert forall|i: int| 0 <= i < next.len() implies exists|r: int|
            0 <= r < n && #[trigger] next[i].0 == names[r] by {
            if i < acc.len() {
                assert(next[i] == acc[i]);
                let r = choose|r: int| 0 <= r < n - 1 && #[trigger] acc[i].0 == names[r];
            } else {
                assert(next[i].0 == names[n - 1]);
            }
        }
        assert forall|i: int, j: int| 0 <= i < j < next.len() implies (#[trigger] next[i]).0 != (
        #[trigger] next[j]).0 by {
            if j >= acc.len() {
                assert(next[j].0 == names[n - 1]);
                assert(next[i] == acc[i]);
                let r = choose|r: int| 0 <= r < n - 1 && #[trigger] acc[i].0 == names[r];
            } else {
                assert(next[i] == acc[i] && next[j] == acc[j]);
            }
        }
    }
}

/// The operations named by the first `n` method names.
spec fn ops_prefix(
    names: Seq<Seq<char>>,
    opts: Seq<Option<Operation>>,
    n: int,
) -> Seq<(Seq<char>, Operation)>
    decreases n,
{
    if n <= 0 {
        seq![]
    } else {
        ops_prefix(names, opts, n - 1) + method_entry(names[n - 1], opts[n - 1])
    }
}

/// Every endpoint of the document lies on one of its paths.
proof fn lemma_doc_endpoint_paths(paths: Seq<(String, PathItem)>)
    ensures
        forall|i: int|
            0 <= i < doc_endpoints(paths).len() ==> exists|k: int|
                0 <= k < paths.len() && (#[trigger] doc_endpoints(paths)[i]).path == paths[k].0@,
    decreases paths.len(),
{
    if paths.len() > 0 {
        let init = paths.drop_last();
        lemma_doc_endpoint_paths(init);
        let f = doc_endpoints(paths);
        let fi = doc_endpoints(init);
        assert forall|i: int| 0 <= i < f.len() implies exists|k: int|
            0 <= k < paths.len() && (#[trigger] f[i]).path == paths[k].0@ by {
            if i < fi.len() {
                assert(f[i] == fi[i]);
                let k = choose|k: int| 0 <= k < init.len() && (#[trigger] fi[i]).path == init[k].0@;
                assert(paths[k] == init[k]);
            } else {
                assert(f[i].path == paths[paths.len() - 1].0@);
            }
        }
    }
}

/// In a document whose paths are distinct, no two endpoints share both path and method.
pub(crate) proof fn lemma_doc_endpoint_keys_distinct(paths: Seq<(String, PathItem)>)
    requires
        forall|i: int, j: int|
            0 <= i < j < paths.len() ==> (#[trigger] paths[i]).0@ != (#[trigger] paths[j]).0@,
    ensures
        forall|i: int, j: int|
            0 <= i < j < doc_endpoints(paths).len() ==> endpoint_key(
                #[trigger] doc_endpoints(paths)[i],
            ) != endpoint_key(#[trigger] doc_endpoints(paths)[j]),
    decreases paths.len(),
{
    if paths.len() > 0 {
        let init = paths.drop_last();
        let last = paths.last();
        lemma_doc_endpoint_keys_distinct(init);
        lemma_doc_endpoint_paths(init);
        lemma_item_methods_distinct(last.1);
        let f = doc_endpoints(paths);
        let fi = doc_endpoints(init);
        let ops = item_operations(last.1);
        assert forall|i: int, j: int| 0 <= i < j < f.len() implies endpoint_key(#[trigger] f[i])
            != endpoint_key(#[trigger] f[j]) by {
            if j < fi.len() {
                assert(f[i] == fi[i] && f[j] == fi[j]);
            } else if i < fi.len() {
                assert(f[i] == fi[i]);
                let k = choose|k: int| 0 <= k < init.len() && (#[trigger] fi[i]).path == init[k].0@;
                assert(paths[k] == init[k]);
                assert(f[j].path == last.0@);
            } else {
                assert(f[i].method == ops[i - fi.len()].0);
                assert(f[j].method == ops[j - fi.len()].0);
            }
        }
    }
}

/// Build a flat, sorted list of all operations defined in the doc: every
/// operation once, ordered by path and then by method.
pub fn endpoints(doc: &Doc) -> (res: Vec<Endpoint>)
    ensures
        is_reordering(endpoints_view(res@), doc_endpoints(doc.paths@)),
        forall|a: int, b: int|
            0 <= a < b < res@.len() ==> !key_lt(
                endpoint_key(#[trigger] res@[b]@),
                endpoint_key(#[trigger] res@[a]@),
            ),
        doc.wf() ==> forall|a: int, b: int|
            0 <= a < b < res@.len() ==> key_lt(
                endpoint_key(#[trigger] res@[a]@),
                endpoint_key(#[trigger] res@[b]@),
            ),
{
    let flat = collect_endpoints(doc);
    let ghost fv = endpoints_view(flat@);
    let mut keys: Vec<SortKey> = Vec::new();
    for i in 0..flat.len()
        invariant
            keys@.len() == i,
            forall|k: int|
                0 <= k < i ==> #[trigger] keys_view(keys@)[k] == endpoint_key(flat@[k]@),
    {
        let ghost prev = keys_view(keys@);
        let key = (chars_of(flat[i].path.as_str()), chars_of(flat[i].method.as_str()));
        keys.push(key);
        assert(keys_view(keys@) =~= prev.push(key_view(key)));
    }
    let p = sort_order(&keys);
    let ghost ks = keys_view(keys@);
    let mut out: Vec<Endpoint> = Vec::new();
    for k in 0..p.len()
        invariant
            p@.len() == flat@.len(),
            forall|m: int| 0 <= m < p@.len() ==> #[trigger] p@[m] < flat@.len(),
            out@.len() == k,
            forall|m: int| 0 <= m < k ==> #[trigger] out@[m]@ == flat@[p@[m] as int]@,
    {
        out.push(flat[p[k]].copy());
    }
    proof {
        let ov = endpoints_view(out@);
        assert forall|m: int| 0 <= m < ov.len() implies #[trigger] ov[m] == fv[p@[m] as int] by {}
        assert(is_index_permutation(p@, fv.len()));
        assert(is_reordering(ov, fv));
        assert forall|a: int, b: int| 0 <= a < b < out@.len() implies !key_lt(
            endpoint_key(#[trigger] out@[b]@),
            endpoint_key(#[trigger] out@[a]@),
        ) by {
            assert(ks[p@[a] as int] == endpoint_key(flat@[p@[a] as int]@));
            assert(ks[p@[b] as int] == endpoint_key(flat@[p@[b] as int]@));
        }
        if doc.wf() {
            lemma_doc_endpoint_keys_distinct(doc.paths@);
            assert forall|a: int, b: int| 0 <= a < b < out@.len() implies key_lt(
                endpoint_key(#[trigger] out@[a]@),
                endpoint_key(#[trigger] out@[b]@),
            ) by {
                let pa = p@[a] as int;
                let pb = p@[b] as int;
                assert(ks[pa] == endpoint_key(fv[pa]));
                assert(ks[pb] == endpoint_key(fv[pb]));
                assert(pa != pb);
                if pa < pb {
                    assert(endpoint_key(fv[pa]) != endpoint_key(fv[pb]));
                } else {
                    assert(endpoint_key(fv[pb]) != endpoint_key(fv[pa]));
                }
                lemma_key_total(ks[pa], ks[pb]);
            }
        }
    }
    out
}

/// All tags found in the doc, sorted and deduplicated.
pub fn tags(doc: &Doc) -> (res: Vec<String>)
    ensures
        forall|a: int, b: int|
            0 <= a < b < res@.len() ==> lex_lt(#[trigger] res@[a]@, #[trigger] res@[b]@),
        forall|t: Seq<char>| texts(res@).contains(t) <==> doc_tags(doc.paths@).contains(t),
{
    let all = collect_tags(doc);
    let ghost av = texts(all@);
    let mut keys: Vec<SortKey> = Vec::new();
    for i in 0..all.len()
        invariant
            keys@.len() == i,
            forall|k: int|
                0 <= k < i ==> #[trigger] keys_view(keys@)[k] == (all@[k]@, Seq::<char>::empty()),
    {
        let ghost prev = keys_view(keys@);
        let key: SortKey = (chars_of(all[i].as_str()), Vec::new());
        keys.push(key);
        assert(keys_view(keys@) =~= prev.push(key_view(key)));
    }
    let p = sort_order(&keys);
    let ghost ks = keys_view(keys@);
    proof {
        assert forall|a: int, b: int| 0 <= a < b < p@.len() implies !lex_lt(
            #[trigger] all@[p@[b] as int]@,
            #[trigger] all@[p@[a] as int]@,
        ) by {
            assert(ks[p@[a] as int] == (all@[p@[a] as int]@, Seq::<char>::empty()));
            assert(ks[p@[b] as int] == (all@[p@[b] as int]@, Seq::<char>::empty()));
            assert(!key_lt(ks[p@[b] as int], ks[p@[a] as int]));
        }
    }
    let mut out: Vec<String> = Vec::new();
    for k in 0..p.len()
        invariant
            is_index_permutation(p@, all@.len()),
            forall|a: int, b: int| 0 <= a < b < p@.len() ==> !lex_lt(
                #[trigger] all@[p@[b] as int]@,
                #[trigger] all@[p@[a] as int]@,
            ),
            forall|a: int, b: int|
                0 <= a < b < out@.len() ==> lex_lt(#[trigger] out@[a]@, #[trigger] out@[b]@),
            k > 0 ==> out@.len() > 0 && out@.last()@ == all@[p@[k - 1] as int]@,
            k == 0 ==> out@.len() == 0,
            forall|m: int| 0 <= m < k ==> texts(out@).contains(#[trigger] all@[p@[m] as int]@),
            forall|x: int|
                0 <= x < out@.len() ==> exists|m: int|
                    0 <= m < k && #[trigger] out@[x]@ == all@[p@[m] as int]@,
    {
        let cur = &all[p[k]];
        let ghost prev = out@;
        if out.len() == 0 || !str_eq(out[out.len() - 1].as_str(), cur.as_str()) {
            proof {
                if out.len() > 0 {
                    let last = out@.last()@;
                    assert(!lex_lt(cur@, last)) by {
                        assert(all@[p@[k - 1] as int]@ == last);
                    }
                    lemma_lex_total(cur@, last);
                    assert forall|a: int| 0 <= a < out@.len() implies lex_lt(
                        #[trigger] out@[a]@,
                        cur@,
                    ) by {
                        if a < out@.len() - 1 {
                            lemma_lex_transitive(out@[a]@, last, cur@);
                        }
                    }
                }
            }
            out.push(cur.clone());
            proof {
                assert forall|m: int| 0 <= m < k + 1 implies texts(out@).contains(
                    #[trigger] all@[p@[m] as int]@,
                ) by {
                    if m < k {
                        assert(texts(prev).contains(all@[p@[m] as int]@));
                        let x = choose|x: int| 0 <= x < prev.len() && texts(prev)[x] == all@[p@[m] as int]@;
                        assert(texts(out@)[x] == all@[p@[m] as int]@);
                    } else {
                        assert(texts(out@)[out@.len() - 1] == all@[p@[m] as int]@);
                    }
                }
                assert forall|x: int| 0 <= x < out@.len() implies exists|m: int|
                    0 <= m < k + 1 && #[trigger] out@[x]@ == all@[p@[m] as int]@ by {
                    if x == out@.len() - 1 {
                        assert(out@[x]@ == all@[p@[k as int] as int]@);
                    } else {
                        assert(out@[x] == prev[x]);
                    }
                }
            }
        } else {
            proof {
                assert forall|m: int| 0 <= m < k + 1 implies texts(out@).contains(
                    #[trigger] all@[p@[m] as int]@,
                ) by {
                    if m == k {
                        assert(texts(out@)[out@.len() - 1] == all@[p@[m] as int]@);
                    }
                }
            }
        }
    }
    proof {
        assert forall|t: Seq<char>| texts(out@).contains(t) implies doc_tags(doc.paths@).contains(t) by {
            let x = choose|x: int| 0 <= x < texts(out@).len() && texts(out@)[x] == t;
            assert(out@[x]@ == t);
            let m = choose|m: int| 0 <= m < p@.len() && #[trigger] out@[x]@ == all@[p@[m] as int]@;
            assert(av[p@[m] as int] == t);
        }
        assert forall|t: Seq<char>| doc_tags(doc.paths@).contains(t) implies texts(out@).contains(t) by {
            let j = choose|j: int| 0 <= j < av.len() && av[j] == t;
            assert(index_listed(p@, j));
            let m = choose|m: int| 0 <= m < p@.len() && p@[m] == j;
            assert(all@[p@[m] as int]@ == t);
        }
    }
    out
}


// ---------------------------------------------------------------------------
// Endpoint listing
// ---------------------------------------------------------------------------

/// The characters of an optional borrowed text.
pub open spec fn opt_str(o: Option<&str>) -> Option<Seq<char>> {
    match o {
        Some(s) => Some(s@),
        None => None,
    }
}

/// Whether `op` is listed under the tag filter.
pub fn passes_tag_filter(op: &Operation, filter: Option<&str>) -> (res: bool)
    ensures
        res == passes_filter(*op, opt_str(filter)),
{
    match filter {
        None => true,
        Some(f) => {
            for i in 0..op.tags.len()
                invariant
                    filter == Some(f),
                    forall|j: int| 0 <= j < i ==> !eq_ignore_ascii_case(#[trigger] op.tags@[j]@, f@),
            {
                if eq_ignore_ascii_case_str(op.tags[i].as_str(), f) {
                    assert(eq_ignore_ascii_case(op.tags@[i as int]@, f@));
                    assert(opt_str(filter) == Some(f@));
                    assert(passes_filter(*op, Some(f@)));
                    return true;
                }
            }
            false
        },
    }
}

/// The listing entries of the document that pass the filter, path by path.
fn collect_listing(doc: &Doc, filter: Option<&str>) -> (res: Vec<ListingEntry>)
    ensures
        entries_view(res@) == doc_listing(doc.paths@, opt_str(filter)),
{
    let ghost fv = opt_str(filter);
    let mut out: Vec<ListingEntry> = Vec::new();
    for i in 0..doc.paths.len()
        invariant
            fv == opt_str(filter),
            entries_view(out@) == doc_listing(doc.paths@.take(i as int), fv),
    {
        let path = &doc.paths[i].0;
        let ops = doc.paths[i].1.operations();
        let ghost item_ops = item_operations(doc.paths@[i as int].1);
        let ghost before = entries_view(out@);
        for j in 0..ops.len()
            invariant
                fv == opt_str(filter),
                ops@.len() == item_ops.len(),
                forall|m: int|
                    0 <= m < ops@.len() ==> (#[trigger] ops@[m]).0@ == item_ops[m].0 && *ops@[m].1
                        == item_ops[m].1,
                *path == doc.paths@[i as int].0,
                entries_view(out@) == before + ops_listing(path@, item_ops.take(j as int), fv),
        {
            let op = ops[j].1;
            assert(item_ops.take(j + 1).drop_last() =~= item_ops.take(j as int));
            if passes_tag_filter(op, filter) {
                let summary = match &op.summary {
                    Some(s) => s.clone(),
                    None => String::new(),
                };
                let label = concat(concat(ops[j].0, " ").as_str(), path.as_str());
                let entry = ListingEntry {
                    label: label,
                    summary: summary,
                    tags: join_strings(&op.tags, ", "),
                };
                let ghost prev = entries_view(out@);
                out.push(entry);
                assert(entries_view(out@) =~= prev.push(entry@));
            }
        }
        assert(item_ops.take(ops.len() as int) =~= item_ops);
        assert(doc.paths@.take(i + 1).drop_last() =~= doc.paths@.take(i as int));
    }
    assert(doc.paths@.take(doc.paths.len() as int) =~= doc.paths@);
    out
}

/// The entries of the endpoint listing: every operation that passes the tag
/// filter, ordered by label (`METHOD path`).
pub fn listing_entries(doc: &Doc, filter: Option<&str>) -> (res: Vec<ListingEntry>)
    ensures
        is_reordering(entries_view(res@), doc_listing(doc.paths@, opt_str(filter))),
        forall|a: int, b: int|
            0 <= a < b < res@.len() ==> !lex_lt(#[trigger] res@[b]@.label, #[trigger] res@[a]@.label),
{
    let flat = collect_listing(doc, filter);
    let ghost fv = entries_view(flat@);
    let mut keys: Vec<SortKey> = Vec::new();
    for i in 0..flat.len()
        invariant
            keys@.len() == i,
            forall|k: int|
                0 <= k < i ==> #[trigger] keys_view(keys@)[k] == (flat@[k]@.label, Seq::<char>::empty()),
    {
        let ghost prev = keys_view(keys@);
        let key: SortKey = (chars_of(flat[i].label.as_str()), Vec::new());
        keys.push(key);
        assert(keys_view(keys@) =~= prev.push(key_view(key)));
    }
    let p = sort_order(&keys);
    let ghost ks = keys_view(keys@);
    let mut out: Vec<ListingEntry> = Vec::new();
    for k in 0..p.len()
        invariant
            p@.len() == flat@.len(),
            forall|m: int| 0 <= m < p@.len() ==> #[trigger] p@[m] < flat@.len(),
            out@.len() == k,
            forall|m: int| 0 <= m < k ==> #[trigger] out@[m]@ == flat@[p@[m] as int]@,
    {
        let e = &flat[p[k]];
        out.push(ListingEntry { label: e.label.clone(), summary: e.summary.clone(), tags: e.tags.clone() });
    }
    proof {
        let ov = entries_view(out@);
        assert forall|m: int| 0 <= m < ov.len() implies #[trigger] ov[m] == fv[p@[m] as int] by {}
        assert(is_index_permutation(p@, fv.len()));
        assert(is_reordering(ov, fv));
        assert forall|a: int, b: int| 0 <= a < b < out@.len() implies !lex_lt(
            #[trigger] out@[b]@.label,
            #[trigger] out@[a]@.label,
        ) by {
            assert(ks[p@[a] as int] == (flat@[p@[a] as int]@.label, Seq::<char>::empty()));
            assert(ks[p@[b] as int] == (flat@[p@[b] as int]@.label, Seq::<char>::empty()));
            assert(!key_lt(ks[p@[b] as int], ks[p@[a] as int]));
        }
    }
    out
}

/// The largest byte length of the entries' labels, 0 when there are none.
pub fn listing_width(entries: &Vec<ListingEntry>) -> (w: usize)
    ensures
        w == label_width(entries_view(entries@)),
{
    let ghost ev = entries_view(entries@);
    let mut w: usize = 0;
    for i in 0..entries.len()
        invariant
            ev == entries_view(entries@),
            w == label_width(ev.take(i as int)),
    {
        assert(ev.take(i + 1).drop_last() =~= ev.take(i as int));
        let l = entries[i].label.as_str().len();
        if l > w {
            w = l;
        }
    }
    assert(ev.take(entries.len() as int) =~= ev);
    w
}

/// The printed lines of one listing entry (see [`entry_lines`]).
pub fn listing_entry_lines(entry: &ListingEntry, width: usize) -> (lines: Vec<String>)
    ensures
        texts(lines@) == entry_lines(entry@, width as nat),
{
    let mut first = pad_right_string(entry.label.as_str(), width);
    first.append("  ");
    first.append(entry.summary.as_str());
    let ghost first_v = pad_right(entry.label@, width as nat) + "  "@ + entry.summary@;
    assert(first@ =~= first_v);
    let mut lines: Vec<String> = Vec::new();
    lines.push(first);
    if !str_eq(entry.tags.as_str(), "") {
        let mut second = pad_right_string("", width);
        second.append("  [");
        second.append(entry.tags.as_str());
        second.append("]");
        proof {
            reveal_strlit("");
            assert(pad_right(""@, width as nat) =~= spaces(width as nat));
            assert(second@ =~= spaces(width as nat) + "  ["@ + entry.tags@ + "]"@);
            if entry.tags@.len() == 0 {
                assert(entry.tags@ =~= ""@);
            }
        }
        lines.push(second);
        assert(texts(lines@) =~= seq![first_v, spaces(width as nat) + "  ["@ + entry.tags@ + "]"@]);
        assert(texts(lines@) =~= entry_lines(entry@, width as nat));
    } else {
        proof {
            reveal_strlit("");
            assert(entry.tags@ =~= ""@);
        }
        assert(texts(lines@) =~= seq![first_v]);
        assert(texts(lines@) =~= entry_lines(entry@, width as nat));
    }
    lines
}

/// The lines of the endpoint listing, as printed by the `endpoints` command:
/// the entries of [`listing_entries`], each label padded to the widest label.
pub fn list_endpoints(doc: &Doc, tag_filter: Option<&str>) -> (lines: Vec<String>)
    ensures
        exists|entries: Seq<ListingEntryView>|
            {
                &&& is_reordering(entries, doc_listing(doc.paths@, opt_str(tag_filter)))
                &&& forall|a: int, b: int|
                    0 <= a < b < entries.len() ==> !lex_lt(
                        #[trigger] entries[b].label,
                        #[trigger] entries[a].label,
                    )
                &&& texts(lines@) == listing_lines(entries, label_width(entries))
            },
{
    let entries = listing_entries(doc, tag_filter);
    let width = listing_width(&entries);
    let ghost ev = entries_view(entries@);
    let mut lines: Vec<String> = Vec::new();
    for i in 0..entries.len()
        invariant
            ev == entries_view(entries@),
            width == label_width(ev),
            texts(lines@) == listing_lines(ev.take(i as int), width as nat),
    {
        let more = listing_entry_lines(&entries[i], width);
        let ghost before = texts(lines@);
        for j in 0..more.len()
            invariant
                texts(lines@) == before + texts(more@).take(j as int),
        {
            let ghost prev = texts(lines@);
            lines.push(more[j].clone());
            assert(texts(lines@) =~= prev.push(more@[j as int]@));
            assert(texts(more@).take(j + 1) =~= texts(more@).take(j as int).push(more@[j as int]@));
            assert(texts(lines@) =~= before + texts(more@).take(j + 1));
        }
        assert(texts(more@).take(more.len() as int) =~= texts(more@));
        assert(ev.take(i + 1).drop_last() =~= ev.take(i as int));
        assert(ev.take(i + 1).last() == entries@[i as int]@);
    }
    assert(ev.take(entries.len() as int) =~= ev);
    lines
}

} // verus!
