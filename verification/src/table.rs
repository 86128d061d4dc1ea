//! Presenting a JSON response as a table: headers and rows of short texts.

use vstd::prelude::*;
use crate::json::{Json, member_value, members_view, find_key, lemma_find_member};
use crate::text::{
    chars_of,
    char_count,
    decimal,
    decimal_string,
    owned,
    push_char,
    str_eq,
};
use crate::discover::texts;

verus! {

broadcast use vstd::string::group_string_axioms;

// ---------------------------------------------------------------------------
// Specification
// ---------------------------------------------------------------------------

/// The keys under which responses commonly wrap their list, in the order in
/// which they are tried.
pub open spec fn wrapper_keys() -> Seq<Seq<char>> {
    seq![
        "data"@,
        "models"@,
        "backends"@,
        "jobs"@,
        "galleries"@,
        "tags"@,
        "results"@,
        "items"@,
        "endpoints"@,
        "available"@,
    ]
}

/// The array held under the first wrapper key, from the `i`-th on, whose member is an array.
pub open spec fn first_wrapped(members: Seq<(Seq<char>, Json)>, i: int) -> Option<Seq<Json>>
    decreases 10 - i,
{
    if i < 0 || i >= 10 {
        None
    } else {
        match member_value(members, wrapper_keys()[i]) {
            Some(Json::Array(a)) => Some(a@),
            _ => first_wrapped(members, i + 1),
        }
    }
}

/// The first member value, from the `j`-th on, that is an array.
pub open spec fn first_array_member(members: Seq<(String, Json)>, j: int) -> Option<Seq<Json>>
    decreases members.len() - j,
{
    if j < 0 || j >= members.len() {
        None
    } else {
        match members[j].1 {
            Json::Array(a) => Some(a@),
            _ => first_array_member(members, j + 1),
        }
    }
}

/// The list a response holds: the response itself when it is an array; for an
/// object, the array under the first wrapper key that holds one, else its
/// first array member.
pub open spec fn array_of(v: Json) -> Option<Seq<Json>> {
    match v {
        Json::Array(a) => Some(a@),
        Json::Object(o) => match first_wrapped(members_view(o@), 0) {
            Some(a) => Some(a),
            None => first_array_member(o@, 0),
        },
        _ => None,
    }
}

/// `s` cut to at most `max` characters, the last one replaced by `…` when cut.
pub open spec fn truncated(s: Seq<char>, max: nat) -> Seq<char> {
    if s.len() <= max {
        s
    } else {
        s.take(max - 1).push('…')
    }
}

/// The full text of a cell: nothing for null, the text of strings, numbers and
/// booleans, the length of arrays and the member count of objects.
pub open spec fn cell_text(v: Json) -> Seq<char> {
    match v {
        Json::Null => seq![],
        Json::String(s) => s@,
        Json::Bool(b) => if b { "true"@ } else { "false"@ },
        Json::Number(n) => n@,
        Json::Array(a) => "["@ + decimal(a@.len()) + "]"@,
        Json::Object(o) => "{"@ + decimal(o@.len()) + " fields}"@,
    }
}

/// The text shown in a cell: [`cell_text`] cut to 40 characters.
pub open spec fn cell(v: Json) -> Seq<char> {
    truncated(cell_text(v), 40)
}

/// The member names of an object, in order; none for other values.
pub open spec fn object_keys(v: Json) -> Seq<Seq<char>> {
    match v {
        Json::Object(o) => o@.map_values(|m: (String, Json)| m.0@),
        _ => seq![],
    }
}

/// `acc` extended, in order, with the names of `ks` it does not hold yet.
pub open spec fn add_keys(acc: Seq<Seq<char>>, ks: Seq<Seq<char>>) -> Seq<Seq<char>>
    decreases ks.len(),
{
    if ks.len() == 0 {
        acc
    } else {
        let a = add_keys(acc, ks.drop_last());
        if a.contains(ks.last()) {
            a
        } else {
            a.push(ks.last())
        }
    }
}

/// The ordered union of the member names of the objects of `arr`.
pub open spec fn key_union(arr: Seq<Json>) -> Seq<Seq<char>>
    decreases arr.len(),
{
    if arr.len() == 0 {
        seq![]
    } else {
        add_keys(key_union(arr.drop_last()), object_keys(arr.last()))
    }
}

/// The cell of column `k` for element `el`: the member named `k`, or nothing.
pub open spec fn column_cell(el: Json, k: Seq<char>) -> Seq<char> {
    match el {
        Json::Object(o) => match member_value(members_view(o@), k) {
            Some(x) => cell(x),
            None => seq![],
        },
        _ => seq![],
    }
}

/// The row of element `el` under the columns `keys`.
pub open spec fn object_row(el: Json, keys: Seq<Seq<char>>) -> Seq<Seq<char>> {
    keys.map_values(|k: Seq<char>| column_cell(el, k))
}

/// The first six names of `names` (all of them when there are fewer).
pub open spec fn at_most_six(names: Seq<Seq<char>>) -> Seq<Seq<char>> {
    if names.len() > 6 {
        names.take(6)
    } else {
        names
    }
}

/// A table: headers and rows of cell texts.
pub type TableView = (Seq<Seq<char>>, Seq<Seq<Seq<char>>>);

/// The table of a JSON value.
/// - A list (see [`array_of`]) that is empty gives no headers and no rows.
/// - A list whose elements include objects gives one column per member name
///   (the ordered union, first six names) and one row per element.
/// - A list of scalars gives the columns `#` and `value`, a row per element
///   with its position.
/// - An object that is not a list gives `key` and `value`, a row per member;
///   an empty object gives nothing.
/// - Any other value gives one `value` cell.
pub open spec fn table_of(v: Json) -> TableView {
    match array_of(v) {
        Some(arr) => if arr.len() == 0 {
            (seq![], seq![])
        } else if key_union(arr).len() == 0 {
            (
                seq!["#"@, "value"@],
                Seq::new(arr.len(), |i: int| seq![decimal(i as nat), cell(arr[i])]),
            )
        } else {
            let keys = at_most_six(key_union(arr));
            (keys, arr.map_values(|el: Json| object_row(el, keys)))
        },
        None => match v {
            Json::Object(o) => if o@.len() == 0 {
                (seq![], seq![])
            } else {
                (
                    seq!["key"@, "value"@],
                    o@.map_values(|m: (String, Json)| seq![m.0@, cell(m.1)]),
                )
            },
            _ => (seq!["value"@], seq![seq![cell(v)]]),
        },
    }
}

/// The characters of every cell of every row.
pub open spec fn rows_view(rows: Seq<Vec<String>>) -> Seq<Seq<Seq<char>>> {
    rows.map_values(|r: Vec<String>| texts(r@))
}

/// The largest character count in column `i` over `rows`, at least `base`.
pub open spec fn column_max(rows: Seq<Seq<Seq<char>>>, i: int, base: nat) -> nat
    decreases rows.len(),
{
    if rows.len() == 0 {
        base
    } else {
        let m = column_max(rows.drop_last(), i, base);
        if i < rows.last().len() && rows.last()[i].len() > m {
            rows.last()[i].len()
        } else {
            m
        }
    }
}

/// `w` limited to the range 6..=28.
pub open spec fn clamp_width(w: nat) -> nat {
    if w < 6 {
        6
    } else if w > 28 {
        28
    } else {
        w
    }
}

/// The width of column `i`: the widest of its header and its cells in the
/// first 80 rows, limited to 6..=28.
pub open spec fn column_width(headers: Seq<Seq<char>>, rows: Seq<Seq<Seq<char>>>, i: int) -> nat {
    let shown = if rows.len() > 80 { rows.take(80) } else { rows };
    clamp_width(column_max(shown, i, headers[i].len()))
}

// ---------------------------------------------------------------------------
// Lemmas
// ---------------------------------------------------------------------------

/// `add_keys` only appends, and appends only names it does not hold yet.
proof fn lemma_add_keys_grows(acc: Seq<Seq<char>>, ks: Seq<Seq<char>>)
    ensures
        add_keys(acc, ks).len() >= acc.len(),
        forall|i: int| 0 <= i < acc.len() ==> add_keys(acc, ks)[i] == acc[i],
    decreases ks.len(),
{
    if ks.len() > 0 {
        lemma_add_keys_grows(acc, ks.drop_last());
    }
}

// ---------------------------------------------------------------------------
// Executable functions
// ---------------------------------------------------------------------------

/// The `i`-th wrapper key.
fn wrapper_key(i: usize) -> (k: &'static str)
    requires
        i < 10,
    ensures
        k@ == wrapper_keys()[i as int],
{
    if i == 0 {
        "data"
    } else if i == 1 {
        "models"
    } else if i == 2 {
        "backends"
    } else if i == 3 {
        "jobs"
    } else if i == 4 {
        "galleries"
    } else if i == 5 {
        "tags"
    } else if i == 6 {
        "results"
    } else if i == 7 {
        "items"
    } else if i == 8 {
        "endpoints"
    } else {
        "available"
    }
}

/// First array found in `v`, unwrapping common wrapper objects (`data`, …).
pub fn extract_array(v: &Json) -> (res: Option<&Vec<Json>>)
    ensures
        match res {
            Some(a) => array_of(*v) == Some(a@),
            None => array_of(*v) is None,
        },
{
    match v {
        Json::Array(a) => Some(a),
        Json::Object(o) => {
            for i in 0..10
                invariant
                    *v == Json::Object(*o),
                    first_wrapped(members_view(o@), 0) == first_wrapped(members_view(o@), i as int),
            {
                let k = wrapper_key(i);
                proof {
                    lemma_find_member(members_view(o@), k@);
                }
                match find_key(o, k) {
                    Some(j) => {
                        match &o[j].1 {
                            Json::Array(a) => {
                                return Some(a);
                            },
                            _ => {},
                        }
                    },
                    None => {},
                }
            }
            for j in 0..o.len()
                invariant
                    *v == Json::Object(*o),
                    first_wrapped(members_view(o@), 0) is None,
                    first_array_member(o@, 0) == first_array_member(o@, j as int),
            {
                match &o[j].1 {
                    Json::Array(a) => {
                        return Some(a);
                    },
                    _ => {},
                }
            }
            None
        },
        _ => None,
    }
}

/// `s` cut to at most `max` characters, marking a cut with `…`.
pub fn truncate(s: &str, max: usize) -> (res: String)
    requires
        s@.len() <= max || max >= 1,
    ensures
        res@ == truncated(s@, max as nat),
{
    let cs = chars_of(s);
    let n = cs.len();
    if n <= max {
        owned(s)
    } else {
        let mut t = String::new();
        for i in 0..max - 1
            invariant
                max >= 1,
                max - 1 <= cs@.len(),
                t@ == cs@.take(i as int),
        {
            push_char(&mut t, cs[i]);
            assert(cs@.take(i + 1) =~= cs@.take(i as int).push(cs@[i as int]));
        }
        push_char(&mut t, '…');
        t
    }
}

/// The untruncated text of a cell.
fn cell_raw(v: &Json) -> (res: String)
    ensures
        res@ == cell_text(*v),
{
    match v {
        Json::Null => String::new(),
        Json::String(s) => s.clone(),
        Json::Bool(b) => if *b {
            owned("true")
        } else {
            owned("false")
        },
        Json::Number(n) => n.clone(),
        Json::Array(a) => {
            let mut s = owned("[");
            s.append(decimal_string(a.len()).as_str());
            s.append("]");
            s
        },
        Json::Object(o) => {
            let mut s = owned("{");
            s.append(decimal_string(o.len()).as_str());
            s.append(" fields}");
            s
        },
    }
}

/// The text shown in a table cell for `v`.
pub fn cell_string(v: &Json) -> (res: String)
    ensures
        res@ == cell(*v),
{
    let raw = cell_raw(v);
    truncate(raw.as_str(), 40)
}

/// Whether `keys` holds a text equal to `k`.
fn contains_text(keys: &Vec<String>, k: &str) -> (res: bool)
    ensures
        res == texts(keys@).contains(k@),
{
    for i in 0..keys.len()
        invariant
            forall|j: int| 0 <= j < i ==> (#[trigger] keys@[j])@ != k@,
    {
        if str_eq(keys[i].as_str(), k) {
            assert(texts(keys@)[i as int] == k@);
            return true;
        }
    }
    proof {
        if texts(keys@).contains(k@) {
            let j = choose|j: int| 0 <= j < texts(keys@).len() && texts(keys@)[j] == k@;
            assert(keys@[j]@ == k@);
        }
    }
    false
}

/// The cell of column `k` for element `el`.
fn column_cell_string(el: &Json, k: &str) -> (res: String)
    ensures
        res@ == column_cell(*el, k@),
{
    match el {
        Json::Object(o) => {
            proof {
                lemma_find_member(members_view(o@), k@);
            }
            match find_key(o, k) {
                Some(i) => cell_string(&o[i].1),
                None => String::new(),
            }
        },
        _ => String::new(),
    }
}

/// Convert a JSON value into (headers, rows) for a table (see [`table_of`]).
pub fn json_to_table(v: &Json) -> (res: (Vec<String>, Vec<Vec<String>>))
    ensures
        (texts(res.0@), rows_view(res.1@)) == table_of(*v),
{
    if let Some(arr) = extract_array(v) {
        if arr.len() == 0 {
            let h: Vec<String> = Vec::new();
            let r: Vec<Vec<String>> = Vec::new();
            assert(texts(h@) =~= Seq::<Seq<char>>::empty());
            assert(rows_view(r@) =~= Seq::<Seq<Seq<char>>>::empty());
            return (h, r);
        }
        // Ordered union of object keys.
        let mut keys: Vec<String> = Vec::new();
        for e in 0..arr.len()
            invariant
                texts(keys@) == key_union(arr@.take(e as int)),
        {
            assert(arr@.take(e + 1).drop_last() =~= arr@.take(e as int));
            let ghost before = texts(keys@);
            match &arr[e] {
                Json::Object(o) => {
                    let ghost ks = object_keys(arr@[e as int]);
                    assert(ks.len() == o@.len());
                    for m in 0..o.len()
                        invariant
                            ks == object_keys(arr@[e as int]),
                            ks.len() == o@.len(),
                            arr@[e as int] == Json::Object(*o),
                            texts(keys@) == add_keys(before, ks.take(m as int)),
                    {
                        assert(ks[m as int] == o@[m as int].0@);
                        assert(ks.take(m + 1).drop_last() =~= ks.take(m as int));
                        assert(ks.take(m + 1).last() == ks[m as int]);
                        if !contains_text(&keys, o[m].0.as_str()) {
                            let ghost prev = texts(keys@);
                            keys.push(o[m].0.clone());
                            assert(texts(keys@) =~= prev.push(o@[m as int].0@));
                        }
                    }
                    assert(ks.take(o.len() as int) =~= ks);
                },
                _ => {
                    assert(object_keys(arr@[e as int]) =~= Seq::<Seq<char>>::empty());
                },
            }
        }
        assert(arr@.take(arr.len() as int) =~= arr@);
        if keys.len() == 0 {
            // Array of scalars.
            let mut rows: Vec<Vec<String>> = Vec::new();
            for i in 0..arr.len()
                invariant
                    rows@.len() == i,
                    forall|k: int|
                        0 <= k < i ==> #[trigger] texts(rows@[k]@) == seq![
                            decimal(k as nat),
                            cell(arr@[k]),
                        ],
            {
                let mut row: Vec<String> = Vec::new();
                row.push(decimal_string(i));
                row.push(cell_string(&arr[i]));
                assert(texts(row@) =~= seq![decimal(i as nat), cell(arr@[i as int])]);
                rows.push(row);
            }
            let mut headers: Vec<String> = Vec::new();
            headers.push(owned("#"));
            headers.push(owned("value"));
            assert(texts(headers@) =~= seq!["#"@, "value"@]);
            assert(rows_view(rows@) =~= Seq::new(
                arr@.len(),
                |i: int| seq![decimal(i as nat), cell(arr@[i])],
            ));
            return (headers, rows);
        }
        let ghost full = keys@;
        keys.truncate(6);
        let ghost kv = texts(keys@);
        assert(kv =~= at_most_six(key_union(arr@))) by {
            if full.len() >= 6 {
                assert(keys@ =~= full.subrange(0, 6));
            } else {
                assert(keys@ == full);
            }
        }
        let mut rows: Vec<Vec<String>> = Vec::new();
        for e in 0..arr.len()
            invariant
                kv == texts(keys@),
                rows@.len() == e,
                forall|k: int| 0 <= k < e ==> #[trigger] texts(rows@[k]@) == object_row(arr@[k], kv),
        {
            let mut row: Vec<String> = Vec::new();
            for c in 0..keys.len()
                invariant
                    e < arr@.len(),
                    kv == texts(keys@),
                    row@.len() == c,
                    forall|k: int|
                        0 <= k < c ==> #[trigger] row@[k]@ == column_cell(arr@[e as int], kv[k]),
            {
                row.push(column_cell_string(&arr[e], keys[c].as_str()));
            }
            assert(texts(row@) =~= object_row(arr@[e as int], kv));
            rows.push(row);
        }
        assert(rows_view(rows@) =~= arr@.map_values(|el: Json| object_row(el, kv)));
        return (keys, rows);
    }
    match v {
        Json::Object(o) => {
            if o.len() == 0 {
                let h: Vec<String> = Vec::new();
                let r: Vec<Vec<String>> = Vec::new();
                assert(texts(h@) =~= Seq::<Seq<char>>::empty());
                assert(rows_view(r@) =~= Seq::<Seq<Seq<char>>>::empty());
                return (h, r);
            }
            let mut rows: Vec<Vec<String>> = Vec::new();
            for i in 0..o.len()
                invariant
                    rows@.len() == i,
                    forall|k: int|
                        0 <= k < i ==> #[trigger] texts(rows@[k]@) == seq![o@[k].0@, cell(o@[k].1)],
            {
                let mut row: Vec<String> = Vec::new();
                row.push(o[i].0.clone());
                row.push(cell_string(&o[i].1));
                assert(texts(row@) =~= seq![o@[i as int].0@, cell(o@[i as int].1)]);
                rows.push(row);
            }
            let mut headers: Vec<String> = Vec::new();
            headers.push(owned("key"));
            headers.push(owned("value"));
            assert(texts(headers@) =~= seq!["key"@, "value"@]);
            assert(rows_view(rows@) =~= o@.map_values(
                |m: (String, Json)| seq![m.0@, cell(m.1)],
            ));
            (headers, rows)
        },
        _ => {
            let mut headers: Vec<String> = Vec::new();
            headers.push(owned("value"));
            let mut row: Vec<String> = Vec::new();
            row.push(cell_string(v));
            let mut rows: Vec<Vec<String>> = Vec::new();
            rows.push(row);
            assert(texts(headers@) =~= seq!["value"@]);
            assert(texts(row@) =~= seq![cell(*v)]);
            assert(rows_view(rows@) =~= seq![seq![cell(*v)]]);
            (headers, rows)
        },
    }
}

/// The display width of each column (see [`column_width`]). The available
/// width does not enter the computation.
pub fn compute_widths(headers: &Vec<String>, rows: &Vec<Vec<String>>, _max_width: u16) -> (widths:
    Vec<u16>)
    ensures
        widths@.len() == headers@.len(),
        forall|i: int|
            0 <= i < headers@.len() ==> #[trigger] widths@[i] == column_width(
                texts(headers@),
                rows_view(rows@),
                i,
            ),
{
    let n = headers.len();
    let ghost hv = texts(headers@);
    let ghost rv = rows_view(rows@);
    let mut widths: Vec<usize> = Vec::new();
    for i in 0..n
        invariant
            n == headers@.len(),
            widths@.len() == i,
            forall|k: int| 0 <= k < i ==> #[trigger] widths@[k] == headers@[k]@.len(),
    {
        widths.push(char_count(headers[i].as_str()));
    }
    let shown: usize = if rows.len() > 80 {
        80
    } else {
        rows.len()
    };
    let ghost sv = if rv.len() > 80 {
        rv.take(80)
    } else {
        rv
    };
    assert(sv =~= rv.take(shown as int));
    for r in 0..shown
        invariant
            n == headers@.len(),
            shown <= rows@.len(),
            rv == rows_view(rows@),
            hv == texts(headers@),
            widths@.len() == n,
            forall|k: int|
                0 <= k < n ==> #[trigger] widths@[k] == column_max(rv.take(r as int), k, hv[k].len()),
    {
        let row = &rows[r];
        let ghost before = widths@;
        let limit = if row.len() < n {
            row.len()
        } else {
            n
        };
        for i in 0..limit
            invariant
                n == headers@.len(),
                widths@.len() == n,
                limit <= n,
                limit <= row@.len(),
                *row == rows@[r as int],
                before.len() == n,
                forall|k: int|
                    0 <= k < n ==> #[trigger] widths@[k] as nat == if k < i && k < row@.len()
                        && row@[k]@.len() > before[k] {
                        row@[k]@.len()
                    } else {
                        before[k] as nat
                    },
        {
            let c = char_count(row[i].as_str());
            if c > widths[i] {
                widths.set(i, c);
            }
        }
        proof {
            assert(rv.take(r + 1).drop_last() =~= rv.take(r as int));
            assert(rv.take(r + 1).last() == texts(row@));
            assert forall|k: int| 0 <= k < n implies #[trigger] widths@[k] == column_max(
                rv.take(r + 1),
                k,
                hv[k].len(),
            ) by {
                assert(before[k] == column_max(rv.take(r as int), k, hv[k].len()));
                assert(k < row@.len() ==> texts(row@)[k] == row@[k]@);
                assert(texts(row@).len() == row@.len());
            }
        }
    }
    let mut out: Vec<u16> = Vec::new();
    for i in 0..n
        invariant
            n == headers@.len(),
            widths@.len() == n,
            out@.len() == i,
            forall|k: int| 0 <= k < i ==> #[trigger] out@[k] == clamp_width(widths@[k] as nat),
    {
        let w = widths[i];
        let c: u16 = if w < 6 {
            6
        } else if w > 28 {
            28
        } else {
            w as u16
        };
        out.push(c);
    }
    out
}

} // verus!
