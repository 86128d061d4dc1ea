//! The state of the terminal browser and its transitions. The event loop,
//! the drawing and the HTTP requests are left to the caller, which hands
//! in events and request outcomes and performs the fetches it is asked for.

use vstd::prelude::*;
use crate::actions::{
    Action,
    ActionView,
    actions_view,
    actions_match,
    model_actions,
    backend_actions,
    model_action_table,
    backend_action_table,
    param_names,
};
use crate::discover::{
    Doc,
    Endpoint,
    EndpointView,
    endpoints,
    endpoints_view,
    tags,
    texts,
    doc_endpoints,
    doc_tags,
    endpoint_key,
    is_reordering,
};
use crate::input::InputState;
use crate::json::Json;
use crate::order::{SortKey, key_lt, key_view, keys_view, is_index_permutation, sort_order};
use crate::table::{json_to_table, table_of, rows_view};
use crate::text::{chars_of, concat, decimal, decimal_string, lex_lt, owned, str_eq};

verus! {

broadcast use vstd::string::group_string_axioms;

// ---------------------------------------------------------------------------
// Result panel
// ---------------------------------------------------------------------------

/// What the result panel shows.
#[derive(Clone, Copy, PartialEq, Eq, Structural, Debug)]
pub enum ResultKind {
    Table,
    Error,
    Empty,
}

/// The result panel: a table, an error text, or a placeholder text, with the
/// path that produced it.
pub struct ResultView {
    pub kind: ResultKind,
    pub headers: Vec<String>,
    pub rows: Vec<Vec<String>>,
    pub text: String,
    pub path: String,
}

impl Default for ResultView {
    fn default() -> (res: Self)
        ensures
            res.kind == ResultKind::Empty,
            res.headers@.len() == 0,
            res.rows@.len() == 0,
            res.text@.len() == 0,
            res.path@.len() == 0,
    {
        Self {
            kind: ResultKind::Empty,
            headers: Vec::new(),
            rows: Vec::new(),
            text: String::new(),
            path: String::new(),
        }
    }
}

impl ResultView {
    /// This view shows `value`, fetched from `path`, as a table (see
    /// [`table_of`]); a value that gives neither headers nor rows shows
    /// "No data." instead.
    pub open spec fn shows_table(&self, value: Json, path: Seq<char>) -> bool {
        let t = table_of(value);
        &&& self.path@ == path
        &&& if t.0.len() == 0 && t.1.len() == 0 {
            &&& self.kind == ResultKind::Empty
            &&& self.headers@.len() == 0
            &&& self.rows@.len() == 0
            &&& self.text@ == "No data."@
        } else {
            &&& self.kind == ResultKind::Table
            &&& texts(self.headers@) == t.0
            &&& rows_view(self.rows@) == t.1
            &&& self.text@.len() == 0
        }
    }

    /// This view shows the error text `msg` of a fetch of `path`, with no
    /// headers or rows.
    pub open spec fn shows_error(&self, msg: Seq<char>, path: Seq<char>) -> bool {
        &&& self.path@ == path
        &&& self.kind == ResultKind::Error
        &&& self.text@ == msg
        &&& self.headers@.len() == 0
        &&& self.rows@.len() == 0
    }

    /// Shows `value` as a table (see [`table_of`]); a value that gives neither
    /// headers nor rows shows "No data." instead.
    pub fn set_table(&mut self, value: &Json, path: &str)
        ensures
            final(self).shows_table(*value, path@),
    {
        self.path = owned(path);
        self.text = String::new();
        let (headers, rows) = json_to_table(value);
        if rows.len() == 0 && headers.len() == 0 {
            self.kind = ResultKind::Empty;
            self.headers = Vec::new();
            self.rows = Vec::new();
            self.text = owned("No data.");
        } else {
            self.kind = ResultKind::Table;
            self.headers = headers;
            self.rows = rows;
        }
    }

    /// Shows the error text `msg`.
    pub fn set_error(&mut self, msg: String, path: &str)
        ensures
            final(self).shows_error(msg@, path@),
    {
        self.path = owned(path);
        self.kind = ResultKind::Error;
        self.text = msg;
        self.headers = Vec::new();
        self.rows = Vec::new();
    }
}

// ---------------------------------------------------------------------------
// Application state
// ---------------------------------------------------------------------------

/// The number of tabs: Models, Backends, Endpoints, Tags.
pub const TAB_COUNT: usize = 4;

/// The title of tab `i`.
pub fn tab_name(i: usize) -> (name: &'static str)
    requires
        i < TAB_COUNT,
    ensures
        name@ == tab_names()[i as int],
{
    if i == 0 {
        "Models"
    } else if i == 1 {
        "Backends"
    } else if i == 2 {
        "Endpoints"
    } else {
        "Tags"
    }
}

/// The tab titles, in order.
pub open spec fn tab_names() -> Seq<Seq<char>> {
    seq!["Models"@, "Backends"@, "Endpoints"@, "Tags"@]
}

/// Whether a popup is open.
#[derive(Clone, Copy, PartialEq, Eq, Structural, Debug)]
pub enum Popup {
    Closed,
    Input,
}

/// The browser's state.
pub struct App {
    /// The active tab.
    pub tab: usize,
    pub model_actions: Vec<Action>,
    pub backend_actions: Vec<Action>,
    /// Every `GET` operation of the API description.
    pub endpoint_actions: Vec<Action>,
    pub tags: Vec<String>,
    /// For each tag (same position as in `tags`), its `GET` endpoints as
    /// (path, summary), ordered by path.
    pub tag_endpoints: Vec<Vec<(String, String)>>,
    /// The selected list entry of each tab.
    pub selections: Vec<Option<usize>>,
    pub result: ResultView,
    pub result_scroll: usize,
    pub status: String,
    pub popup: Popup,
    pub input: InputState,
    /// The action awaiting a parameter value, or the fetch to perform.
    pub pending: Option<Action>,
}

/// The status line shown at start.
pub open spec fn help_text() -> Seq<char> {
    "Tab: switch panel  j/k: move  Enter: run  r: refresh  J/K: scroll result  q: quit"@
}

/// The `GET` endpoints among `eps`, in order.
pub open spec fn get_endpoints(eps: Seq<EndpointView>) -> Seq<EndpointView>
    decreases eps.len(),
{
    if eps.len() == 0 {
        seq![]
    } else if eps.last().method == "GET"@ {
        get_endpoints(eps.drop_last()).push(eps.last())
    } else {
        get_endpoints(eps.drop_last())
    }
}

/// The action of a `GET` endpoint: named by its summary, or by its path when
/// it has no summary.
pub open spec fn endpoint_action(e: EndpointView) -> ActionView {
    ActionView {
        name: if e.summary.len() == 0 {
            e.path
        } else {
            e.summary
        },
        method: "GET"@,
        path: e.path,
        params: param_names(e.path),
    }
}

/// How often `t` occurs in `ts`.
pub open spec fn occurrences(ts: Seq<Seq<char>>, t: Seq<char>) -> nat
    decreases ts.len(),
{
    if ts.len() == 0 {
        0
    } else {
        occurrences(ts.drop_last(), t) + if ts.last() == t {
            1nat
        } else {
            0nat
        }
    }
}

/// (path, summary) of each `GET` endpoint of `eps`, once per occurrence of `t`
/// among its tags, in the order of `eps`.
pub open spec fn tagged_entries(eps: Seq<EndpointView>, t: Seq<char>) -> Seq<(Seq<char>, Seq<char>)>
    decreases eps.len(),
{
    if eps.len() == 0 {
        seq![]
    } else {
        let e = eps.last();
        let rest = tagged_entries(eps.drop_last(), t);
        if e.method == "GET"@ {
            rest + Seq::new(occurrences(e.tags, t), |i: int| (e.path, e.summary))
        } else {
            rest
        }
    }
}

/// The characters of (path, summary) pairs.
pub open spec fn pairs_view(v: Seq<(String, String)>) -> Seq<(Seq<char>, Seq<char>)> {
    v.map_values(|p: (String, String)| (p.0@, p.1@))
}

impl App {
    /// The length of the list of tab `t`.
    pub open spec fn list_len_of(&self, t: int) -> nat {
        if t == 0 {
            self.model_actions@.len()
        } else if t == 1 {
            self.backend_actions@.len()
        } else if t == 2 {
            self.endpoint_actions@.len()
        } else if t == 3 {
            self.tags@.len()
        } else {
            0
        }
    }

    /// The state is well formed: one selection per tab, a valid active tab,
    /// and one endpoint list per tag.
    pub open spec fn wf(&self) -> bool {
        &&& self.selections@.len() == TAB_COUNT
        &&& self.tab < TAB_COUNT
        &&& self.tag_endpoints@.len() == self.tags@.len()
    }

    /// The lists of this state come from `doc`: the Endpoints tab holds an
    /// action for each `GET` endpoint of an ordering of the doc's endpoints by
    /// (path, method), each tag lists its `GET` endpoints (as path, summary)
    /// ordered by path, and the tags are the doc's tags, strictly sorted.
    pub open spec fn lists_from(&self, doc: &Doc) -> bool {
        &&& exists|eps: Seq<EndpointView>|
            {
                &&& is_reordering(eps, doc_endpoints(doc.paths@))
                &&& forall|a: int, b: int|
                    0 <= a < b < eps.len() ==> !key_lt(
                        endpoint_key(#[trigger] eps[b]),
                        endpoint_key(#[trigger] eps[a]),
                    )
                &&& actions_view(self.endpoint_actions@) == get_endpoints(eps).map_values(
                    |e: EndpointView| endpoint_action(e),
                )
                &&& forall|i: int|
                    0 <= i < self.tags@.len() ==> is_reordering(
                        pairs_view(#[trigger] self.tag_endpoints@[i]@),
                        tagged_entries(eps, self.tags@[i]@),
                    )
            }
        &&& forall|i: int, j: int|
            0 <= i < self.tags@.len() && 0 <= j < self.tag_endpoints@[i]@.len() - 1 ==> !lex_lt(
                #[trigger] self.tag_endpoints@[i]@[j + 1].0@,
                self.tag_endpoints@[i]@[j].0@,
            )
        &&& forall|a: int, b: int|
            0 <= a < b < self.tags@.len() ==> lex_lt(
                #[trigger] self.tags@[a]@,
                #[trigger] self.tags@[b]@,
            )
        &&& forall|t: Seq<char>| texts(self.tags@).contains(t) <==> doc_tags(doc.paths@).contains(t)
    }

    /// Every selection points into its tab's list.
    pub open spec fn selections_in_range(&self) -> bool {
        forall|t: int|
            0 <= t < TAB_COUNT ==> match #[trigger] self.selections@[t] {
                Some(i) => i < self.list_len_of(t),
                None => true,
            }
    }
}

/// The actions of the `GET` endpoints among `eps`.
fn get_endpoint_actions(eps: &Vec<Endpoint>) -> (res: Vec<Action>)
    ensures
        actions_view(res@) == get_endpoints(endpoints_view(eps@)).map_values(
            |e: EndpointView| endpoint_action(e),
        ),
{
    let ghost ev = endpoints_view(eps@);
    let mut out: Vec<Action> = Vec::new();
    for i in 0..eps.len()
        invariant
            ev == endpoints_view(eps@),
            actions_view(out@) == get_endpoints(ev.take(i as int)).map_values(
                |e: EndpointView| endpoint_action(e),
            ),
    {
        let e = &eps[i];
        assert(ev.take(i + 1).drop_last() =~= ev.take(i as int));
        assert(ev.take(i + 1).last() == e@);
        if str_eq(e.method.as_str(), "GET") {
            let name = if str_eq(e.summary.as_str(), "") {
                proof {
                    reveal_strlit("");
                }
                e.path.clone()
            } else {
                proof {
                    reveal_strlit("");
                    if e.summary@.len() == 0 {
                        assert(e.summary@ =~= ""@);
                    }
                }
                e.summary.clone()
            };
            let a = Action::get(name.as_str(), e.path.as_str());
            let ghost prev = actions_view(out@);
            out.push(a);
            assert(actions_view(out@) =~= prev.push(endpoint_action(e@)));
        }
    }
    assert(ev.take(eps.len() as int) =~= ev);
    out
}

/// How often `t` occurs among `ts`.
fn count_occurrences(ts: &Vec<String>, t: &str) -> (n: usize)
    ensures
        n == occurrences(texts(ts@), t@),
{
    let ghost tv = texts(ts@);
    let mut n: usize = 0;
    for i in 0..ts.len()
        invariant
            tv == texts(ts@),
            n == occurrences(tv.take(i as int), t@),
            n <= i,
    {
        assert(tv.take(i + 1).drop_last() =~= tv.take(i as int));
        if str_eq(ts[i].as_str(), t) {
            n = n + 1;
        }
    }
    assert(tv.take(ts.len() as int) =~= tv);
    n
}

/// The endpoints listed under tag `t`, ordered by path (a stable sort).
fn tag_entries(eps: &Vec<Endpoint>, t: &str) -> (res: Vec<(String, String)>)
    ensures
        is_reordering(pairs_view(res@), tagged_entries(endpoints_view(eps@), t@)),
        forall|a: int, b: int|
            0 <= a < b < res@.len() ==> !lex_lt(#[trigger] res@[b].0@, #[trigger] res@[a].0@),
{
    let ghost ev = endpoints_view(eps@);
    let mut raw: Vec<(String, String)> = Vec::new();
    for i in 0..eps.len()
        invariant
            ev == endpoints_view(eps@),
            pairs_view(raw@) == tagged_entries(ev.take(i as int), t@),
    {
        let e = &eps[i];
        assert(ev.take(i + 1).drop_last() =~= ev.take(i as int));
        assert(ev.take(i + 1).last() == e@);
        if str_eq(e.method.as_str(), "GET") {
            let n = count_occurrences(&e.tags, t);
            let ghost before = pairs_view(raw@);
            for k in 0..n
                invariant
                    pairs_view(raw@) == before + Seq::new(k as nat, |j: int| (e.path@, e.summary@)),
            {
                let ghost prev = pairs_view(raw@);
                raw.push((e.path.clone(), e.summary.clone()));
                assert(pairs_view(raw@) =~= prev.push((e.path@, e.summary@)));
                assert(pairs_view(raw@) =~= before + Seq::new(
                    (k + 1) as nat,
                    |j: int| (e.path@, e.summary@),
                ));
            }
        }
    }
    assert(ev.take(eps.len() as int) =~= ev);
    let ghost rv = pairs_view(raw@);
    let mut keys: Vec<SortKey> = Vec::new();
    for i in 0..raw.len()
        invariant
            keys@.len() == i,
            forall|k: int|
                0 <= k < i ==> #[trigger] keys_view(keys@)[k] == (raw@[k].0@, Seq::<char>::empty()),
    {
        let ghost prev = keys_view(keys@);
        let key: SortKey = (chars_of(raw[i].0.as_str()), Vec::new());
        keys.push(key);
        assert(keys_view(keys@) =~= prev.push(key_view(key)));
    }
    let p = sort_order(&keys);
    let ghost ks = keys_view(keys@);
    let mut out: Vec<(String, String)> = Vec::new();
    for k in 0..p.len()
        invariant
            p@.len() == raw@.len(),
            forall|m: int| 0 <= m < p@.len() ==> #[trigger] p@[m] < raw@.len(),
            out@.len() == k,
            forall|m: int|
                0 <= m < k ==> (#[trigger] out@[m]).0@ == raw@[p@[m] as int].0@ && out@[m].1@
                    == raw@[p@[m] as int].1@,
    {
        let pair = &raw[p[k]];
        out.push((pair.0.clone(), pair.1.clone()));
    }
    proof {
        let ov = pairs_view(out@);
        assert forall|m: int| 0 <= m < ov.len() implies #[trigger] ov[m] == rv[p@[m] as int] by {}
        assert(is_index_permutation(p@, rv.len()));
        assert(is_reordering(ov, rv));
        assert forall|a: int, b: int| 0 <= a < b < out@.len() implies !lex_lt(
            #[trigger] out@[b].0@,
            #[trigger] out@[a].0@,
        ) by {
            assert(ks[p@[a] as int] == (raw@[p@[a] as int].0@, Seq::<char>::empty()));
            assert(ks[p@[b] as int] == (raw@[p@[b] as int].0@, Seq::<char>::empty()));
            assert(!key_lt(ks[p@[b] as int], ks[p@[a] as int]));
        }
    }
    out
}

impl App {
    /// The initial state for the API description `doc`: the fixed model and
    /// backend actions, an action for every `GET` endpoint, every tag with its
    /// `GET` endpoints, the first entry of each non-empty list selected, and
    /// the key help in the status line.
    pub fn new(doc: &Doc) -> (app: Self)
        ensures
            app.wf(),
            app.selections_in_range(),
            app.tab == 0,
            actions_match(actions_view(app.model_actions@), model_action_table()),
            actions_match(actions_view(app.backend_actions@), backend_action_table()),
            app.lists_from(doc),
            forall|t: int|
                0 <= t < TAB_COUNT ==> (#[trigger] app.selections@[t] == if app.list_len_of(t) > 0 {
                    Some(0usize)
                } else {
                    None
                }),
            app.result.kind == ResultKind::Empty,
            app.result.text@.len() == 0,
            app.result.path@.len() == 0,
            app.result_scroll == 0,
            app.status@ == help_text(),
            app.popup == Popup::Closed,
            app.input.value@.len() == 0,
            app.input.cursor == 0,
            app.pending is None,
    {
        let model = model_actions();
        let backend = backend_actions();
        let eps = endpoints(doc);
        let endpoint_actions = get_endpoint_actions(&eps);
        let tag_list = tags(doc);
        let mut tag_eps: Vec<Vec<(String, String)>> = Vec::new();
        for i in 0..tag_list.len()
            invariant
                tag_eps@.len() == i,
                forall|k: int|
                    0 <= k < i ==> is_reordering(
                        pairs_view(#[trigger] tag_eps@[k]@),
                        tagged_entries(endpoints_view(eps@), tag_list@[k]@),
                    ),
                forall|k: int, j: int|
                    0 <= k < i && 0 <= j < tag_eps@[k]@.len() - 1 ==> !lex_lt(
                        #[trigger] tag_eps@[k]@[j + 1].0@,
                        tag_eps@[k]@[j].0@,
                    ),
        {
            let entries = tag_entries(&eps, tag_list[i].as_str());
            assert forall|j: int| 0 <= j < entries@.len() - 1 implies !lex_lt(
                #[trigger] entries@[j + 1].0@,
                entries@[j].0@,
            ) by {
                assert(!lex_lt(entries@[j + 1].0@, entries@[j].0@));
            }
            tag_eps.push(entries);
        }
        let lens: [usize; 4] = [model.len(), backend.len(), endpoint_actions.len(), tag_list.len()];
        let mut selections: Vec<Option<usize>> = Vec::new();
        for t in 0..TAB_COUNT
            invariant
                selections@.len() == t,
                lens@ == seq![model@.len() as usize, backend@.len() as usize, endpoint_actions@.len() as usize, tag_list@.len() as usize],
                forall|k: int|
                    0 <= k < t ==> #[trigger] selections@[k] == if lens@[k] > 0 {
                        Some(0usize)
                    } else {
                        None
                    },
        {
            if lens[t] > 0 {
                selections.push(Some(0));
            } else {
                selections.push(None);
            }
        }
        let app = Self {
            tab: 0,
            model_actions: model,
            backend_actions: backend,
            endpoint_actions: endpoint_actions,
            tags: tag_list,
            tag_endpoints: tag_eps,
            selections: selections,
            result: ResultView::default(),
            result_scroll: 0,
            status: owned(
                "Tab: switch panel  j/k: move  Enter: run  r: refresh  J/K: scroll result  q: quit",
            ),
            popup: Popup::Closed,
            input: InputState::new(String::new()),
            pending: None,
        };
        proof {
            assert forall|t: int| 0 <= t < TAB_COUNT implies (#[trigger] app.selections@[t]
                == if app.list_len_of(t) > 0 {
                Some(0usize)
            } else {
                None
            }) by {
                assert(lens@[t] == app.list_len_of(t));
            }
            let ev = endpoints_view(eps@);
            assert(is_reordering(ev, doc_endpoints(doc.paths@)));
        }
        app
    }
}


// ---------------------------------------------------------------------------
// Keys and events
// ---------------------------------------------------------------------------

/// A key, as far as the browser tells keys apart.
#[derive(Clone, Copy, PartialEq, Eq, Structural, Debug)]
pub enum KeyCode {
    Char(char),
    Enter,
    Esc,
    Backspace,
    Left,
    Right,
    Up,
    Down,
    Tab,
    BackTab,
    PageUp,
    PageDown,
    Other,
}

/// A key press, and whether Control was held.
#[derive(Clone, Copy, PartialEq, Eq, Structural, Debug)]
pub struct KeyPress {
    pub code: KeyCode,
    pub ctrl: bool,
}

/// An input event: a key event (a press, or a release or repeat), pasted
/// text, or anything else.
pub enum Event {
    Key { key: KeyPress, is_press: bool },
    Paste(String),
    Other,
}

/// What the caller does after an event: stop, go on, or perform the pending
/// fetch (see [`App::fetch_path`]) and then go on.
#[derive(Clone, Copy, PartialEq, Eq, Structural, Debug)]
pub enum Step {
    Quit,
    Continue,
    Fetch,
}

// ---------------------------------------------------------------------------
// Transitions
// ---------------------------------------------------------------------------

/// The tab after moving `delta` tabs from `tab`, wrapping at both ends.
pub open spec fn next_tab(tab: usize, delta: i16) -> usize {
    let t = (tab as i16) + delta;
    if t < 0 {
        (TAB_COUNT - 1) as usize
    } else if t >= TAB_COUNT {
        0
    } else {
        t as usize
    }
}

/// The selection after moving `delta` entries from `sel` in a list of `len`
/// entries, computed on `i16` as `move_list` does: clamped to the list
/// whenever its length fits in an `i16`.
pub open spec fn moved_index(sel: Option<usize>, delta: i16, len: usize) -> usize {
    let n = len as i16;
    let start = match sel {
        Some(i) => i,
        None => 0,
    };
    let idx = (start as i16) + delta;
    let idx2 = if idx < 0 {
        0
    } else if idx >= n {
        n - 1
    } else {
        idx
    };
    idx2 as usize
}

/// The scroll position after scrolling `delta` rows from `scroll` over `total`
/// rows with `height` rows visible, computed on `i32` as `scroll_result` does.
pub open spec fn scrolled(scroll: usize, delta: i32, total: usize, height: usize) -> usize {
    let max: usize = if total > height {
        (total - height) as usize
    } else {
        0
    };
    let next = (scroll as i32) + delta;
    let n2 = if next < 0 {
        0
    } else if next > (max as i32) {
        (max as i32) as int
    } else {
        next
    };
    n2 as usize
}

/// The number of rows the result panel scrolls over: the table's rows, or
/// the lines of the text.
pub open spec fn result_total(r: ResultView) -> usize {
    if r.kind == ResultKind::Table {
        r.rows@.len() as usize
    } else {
        crate::text::line_count(r.text@) as usize
    }
}

/// The action for a fetch of `path`.
pub open spec fn fetch_action(path: Seq<char>) -> ActionView {
    ActionView { name: seq![], method: "GET"@, path: path, params: seq![] }
}

/// The status line while `path` is being fetched.
pub open spec fn fetching_status(path: Seq<char>) -> Seq<char> {
    "GET "@ + path + " …"@
}

/// The status line after `path` answered with a table of `rows` rows.
pub open spec fn ok_status(path: Seq<char>, rows: nat) -> Seq<char> {
    "OK   GET "@ + path + "  ("@ + decimal(rows) + " rows)"@
}

/// The status line after a failed fetch of `path`.
pub open spec fn fail_status(path: Seq<char>) -> Seq<char> {
    "FAIL GET "@ + path
}

/// The status line asking for a parameter.
pub open spec fn prompt_status(param: Seq<char>) -> Seq<char> {
    "Enter value for parameter: "@ + param
}

/// The status line after the popup was cancelled.
pub open spec fn cancelled_status() -> Seq<char> {
    "Cancelled."@
}

/// The path of a template action with its first parameter filled in.
pub open spec fn filled_path(a: ActionView, value: Seq<char>) -> Seq<char> {
    crate::text::replaced_first(a.path, "{"@ + a.params[0] + "}"@, value)
}

impl App {
    /// The length of the active tab's list.
    pub open spec fn active_len(&self) -> usize {
        self.list_len_of(self.tab as int) as usize
    }

    /// The selection of the active tab.
    pub open spec fn active_selection(&self) -> Option<usize> {
        self.selections@[self.tab as int]
    }

    /// The action selected on the active tab, if any (the Tags tab has none).
    pub open spec fn selected_action(&self) -> Option<ActionView> {
        match self.active_selection() {
            Some(i) => if self.tab == 0 && i < self.model_actions@.len() {
                Some(self.model_actions@[i as int]@)
            } else if self.tab == 1 && i < self.backend_actions@.len() {
                Some(self.backend_actions@[i as int]@)
            } else if self.tab == 2 && i < self.endpoint_actions@.len() {
                Some(self.endpoint_actions@[i as int]@)
            } else {
                None
            },
            None => None,
        }
    }

    /// `next` is `self` after `switch_tab(delta)`.
    pub open spec fn switched_tab(&self, next: App, delta: i16) -> bool {
        next == App { tab: next_tab(self.tab, delta), result_scroll: 0, ..*self }
    }

    /// Whether `move_list(delta)` may be called: the `i16` sum does not overflow.
    pub open spec fn can_move_list(&self, delta: i16) -> bool {
        let start = match self.active_selection() {
            Some(i) => i,
            None => 0,
        };
        let n = self.active_len() as i16;
        let idx = (start as i16) + delta;
        n == 0 || (-0x8000 <= idx <= 0x7fff && (idx < 0 || n != -0x8000))
    }

    /// `next` is `self` after `move_list(delta)`.
    pub open spec fn moved_list(&self, next: App, delta: i16) -> bool {
        if (self.active_len() as i16) == 0 {
            next == *self
        } else {
            &&& next.selections@ == self.selections@.update(
                self.tab as int,
                Some(moved_index(self.active_selection(), delta, self.active_len())),
            )
            &&& next == App {
                selections: next.selections,
                result_scroll: if self.tab == 3 {
                    0
                } else {
                    self.result_scroll
                },
                ..*self
            }
        }
    }

    /// Whether `scroll_result(delta, _)` may be called: the `i32` sum does not overflow.
    pub open spec fn can_scroll(&self, delta: i32) -> bool {
        -0x8000_0000 <= (self.result_scroll as i32) + delta <= 0x7fff_ffff
    }

    /// The number of rows the result panel scrolls over: on the Tags tab the
    /// selected tag's endpoints (none without a selection), else those of
    /// the last result.
    pub open spec fn scroll_total(&self) -> usize {
        if self.tab == 3 {
            match self.active_selection() {
                Some(i) => if i < self.tag_endpoints@.len() {
                    self.tag_endpoints@[i as int]@.len() as usize
                } else {
                    0
                },
                None => 0,
            }
        } else {
            result_total(self.result)
        }
    }

    /// `next` is `self` after the popup was cancelled.
    pub open spec fn cancelled(&self, next: App) -> bool {
        &&& next.status@ == cancelled_status()
        &&& next == App { popup: Popup::Closed, pending: None, status: next.status, ..*self }
    }

    /// `next` is `self` after `scroll_result(delta, height)`.
    pub open spec fn scrolled_result(&self, next: App, delta: i32, height: usize) -> bool {
        next == App {
            result_scroll: scrolled(self.result_scroll, delta, self.scroll_total(), height),
            ..*self
        }
    }

    /// `next` is `self` after `spawn_fetch(path)`.
    pub open spec fn spawned(&self, next: App, path: Seq<char>) -> bool {
        &&& next.status@ == fetching_status(path)
        &&& next.pending is Some
        &&& next.pending->0@ == fetch_action(path)
        &&& next == App { status: next.status, pending: next.pending, result_scroll: 0, ..*self }
    }

    /// `next` is `self` after `run_selected()`: nothing without a selected
    /// action; a fetch of an action without parameters; else the popup asking
    /// for its first parameter.
    pub open spec fn ran_selected(&self, next: App) -> bool {
        match self.selected_action() {
            None => next == *self,
            Some(a) => if a.params.len() == 0 {
                self.spawned(next, a.path)
            } else {
                &&& next.pending is Some
                &&& next.pending->0@ == a
                &&& next.input.label@ == a.params[0]
                &&& next.input.value@.len() == 0
                &&& next.input.cursor == 0
                &&& next.popup == Popup::Input
                &&& next.status@ == prompt_status(a.params[0])
                &&& next == App {
                    pending: next.pending,
                    input: next.input,
                    popup: Popup::Input,
                    status: next.status,
                    ..*self
                }
            },
        }
    }

    /// Whether the key handler may be called with `key` (it would not
    /// overflow).
    pub open spec fn accepts_key(&self, key: KeyPress) -> bool {
        if key.ctrl && key.code == KeyCode::Char('c') {
            true
        } else if self.popup == Popup::Input {
            match key.code {
                KeyCode::Backspace => self.input.can_backspace(),
                KeyCode::Left => self.input.can_move(-1i16),
                KeyCode::Right => self.input.can_move(1i16),
                KeyCode::Char(ch) => (ch == 'q' && !key.ctrl) || self.input.can_insert(),
                _ => true,
            }
        } else {
            match key.code {
                KeyCode::Down | KeyCode::Char('j') => self.can_move_list(1i16),
                KeyCode::Up | KeyCode::Char('k') => self.can_move_list(-1i16),
                KeyCode::PageDown => self.can_move_list(10i16),
                KeyCode::PageUp => self.can_move_list(-10i16),
                KeyCode::Char('J') => self.can_scroll(3i32),
                KeyCode::Char('K') => self.can_scroll(-3i32),
                _ => true,
            }
        }
    }

    /// `next` and `step` are the outcome of the key `key` in state `self`.
    pub open spec fn key_outcome(&self, next: App, key: KeyPress, step: Step) -> bool {
        if key.ctrl && key.code == KeyCode::Char('c') {
            step == Step::Quit && next == *self
        } else if self.popup == Popup::Input {
            &&& step != Step::Quit
            &&& match key.code {
                KeyCode::Esc => step == Step::Continue && self.cancelled(next),
                KeyCode::Enter => match self.pending {
                    Some(a) => if a@.params.len() > 0 {
                        &&& step == Step::Fetch
                        &&& App { popup: Popup::Closed, pending: None, ..*self }.spawned(
                            next,
                            filled_path(a@, self.input.value@),
                        )
                    } else {
                        step == Step::Continue && next == App { pending: None, ..*self }
                    },
                    None => step == Step::Continue && next == *self,
                },
                KeyCode::Backspace => {
                    &&& step == Step::Continue
                    &&& next == App { input: next.input, ..*self }
                    &&& self.input.backspaced(next.input)
                },
                KeyCode::Left => {
                    &&& step == Step::Continue
                    &&& next == App { input: next.input, ..*self }
                    &&& next.input == InputState {
                        cursor: crate::input::moved_cursor(
                            self.input.cursor,
                            -1i16,
                            crate::input::str_len(self.input.value@),
                        ),
                        ..self.input
                    }
                },
                KeyCode::Right => {
                    &&& step == Step::Continue
                    &&& next == App { input: next.input, ..*self }
                    &&& next.input == InputState {
                        cursor: crate::input::moved_cursor(
                            self.input.cursor,
                            1i16,
                            crate::input::str_len(self.input.value@),
                        ),
                        ..self.input
                    }
                },
                KeyCode::Char(ch) => if ch == 'q' && !key.ctrl {
                    step == Step::Continue && self.cancelled(next)
                } else {
                    &&& step == Step::Continue
                    &&& next == App { input: next.input, ..*self }
                    &&& self.input.inserted(next.input, ch)
                },
                _ => step == Step::Continue && next == *self,
            }
        } else {
            match key.code {
                KeyCode::Char('q') | KeyCode::Esc => step == Step::Quit && next == *self,
                KeyCode::Tab => step == Step::Continue && self.switched_tab(next, 1i16),
                KeyCode::BackTab => step == Step::Continue && self.switched_tab(next, -1i16),
                KeyCode::Char('1') => step == Step::Continue && next == App { tab: 0, ..*self },
                KeyCode::Char('2') => step == Step::Continue && next == App { tab: 1, ..*self },
                KeyCode::Char('3') => step == Step::Continue && next == App { tab: 2, ..*self },
                KeyCode::Char('4') => step == Step::Continue && next == App { tab: 3, ..*self },
                KeyCode::Down | KeyCode::Char('j') => step == Step::Continue && self.moved_list(
                    next,
                    1i16,
                ),
                KeyCode::Up | KeyCode::Char('k') => step == Step::Continue && self.moved_list(
                    next,
                    -1i16,
                ),
                KeyCode::PageDown => step == Step::Continue && self.moved_list(next, 10i16),
                KeyCode::PageUp => step == Step::Continue && self.moved_list(next, -10i16),
                KeyCode::Char('J') => step == Step::Continue && self.scrolled_result(next, 3i32, 20),
                KeyCode::Char('K') => step == Step::Continue && self.scrolled_result(next, -3i32, 20),
                KeyCode::Enter => if self.tab != 3 {
                    &&& self.ran_selected(next)
                    &&& step == if next.popup == Popup::Closed {
                        Step::Fetch
                    } else {
                        Step::Continue
                    }
                } else {
                    step == Step::Continue && next == *self
                },
                KeyCode::Char('r') => match self.selected_action() {
                    Some(a) => if self.tab != 3 && a.params.len() == 0 {
                        step == Step::Fetch && self.spawned(next, a.path)
                    } else {
                        step == Step::Continue && next == *self
                    },
                    None => step == Step::Continue && next == *self,
                },
                _ => step == Step::Continue && next == *self,
            }
        }
    }
}


impl App {
    /// The length of the active tab's list.
    pub fn list_len(&self) -> (n: usize)
        ensures
            n == self.list_len_of(self.tab as int),
    {
        if self.tab == 0 {
            self.model_actions.len()
        } else if self.tab == 1 {
            self.backend_actions.len()
        } else if self.tab == 2 {
            self.endpoint_actions.len()
        } else if self.tab == 3 {
            self.tags.len()
        } else {
            0
        }
    }

    /// The selection of the active tab.
    pub fn selected(&self) -> (sel: Option<usize>)
        requires
            self.wf(),
        ensures
            sel == self.active_selection(),
    {
        self.selections[self.tab]
    }

    /// Moves the active tab's selection by `delta` entries, within the list;
    /// on the Tags tab the right panel scrolls back to the top.
    pub fn move_list(&mut self, delta: i16)
        requires
            old(self).wf(),
            old(self).can_move_list(delta),
        ensures
            old(self).moved_list(*final(self), delta),
    {
        let n = self.list_len() as i16;
        if n == 0 {
            return;
        }
        let start = match self.selected() {
            Some(i) => i,
            None => 0,
        };
        let mut idx = start as i16 + delta;
        if idx < 0 {
            idx = 0;
        } else if idx >= n {
            idx = n - 1;
        }
        let t = self.tab;
        self.selections.set(t, Some(idx as usize));
        // For the Tags tab the right panel follows the selection.
        if self.tab == 3 {
            self.result_scroll = 0;
        }
    }

    /// Moves `delta` tabs on, wrapping around, and scrolls the result to the top.
    pub fn switch_tab(&mut self, delta: i16)
        requires
            old(self).wf(),
            -0x8000 <= old(self).tab + delta <= 0x7fff,
        ensures
            old(self).switched_tab(*final(self), delta),
    {
        let n = TAB_COUNT as i16;
        let mut t = self.tab as i16 + delta;
        if t < 0 {
            t = n - 1;
        } else if t >= n {
            t = 0;
        }
        self.tab = t as usize;
        self.result_scroll = 0;
    }

    /// The action selected on the current tab, if any.
    pub fn current_action(&self) -> (res: Option<Action>)
        requires
            self.wf(),
        ensures
            match res {
                Some(a) => self.selected_action() == Some(a@),
                None => self.selected_action() is None,
            },
    {
        let idx = match self.selected() {
            Some(i) => i,
            None => {
                return None;
            },
        };
        if self.tab == 0 && idx < self.model_actions.len() {
            Some(self.model_actions[idx].copy())
        } else if self.tab == 1 && idx < self.backend_actions.len() {
            Some(self.backend_actions[idx].copy())
        } else if self.tab == 2 && idx < self.endpoint_actions.len() {
            Some(self.endpoint_actions[idx].copy())
        } else {
            None
        }
    }

    /// Records a fetch of `path` to perform: the status shows it and the
    /// result scrolls to the top.
    pub fn spawn_fetch(&mut self, path: String)
        ensures
            old(self).spawned(*final(self), path@),
    {
        self.status = concat(concat("GET ", path.as_str()).as_str(), " …");
        let action = Action {
            name: String::new(),
            method: owned("GET"),
            path: path,
            params: Vec::new(),
        };
        assert(action@ == fetch_action(path@)) by {
            assert(texts(action.params@) =~= Seq::<Seq<char>>::empty());
        }
        self.pending = Some(action);
        self.result_scroll = 0;
    }

    /// Runs the selected action: an action without parameters is fetched at
    /// once, one with parameters opens the popup for its first parameter.
    pub fn run_selected(&mut self)
        requires
            old(self).wf(),
        ensures
            old(self).ran_selected(*final(self)),
    {
        let action = match self.current_action() {
            Some(a) => a,
            None => {
                return;
            },
        };
        if action.params.len() == 0 {
            // No parameters needed: fire immediately.
            let path = action.path.clone();
            self.spawn_fetch(path);
        } else {
            // Prompt for the (single) path parameter.
            let label = action.params[0].clone();
            self.pending = Some(action);
            self.input = InputState::new(label);
            self.popup = Popup::Input;
            self.status = concat("Enter value for parameter: ", self.input.label.as_str());
        }
    }

    /// The path of the fetch to perform, if one is pending.
    pub fn fetch_path(&self) -> (path: Option<String>)
        ensures
            match path {
                Some(p) => self.pending is Some && p@ == self.pending->0.path@,
                None => self.pending is None,
            },
    {
        match &self.pending {
            Some(a) => Some(a.path.clone()),
            None => None,
        }
    }

    /// Records the outcome of the pending fetch: the response as a table and
    /// `OK … (N rows)`, or the error text and `FAIL …`; nothing is pending
    /// after. Without a pending fetch nothing changes.
    pub fn finish_fetch(&mut self, outcome: Result<Json, String>)
        ensures
            old(self).pending is None ==> *final(self) == *old(self),
            old(self).pending is Some ==> {
                let path = old(self).pending->0.path@;
                &&& match outcome {
                    Ok(v) => {
                        &&& final(self).result.shows_table(v, path)
                        &&& final(self).status@ == ok_status(path, final(self).result.rows@.len())
                    },
                    Err(msg) => {
                        &&& final(self).result.shows_error(msg@, path)
                        &&& final(self).status@ == fail_status(path)
                    },
                }
                &&& *final(self) == App {
                    pending: None,
                    result: final(self).result,
                    status: final(self).status,
                    ..*old(self)
                }
            },
    {
        let path = match &self.pending {
            Some(a) => a.path.clone(),
            None => {
                return;
            },
        };
        match outcome {
            Ok(v) => {
                self.result.set_table(&v, path.as_str());
                let mut status = concat("OK   GET ", path.as_str());
                status.append("  (");
                status.append(decimal_string(self.result.rows.len()).as_str());
                status.append(" rows)");
                self.status = status;
                self.pending = None;
            },
            Err(e) => {
                self.result.set_error(e, path.as_str());
                self.status = concat("FAIL GET ", path.as_str());
                self.pending = None;
            },
        }
    }

    /// Scrolls the result panel by `delta` rows, within what it shows (on the
    /// Tags tab, the selected tag's endpoints), with `height` rows visible.
    pub fn scroll_result(&mut self, delta: i32, height: usize)
        requires
            old(self).wf(),
            old(self).can_scroll(delta),
        ensures
            old(self).scrolled_result(*final(self), delta, height),
    {
        let total = if self.tab == 3 {
            match self.selected() {
                Some(i) => if i < self.tag_endpoints.len() {
                    self.tag_endpoints[i].len()
                } else {
                    0
                },
                None => 0,
            }
        } else if self.result.kind == ResultKind::Table {
            self.result.rows.len()
        } else {
            crate::text::count_lines(self.result.text.as_str())
        };
        let max = if total > height {
            total - height
        } else {
            0
        };
        let mut next = self.result_scroll as i32 + delta;
        if next < 0 {
            next = 0;
        } else if next > max as i32 {
            next = max as i32;
        }
        self.result_scroll = next as usize;
    }

    /// Whether `handle_key(key)` may be called in this state.
    pub fn key_allowed(&self, key: KeyPress) -> (res: bool)
        requires
            self.wf(),
        ensures
            res == self.accepts_key(key),
    {
        if key.ctrl && key.code == KeyCode::Char('c') {
            return true;
        }
        if self.popup == Popup::Input {
            match key.code {
                KeyCode::Backspace => self.input.cursor <= self.input.value.as_str().as_bytes().len(),
                KeyCode::Left => (self.input.cursor as i16).checked_add(-1).is_some(),
                KeyCode::Right => (self.input.cursor as i16).checked_add(1).is_some(),
                KeyCode::Char(ch) => (ch == 'q' && !key.ctrl)
                    || self.input.value.as_str().is_char_boundary(self.input.cursor),
                _ => true,
            }
        } else {
            let n = self.list_len() as i16;
            let start = match self.selected() {
                Some(i) => i,
                None => 0,
            };
            let s = start as i16;
            let r = self.result_scroll as i32;
            let delta: i16 = match key.code {
                KeyCode::Down | KeyCode::Char('j') => 1,
                KeyCode::Up | KeyCode::Char('k') => -1,
                KeyCode::PageDown => 10,
                KeyCode::PageUp => -10,
                _ => 0,
            };
            match key.code {
                KeyCode::Down | KeyCode::Char('j') | KeyCode::Up | KeyCode::Char('k')
                | KeyCode::PageDown | KeyCode::PageUp => n == 0 || match s.checked_add(delta) {
                    Some(idx) => idx < 0 || n != i16::MIN,
                    None => false,
                },
                KeyCode::Char('J') => r.checked_add(3).is_some(),
                KeyCode::Char('K') => r.checked_add(-3).is_some(),
                _ => true,
            }
        }
    }

    /// Handles a key press (see [`App::key_outcome`]). Control-C quits. While
    /// the popup is open it takes every key: Esc or q cancels, Enter fills the
    /// parameter into the path and fetches, other keys edit the value. Else
    /// the keys switch tabs, move the selection, scroll the result, run or
    /// refresh the selected action, or quit.
    pub fn handle_key(&mut self, key: KeyPress) -> (step: Step)
        requires
            old(self).wf(),
            old(self).accepts_key(key),
        ensures
            final(self).wf(),
            old(self).key_outcome(*final(self), key, step),
    {
        if key.ctrl && key.code == KeyCode::Char('c') {
            return Step::Quit;
        }
        // Input popup takes all keys.
        if self.popup == Popup::Input {
            // Esc, and q typed without Control, cancel the popup.
            if key.code == KeyCode::Esc || (key.code == KeyCode::Char('q') && !key.ctrl) {
                self.popup = Popup::Closed;
                self.pending = None;
                self.status = owned("Cancelled.");
                return Step::Continue;
            }
            match key.code {
                KeyCode::Enter => {
                    let value = self.input.value.clone();
                    match self.pending.take() {
                        Some(action) => {
                            if action.params.len() > 0 {
                                let mut pattern = owned("{");
                                pattern.append(action.params[0].as_str());
                                pattern.append("}");
                                let path = crate::text::replace_first(
                                    action.path.as_str(),
                                    pattern.as_str(),
                                    value.as_str(),
                                );
                                self.popup = Popup::Closed;
                                self.spawn_fetch(path);
                                return Step::Fetch;
                            }
                        },
                        None => {},
                    }
                },
                KeyCode::Backspace => self.input.backspace(),
                KeyCode::Left => self.input.move_cursor(-1),
                KeyCode::Right => self.input.move_cursor(1),
                KeyCode::Char(ch) => self.input.insert(ch),
                _ => {},
            }
            return Step::Continue;
        }
        match key.code {
            KeyCode::Char('q') | KeyCode::Esc => {
                return Step::Quit;
            },
            KeyCode::Tab => self.switch_tab(1),
            KeyCode::BackTab => self.switch_tab(-1),
            KeyCode::Char('1') => self.tab = 0,
            KeyCode::Char('2') => self.tab = 1,
            KeyCode::Char('3') => self.tab = 2,
            KeyCode::Char('4') => self.tab = 3,
            KeyCode::Down | KeyCode::Char('j') => self.move_list(1),
            KeyCode::Up | KeyCode::Char('k') => self.move_list(-1),
            KeyCode::PageDown => self.move_list(10),
            KeyCode::PageUp => self.move_list(-10),
            KeyCode::Char('J') => self.scroll_result(3, 20),
            KeyCode::Char('K') => self.scroll_result(-3, 20),
            KeyCode::Enter => {
                if self.tab != 3 {
                    self.run_selected();
                    if self.popup == Popup::Closed {
                        return Step::Fetch;
                    }
                }
            },
            KeyCode::Char('r') => {
                if self.tab != 3 {
                    match self.current_action() {
                        Some(a) => {
                            if a.params.len() == 0 {
                                self.spawn_fetch(a.path);
                                return Step::Fetch;
                            }
                        },
                        None => {},
                    }
                }
            },
            _ => {},
        }
        Step::Continue
    }

    /// Handles an input event: key presses go to [`App::handle_key`] (other
    /// key events are ignored), pasted text goes into the open popup.
    pub fn handle_event(&mut self, event: Event) -> (step: Step)
        requires
            old(self).wf(),
            match event {
                Event::Key { key, is_press } => is_press ==> old(self).accepts_key(key),
                _ => true,
            },
        ensures
            final(self).wf(),
            match event {
                Event::Key { key, is_press } => if is_press {
                    old(self).key_outcome(*final(self), key, step)
                } else {
                    step == Step::Continue && *final(self) == *old(self)
                },
                Event::Paste(text) => {
                    &&& step == Step::Continue
                    &&& (old(self).popup == Popup::Input ==> {
                        &&& final(self).input.label == old(self).input.label
                        &&& final(self).input.value@ == old(self).input.value@ + text@
                        &&& final(self).input.cursor == crate::input::str_len(
                            final(self).input.value@,
                        )
                        &&& *final(self) == App { input: final(self).input, ..*old(self) }
                    })
                    &&& (old(self).popup == Popup::Closed ==> *final(self) == *old(self))
                },
                Event::Other => step == Step::Continue && *final(self) == *old(self),
            },
    {
        match event {
            Event::Key { key, is_press } => {
                if !is_press {
                    return Step::Continue;
                }
                self.handle_key(key)
            },
            Event::Paste(text) => {
                if self.popup == Popup::Input {
                    self.input.paste(text.as_str());
                }
                Step::Continue
            },
            Event::Other => Step::Continue,
        }
    }
}

} // verus!
