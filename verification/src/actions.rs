//! Actions of the terminal browser: fixed descriptions of `GET` calls, with
//! the names of the path-template parameters they need.

use vstd::prelude::*;
use crate::text::{chars_of, owned, string_of};
use crate::discover::texts;

verus! {

broadcast use vstd::string::group_string_axioms;

/// A `GET` call the browser can make.
#[derive(Clone, Debug)]
pub struct Action {
    pub name: String,
    pub method: String,
    pub path: String,
    /// Path-template parameter names (e.g. `["uuid"]` for `/models/jobs/{uuid}`).
    pub params: Vec<String>,
}

pub struct ActionView {
    pub name: Seq<char>,
    pub method: Seq<char>,
    pub path: Seq<char>,
    pub params: Seq<Seq<char>>,
}

impl View for Action {
    type V = ActionView;

    open spec fn view(&self) -> ActionView {
        ActionView {
            name: self.name@,
            method: self.method@,
            path: self.path@,
            params: texts(self.params@),
        }
    }
}

/// The view of each action.
pub open spec fn actions_view(v: Seq<Action>) -> Seq<ActionView> {
    v.map_values(|a: Action| a@)
}

/// The index of the first `}` at or after `j`, or the length when there is none.
pub open spec fn closing_brace(s: Seq<char>, j: int) -> int
    decreases s.len() - j,
{
    if j >= s.len() {
        s.len() as int
    } else if s[j] == '}' {
        j
    } else {
        closing_brace(s, j + 1)
    }
}

/// The template parameter names of `s` from position `i` on: each `{` opens
/// a name that runs to the next `}` (or to the end); empty names are skipped.
pub open spec fn params_from(s: Seq<char>, i: int) -> Seq<Seq<char>>
    decreases s.len() + 1 - i,
{
    if i < 0 || i >= s.len() {
        seq![]
    } else if s[i] == '{' {
        proof {
            lemma_closing_brace(s, i + 1);
        }
        let end = closing_brace(s, i + 1);
        let name = s.subrange(i + 1, end);
        if name.len() > 0 {
            seq![name] + params_from(s, end + 1)
        } else {
            params_from(s, end + 1)
        }
    } else {
        params_from(s, i + 1)
    }
}

/// The template parameter names of a path.
pub open spec fn param_names(path: Seq<char>) -> Seq<Seq<char>> {
    params_from(path, 0)
}

/// The closing brace search stays within the text and stops at the first `}`.
pub proof fn lemma_closing_brace(s: Seq<char>, j: int)
    requires
        0 <= j,
    ensures
        j <= closing_brace(s, j) <= s.len() || (j > s.len() && closing_brace(s, j) == s.len()),
        closing_brace(s, j) < s.len() ==> s[closing_brace(s, j)] == '}',
        forall|k: int| j <= k < closing_brace(s, j) ==> s[k] != '}',
    decreases s.len() - j,
{
    if j < s.len() && s[j] != '}' {
        lemma_closing_brace(s, j + 1);
    }
}

/// The names of the `{…}` template parameters of `path`, in order.
pub fn path_param_names(path: &str) -> (res: Vec<String>)
    ensures
        texts(res@) == param_names(path@),
{
    let cs = chars_of(path);
    let mut out: Vec<String> = Vec::new();
    let mut i: usize = 0;
    while i < cs.len()
        invariant
            cs@ == path@,
            i <= cs.len(),
            texts(out@) + params_from(cs@, i as int) == param_names(cs@),
        decreases cs.len() - i,
    {
        let c = cs[i];
        i = i + 1;
        if c == '{' {
            let ghost start = i as int;
            proof {
                lemma_closing_brace(cs@, start);
            }
            let mut name: Vec<char> = Vec::new();
            while i < cs.len() && cs[i] != '}'
                invariant
                    cs@ == path@,
                    1 <= start <= i <= cs.len(),
                    start <= closing_brace(cs@, start),
                    forall|k: int| start <= k < closing_brace(cs@, start) ==> cs@[k] != '}',
                    closing_brace(cs@, start) < cs.len() ==> cs@[closing_brace(cs@, start)] == '}',
                    i <= closing_brace(cs@, start),
                    name@ == cs@.subrange(start, i as int),
                decreases cs.len() - i,
            {
                let ghost old_name = name@;
                name.push(cs[i]);
                assert(name@ == old_name.push(cs@[i as int]));
                assert(start <= i < cs@.len());
                assert(old_name == cs@.subrange(start, i as int));
                assert(name@ =~= cs@.subrange(start, i + 1));
                i = i + 1;
            }
            let ghost end = closing_brace(cs@, start);
            assert(i == end);
            if i < cs.len() {
                // skip the closing brace
                i = i + 1;
            }
            let ghost before = texts(out@);
            if name.len() > 0 {
                out.push(string_of(&name));
                assert(texts(out@) =~= before.push(name@));
                assert(before.push(name@) + params_from(cs@, end + 1) =~= before + (seq![name@]
                    + params_from(cs@, end + 1)));
            }
            assert(params_from(cs@, end + 1) == params_from(cs@, i as int));
        }
    }
    out
}

/// A copy of a list of texts.
fn copy_strings(v: &Vec<String>) -> (res: Vec<String>)
    ensures
        texts(res@) == texts(v@),
{
    let mut out: Vec<String> = Vec::new();
    for i in 0..v.len()
        invariant
            out@.len() == i,
            forall|k: int| 0 <= k < i ==> #[trigger] out@[k]@ == v@[k]@,
    {
        out.push(v[i].clone());
    }
    assert(texts(out@) =~= texts(v@));
    out
}

impl Action {
    /// The `GET` action called `name` on `path`, with the path's template
    /// parameters.
    pub fn get(name: &str, path: &str) -> (res: Self)
        ensures
            res@.name == name@,
            res@.method == "GET"@,
            res@.path == path@,
            res@.params == param_names(path@),
    {
        Self {
            name: owned(name),
            method: owned("GET"),
            path: owned(path),
            params: path_param_names(path),
        }
    }

    /// A copy of this action.
    pub fn copy(&self) -> (res: Self)
        ensures
            res@ == self@,
    {
        Self {
            name: self.name.clone(),
            method: self.method.clone(),
            path: self.path.clone(),
            params: copy_strings(&self.params),
        }
    }
}

/// The names and paths of the model actions, mirroring `models list`,
/// `available`, `galleries`, `jobs` and `job <uuid>`.
pub open spec fn model_action_table() -> Seq<(Seq<char>, Seq<char>)> {
    seq![
        ("List"@, "/v1/models"@),
        ("Available"@, "/models/available"@),
        ("Galleries"@, "/models/galleries"@),
        ("Jobs"@, "/models/jobs"@),
        ("Job by UUID"@, "/models/jobs/{uuid}"@),
    ]
}

/// The names and paths of the backend actions, mirroring the read
/// subcommands of `backends`.
pub open spec fn backend_action_table() -> Seq<(Seq<char>, Seq<char>)> {
    seq![
        ("List"@, "/backends"@),
        ("Available"@, "/backends/available"@),
        ("Known"@, "/backends/known"@),
        ("Galleries"@, "/backends/galleries"@),
        ("Jobs"@, "/backends/jobs"@),
        ("Job by UUID"@, "/backends/jobs/{uuid}"@),
    ]
}

/// `actions` are the `GET` actions named and placed as in `table`.
pub open spec fn actions_match(actions: Seq<ActionView>, table: Seq<(Seq<char>, Seq<char>)>) -> bool {
    &&& actions.len() == table.len()
    &&& forall|i: int|
        0 <= i < actions.len() ==> {
            &&& (#[trigger] actions[i]).name == table[i].0
            &&& actions[i].method == "GET"@
            &&& actions[i].path == table[i].1
            &&& actions[i].params == param_names(table[i].1)
        }
}

/// The actions of the Models tab.
pub fn model_actions() -> (res: Vec<Action>)
    ensures
        actions_match(actions_view(res@), model_action_table()),
{
    let mut v: Vec<Action> = Vec::new();
    v.push(Action::get("List", "/v1/models"));
    v.push(Action::get("Available", "/models/available"));
    v.push(Action::get("Galleries", "/models/galleries"));
    v.push(Action::get("Jobs", "/models/jobs"));
    v.push(Action::get("Job by UUID", "/models/jobs/{uuid}"));
    v
}

/// The actions of the Backends tab.
pub fn backend_actions() -> (res: Vec<Action>)
    ensures
        actions_match(actions_view(res@), backend_action_table()),
{
    let mut v: Vec<Action> = Vec::new();
    v.push(Action::get("List", "/backends"));
    v.push(Action::get("Available", "/backends/available"));
    v.push(Action::get("Known", "/backends/known"));
    v.push(Action::get("Galleries", "/backends/galleries"));
    v.push(Action::get("Jobs", "/backends/jobs"));
    v.push(Action::get("Job by UUID", "/backends/jobs/{uuid}"));
    v
}

} // verus!
