//! The texts the browser's panels show: titles, list entries, the visible
//! window of a table and its footer. Laying them out on screen is the
//! caller's part.

use vstd::prelude::*;
use crate::actions::Action;
use crate::browser::{App, TAB_COUNT, tab_name, tab_names};
use crate::discover::texts;
use crate::table::{truncate, truncated};
use crate::text::{concat, decimal, decimal_string, join, join_strings, owned, pad_right, pad_right_string, str_eq};

verus! {

broadcast use vstd::string::group_string_axioms;

/// The title of tab `i` in the tab bar: its name between spaces.
pub fn tab_title(i: usize) -> (res: String)
    requires
        i < TAB_COUNT,
    ensures
        res@ == " "@ + tab_names()[i as int] + " "@,
{
    let mut s = concat(" ", tab_name(i));
    s.append(" ");
    s
}

/// The title of the list panel of tab `tab`.
pub fn list_title(tab: usize) -> (res: &'static str)
    ensures
        res@ == if tab == 0 {
            " Models "@
        } else if tab == 1 {
            " Backends "@
        } else if tab == 2 {
            " Endpoints (GET) "@
        } else if tab == 3 {
            " Tags "@
        } else {
            " "@
        },
{
    if tab == 0 {
        " Models "
    } else if tab == 1 {
        " Backends "
    } else if tab == 2 {
        " Endpoints (GET) "
    } else if tab == 3 {
        " Tags "
    } else {
        " "
    }
}

/// The pieces of an action's list entry: the method padded to six
/// characters, a space, the name cut to 22 characters, two spaces, the path,
/// and, when the action has parameters, `  ✎` and their names joined by commas.
pub fn action_item_parts(a: &Action) -> (res: Vec<String>)
    ensures
        texts(res@) == seq![
            pad_right(a.method@, 6),
            " "@,
            truncated(a.name@, 22),
            "  "@,
            a.path@,
        ] + if a.params@.len() == 0 {
            Seq::<Seq<char>>::empty()
        } else {
            seq!["  ✎"@ + join(texts(a.params@), ","@)]
        },
{
    let mut parts: Vec<String> = Vec::new();
    parts.push(pad_right_string(a.method.as_str(), 6));
    parts.push(owned(" "));
    parts.push(truncate(a.name.as_str(), 22));
    parts.push(owned("  "));
    parts.push(a.path.clone());
    if a.params.len() > 0 {
        let joined = join_strings(&a.params, ",");
        parts.push(concat("  ✎", joined.as_str()));
    }
    let ghost base = seq![
        pad_right(a.method@, 6),
        " "@,
        truncated(a.name@, 22),
        "  "@,
        a.path@,
    ];
    assert(texts(parts@) =~= base + if a.params@.len() == 0 {
        Seq::<Seq<char>>::empty()
    } else {
        seq!["  ✎"@ + join(texts(a.params@), ","@)]
    });
    parts
}

/// The pieces of an entry of the Endpoints list: the name cut to 26
/// characters, two spaces, and the path.
pub fn endpoint_item_parts(a: &Action) -> (res: Vec<String>)
    ensures
        texts(res@) == seq![truncated(a.name@, 26), "  "@, a.path@],
{
    let mut parts: Vec<String> = Vec::new();
    parts.push(truncate(a.name.as_str(), 26));
    parts.push(owned("  "));
    parts.push(a.path.clone());
    assert(texts(parts@) =~= seq![truncated(a.name@, 26), "  "@, a.path@]);
    parts
}

/// The rows of a table panel `height` lines high that are shown when
/// scrolled to `scroll`: the body holds `height - 2` rows (header and
/// footer), and the window never starts past the last full page.
pub open spec fn table_window_spec(scroll: usize, total: usize, height: u16) -> (usize, usize, usize) {
    let body: int = if height >= 2 {
        height - 2
    } else {
        0
    };
    let page: int = if body >= 1 {
        body
    } else {
        1
    };
    let last: int = if total >= page {
        total - page
    } else {
        0
    };
    let start: int = if scroll <= last {
        scroll as int
    } else {
        last
    };
    let end: int = if start + body <= total {
        start + body
    } else {
        total as int
    };
    (start as usize, end as usize, body as usize)
}

/// First and end row of the visible window of a table (see
/// [`table_window_spec`]), and the number of body rows.
pub fn table_window(scroll: usize, total: usize, height: u16) -> (res: (usize, usize, usize))
    requires
        total + 0x10000 <= usize::MAX,
    ensures
        res == table_window_spec(scroll, total, height),
        res.0 <= res.1 <= total,
{
    let height = height as usize;
    let max_body_rows = height.saturating_sub(2);
    let page = if max_body_rows >= 1 {
        max_body_rows
    } else {
        1
    };
    let start = if scroll < total.saturating_sub(page) {
        scroll
    } else {
        total.saturating_sub(page)
    };
    let end = if start + max_body_rows < total {
        start + max_body_rows
    } else {
        total
    };
    (start, end, max_body_rows)
}

/// The footer of a table: the visible range and the total when the rows do
/// not fit, else the row count.
pub open spec fn table_footer_text(start: usize, end: usize, total: usize, body: usize) -> Seq<char> {
    if total > body {
        " "@ + decimal((start + 1) as nat) + "–"@ + decimal(end as nat) + " of "@ + decimal(
            total as nat,
        ) + " rows "@
    } else {
        " "@ + decimal(total as nat) + " rows "@
    }
}

/// The footer of a table (see [`table_footer_text`]).
pub fn table_footer(start: usize, end: usize, total: usize, body: usize) -> (res: String)
    requires
        start < usize::MAX,
    ensures
        res@ == table_footer_text(start, end, total, body),
{
    if total > body {
        let mut s = concat(" ", decimal_string(start + 1).as_str());
        s.append("–");
        s.append(decimal_string(end).as_str());
        s.append(" of ");
        s.append(decimal_string(total).as_str());
        s.append(" rows ");
        s
    } else {
        let mut s = concat(" ", decimal_string(total).as_str());
        s.append(" rows ");
        s
    }
}

/// The entries of the tag panel shown when scrolled to `scroll`: the body
/// holds `height - 2` entries but at least one, and the window never starts
/// past the last full page.
pub open spec fn tag_window_spec(scroll: usize, total: usize, height: u16) -> (usize, usize, usize) {
    let body: int = if height >= 3 {
        height - 2
    } else {
        1
    };
    let last: int = if total >= body {
        total - body
    } else {
        0
    };
    let start: int = if scroll <= last {
        scroll as int
    } else {
        last
    };
    let end: int = if start + body <= total {
        start + body
    } else {
        total as int
    };
    (start as usize, end as usize, body as usize)
}

/// First and end entry of the visible window of the tag panel (see
/// [`tag_window_spec`]), and the number of body rows.
pub fn tag_window(scroll: usize, total: usize, height: u16) -> (res: (usize, usize, usize))
    requires
        total + 0x10000 <= usize::MAX,
    ensures
        res == tag_window_spec(scroll, total, height),
        res.0 <= res.1 <= total,
{
    let height = height as usize;
    let sub = height.saturating_sub(2);
    let max_body_rows = if sub >= 1 {
        sub
    } else {
        1
    };
    let start = if scroll < total.saturating_sub(max_body_rows) {
        scroll
    } else {
        total.saturating_sub(max_body_rows)
    };
    let end = if start + max_body_rows < total {
        start + max_body_rows
    } else {
        total
    };
    (start, end, max_body_rows)
}

/// The footer of the tag panel: the visible range and the total when the
/// entries do not fit, else the endpoint count.
pub open spec fn tag_footer_text(start: usize, end: usize, total: usize, body: usize) -> Seq<char> {
    if total > body {
        " "@ + decimal((start + 1) as nat) + "–"@ + decimal(end as nat) + " of "@ + decimal(
            total as nat,
        ) + " "@
    } else {
        " "@ + decimal(total as nat) + " endpoints "@
    }
}

/// The footer of the tag panel (see [`tag_footer_text`]).
pub fn tag_footer(start: usize, end: usize, total: usize, body: usize) -> (res: String)
    requires
        start < usize::MAX,
    ensures
        res@ == tag_footer_text(start, end, total, body),
{
    if total > body {
        let mut s = concat(" ", decimal_string(start + 1).as_str());
        s.append("–");
        s.append(decimal_string(end).as_str());
        s.append(" of ");
        s.append(decimal_string(total).as_str());
        s.append(" ");
        s
    } else {
        let mut s = concat(" ", decimal_string(total).as_str());
        s.append(" endpoints ");
        s
    }
}

impl App {
    /// The title of the result panel: ` Result ` before any fetch, else
    /// ` GET <path> `.
    pub fn result_title(&self) -> (res: String)
        ensures
            res@ == if self.result.path@.len() == 0 {
                " Result "@
            } else {
                " GET "@ + self.result.path@ + " "@
            },
    {
        if str_eq(self.result.path.as_str(), "") {
            proof {
                reveal_strlit("");
            }
            owned(" Result ")
        } else {
            proof {
                reveal_strlit("");
                if self.result.path@.len() == 0 {
                    assert(self.result.path@ =~= ""@);
                }
            }
            let mut s = concat(" GET ", self.result.path.as_str());
            s.append(" ");
            s
        }
    }

    /// The text of an empty result panel: its text, or the hint to run an action.
    pub fn result_placeholder(&self) -> (res: String)
        ensures
            res@ == if self.result.text@.len() == 0 {
                "Run an action with Enter."@
            } else {
                self.result.text@
            },
    {
        if str_eq(self.result.text.as_str(), "") {
            proof {
                reveal_strlit("");
            }
            owned("Run an action with Enter.")
        } else {
            proof {
                reveal_strlit("");
                if self.result.text@.len() == 0 {
                    assert(self.result.text@ =~= ""@);
                }
            }
            self.result.text.clone()
        }
    }

    /// The title of the tag panel: the selected tag in quotes, or ` Endpoints `.
    pub fn tag_panel_title(&self) -> (res: String)
        requires
            self.wf(),
        ensures
            res@ == match self.selections@[3] {
                Some(i) => if i < self.tags@.len() {
                    " Endpoints tagged “"@ + self.tags@[i as int]@ + "” "@
                } else {
                    " Endpoints "@
                },
                None => " Endpoints "@,
            },
    {
        match self.selections[3] {
            Some(i) => if i < self.tags.len() {
                let mut s = concat(" Endpoints tagged “", self.tags[i].as_str());
                s.append("” ");
                s
            } else {
                owned(" Endpoints ")
            },
            None => owned(" Endpoints "),
        }
    }

    /// The status bar: the status between spaces.
    pub fn status_line(&self) -> (res: String)
        ensures
            res@ == " "@ + self.status@ + " "@,
    {
        let mut s = concat(" ", self.status.as_str());
        s.append(" ");
        s
    }

    /// The title of the parameter popup.
    pub fn popup_title(&self) -> (res: String)
        ensures
            res@ == " Parameter: "@ + self.input.label@ + " "@,
    {
        let mut s = concat(" Parameter: ", self.input.label.as_str());
        s.append(" ");
        s
    }
}

} // verus!
