//! What the views show, as text: lines made of spans, each span with the
//! tone it is drawn in. Drawing them is left to the terminal layer.
use vstd::prelude::*;

use crate::app_state::{AppState, Status};
use crate::number::digits_of;
use crate::text::{concat2, concat3, copy_str, strs_view};
use crate::view::edit::{EditView, JsonMode};
use crate::view::profile_list::ProfileListView;
use crate::view::query::{
    Field, QueryCtx, FormV, QueryView, focused, sort_op_label, sort_op_label_at, visible,
    };
use crate::patterns::KeyPattern;

verus! {

/// How a span is drawn.
#[derive(Clone, Copy, Debug, PartialEq, Eq, Structural)]
pub enum Tone {
    /// In the foreground colour.
    Plain,
    /// In bold.
    Bold,
    /// As the selected choice: reversed colours, bold.
    Selected,
    /// As the focused text input: accented, bold.
    Accent,
    /// As a success message.
    Success,
    /// As a warning message.
    Warning,
    /// As an error, bold.
    Error,
    /// As help text.
    Hint,
}

/// A run of text in one tone.
#[derive(Clone, Debug, PartialEq, Eq)]
pub struct Span {
    pub text: String,
    pub tone: Tone,
}

/// The value of a span.
pub open spec fn span_view(s: Span) -> (Seq<char>, Tone) {
    (s.text@, s.tone)
}

/// The value of a line.
pub open spec fn spans_view(v: Seq<Span>) -> Seq<(Seq<char>, Tone)> {
    v.map_values(|s: Span| span_view(s))
}

/// The value of lines.
pub open spec fn lines_view(v: Seq<Vec<Span>>) -> Seq<Seq<(Seq<char>, Tone)>> {
    v.map_values(|l: Vec<Span>| spans_view(l@))
}

/// The decimal text of a count.
pub open spec fn count_text(n: nat) -> Seq<char> {
    if n == 0 {
        "0"@
    } else {
        digits_of(n)
    }
}

fn digits(m: usize) -> (r: Vec<char>)
    ensures
        r@ == digits_of(m as nat),
    decreases m,
{
    if m == 0 {
        Vec::new()
    } else {
        let mut d = digits(m / 10);
        let c: u8 = 48 + (m % 10) as u8;
        d.push(c as char);
        d
    }
}

/// The decimal text of a count.
pub fn count_to_text(n: usize) -> (r: String)
    ensures
        r@ == count_text(n as nat),
{
    if n == 0 {
        copy_str("0")
    } else {
        crate::text::string_of(&digits(n))
    }
}

/// The number of bytes of the UTF-8 form of a character.
pub open spec fn utf8_width(c: char) -> nat {
    if (c as u32) < 0x80 {
        1
    } else if (c as u32) < 0x800 {
        2
    } else if (c as u32) < 0x10000 {
        3
    } else {
        4
    }
}

/// The number of bytes of the UTF-8 form of a text.
pub open spec fn utf8_len(s: Seq<char>) -> nat
    decreases s.len(),
{
    if s.len() == 0 {
        0
    } else {
        utf8_len(s.drop_last()) + utf8_width(s.last())
    }
}

/// The length of a text in bytes (`str::len`, the length of its UTF-8 form).
#[verifier::external_body]
fn byte_len(s: &str) -> (r: usize)
    ensures
        r == utf8_len(s@),
{
    s.len()
}

/// A line of one span.
fn line1(text: String, tone: Tone) -> (r: Vec<Span>)
    ensures
        spans_view(r@) == seq![(text@, tone)],
{
    let mut l = Vec::new();
    l.push(Span { text, tone });
    assert(spans_view(l@) =~= seq![(text@, tone)]);
    l
}

// ---------------------------------------------------------------------------
// The query form
// ---------------------------------------------------------------------------

/// The tone of a choice (index, comparison): selected when focused.
pub open spec fn choice_tone(on: bool) -> Tone {
    if on {
        Tone::Selected
    } else {
        Tone::Plain
    }
}

/// The tone of a text input: accented when focused.
pub open spec fn entry_tone(on: bool) -> Tone {
    if on {
        Tone::Accent
    } else {
        Tone::Plain
    }
}

/// The help shown under the query form.
pub open spec fn form_hint() -> Seq<char> {
    "Tab/Shift-Tab/↑↓: fields · ←/→: change · ^p: patterns · Enter: run · Esc: cancel"@
}

/// The lines of the query form: the index choice, the partition key input,
/// with a sort key its comparison choice and input (and the second input for
/// `between`), a blank line, and the error or the help.
pub open spec fn form_lines(c: QueryCtx, s: FormV) -> Seq<Seq<(Seq<char>, Tone)>> {
    let f = focused(c, s);
    let option = c.options[s.index_idx as int];
    let names = option.1;
    let index_line = seq![
        ("Index  "@, Tone::Bold),
        ("< "@ + option.0 + " >"@, choice_tone(f == Field::Index)),
    ];
    let pk_line = seq![
        (names[0] + "  = "@, Tone::Bold),
        ("[ "@ + s.pk.0 + " ]"@, entry_tone(f == Field::Pk)),
    ];
    let sk_lines = if names.len() == 2 {
        let sk_line = seq![
            (names[1] + "  "@, Tone::Bold),
            ("< "@ + sort_op_label(s.sort_op_idx) + " >"@, choice_tone(f == Field::SortOp)),
            ("  "@, Tone::Plain),
            ("[ "@ + s.sk.0 + " ]"@, entry_tone(f == Field::Sk)),
        ];
        if s.sort_op_idx == 6 {
            seq![
                sk_line,
                seq![("   and  "@, Tone::Bold), ("[ "@ + s.sk2.0 + " ]"@, entry_tone(f == Field::Sk2))],
            ]
        } else {
            seq![sk_line]
        }
    } else {
        Seq::empty()
    };
    let last = match s.error {
        Some(e) => seq![(e, Tone::Error)],
        None => seq![(form_hint(), Tone::Hint)],
    };
    seq![index_line, pk_line] + sk_lines + seq![seq![(Seq::<char>::empty(), Tone::Plain)], last]
}

/// Where the terminal cursor goes while the picker is closed: the row of the
/// focused text input and the column where its text starts (in bytes of the
/// text before it, as the terminal layer counts); none when a choice is
/// focused or the picker is open.
pub open spec fn cursor_anchor(c: QueryCtx, s: FormV) -> Option<(nat, nat)> {
    let names = c.options[s.index_idx as int].1;
    if s.picker is Some {
        None
    } else {
        match focused(c, s) {
            Field::Pk => Some((1, utf8_len(names[0]) + 6)),
            Field::Sk => Some((2, utf8_len(names[1]) + utf8_len(sort_op_label(s.sort_op_idx)) + 10)),
            Field::Sk2 => Some((3, 10)),
            _ => None,
        }
    }
}

/// Whether the picker shows all patterns.
pub open spec fn picker_all(s: FormV) -> bool {
    match s.picker {
        Some(p) => p.show_all,
        None => false,
    }
}

/// The picker's filter.
pub open spec fn picker_filter(s: FormV) -> Seq<char> {
    match s.picker {
        Some(p) => p.filter,
        None => Seq::empty(),
    }
}

/// The picker's selected row.
pub open spec fn picker_idx(s: FormV) -> nat {
    match s.picker {
        Some(p) => p.idx,
        None => 0,
    }
}

/// The picker's title: what it shows, how many, and the filter when there
/// is one.
pub open spec fn picker_title(c: QueryCtx, s: FormV) -> Seq<char> {
    let mode = if picker_all(s) {
        "All"@
    } else {
        "Favorites"@
    };
    let head = " Patterns — "@ + mode + " ("@ + count_text(visible(c, s).len()) + ")"@;
    if picker_filter(s).len() == 0 {
        head + " "@
    } else {
        head + "   filter: "@ + picker_filter(s) + " "@
    }
}

/// A pattern's row: a star for a favorite, the name, the partition key
/// template, and the sort key template when there is one.
pub open spec fn pattern_row(p: (Seq<char>, Seq<char>, Seq<char>), starred: bool) -> Seq<char> {
    (if starred {
        "★ "@
    } else {
        "  "@
    }) + p.0 + "   PK:"@ + p.1 + if p.2.len() == 0 {
        Seq::empty()
    } else {
        "   SK:"@ + p.2
    }
}

/// The first row shown so that the selected row is among the `rows` shown.
pub open spec fn window_start(idx: nat, rows: nat) -> nat {
    if idx >= rows {
        (idx + 1 - rows) as nat
    } else {
        0
    }
}

/// The number of rows that fit in a picker of inner height `h`.
pub open spec fn picker_rows(h: nat) -> nat {
    if h > 3 {
        (h - 2) as nat
    } else {
        1
    }
}

/// The help shown under the picker's rows.
pub open spec fn picker_hint() -> Seq<char> {
    "↑/↓ move · ←/→ favorites/all · Enter fill · ^s star · type to filter · Esc close"@
}

/// The lines of the picker in a window of inner height `h`: the rows shown
/// (the selected one highlighted), or, with nothing to show, a hint on
/// starring favorites; then a blank line and the help.
pub open spec fn picker_lines(c: QueryCtx, s: FormV, h: nat) -> Seq<Seq<(Seq<char>, Tone)>> {
    let vis = visible(c, s);
    let idx = picker_idx(s);
    let start = window_start(idx, picker_rows(h));
    let shown = if start >= vis.len() {
        0
    } else if vis.len() - start < picker_rows(h) {
        (vis.len() - start) as nat
    } else {
        picker_rows(h)
    };
    let body = if vis.len() == 0 {
        seq![
            seq![("No favorites yet."@, Tone::Plain)],
            seq![("Press 'a' for all patterns, then 'f' to star the ones you use."@, Tone::Hint)],
        ]
    } else {
        Seq::new(
            shown,
            |k: int|
                seq![
                    (
                        pattern_row(vis[start + k], s.favorites.contains(vis[start + k].0)),
                        if start + k == idx {
                            Tone::Selected
                        } else {
                            Tone::Plain
                        },
                    ),
                ],
        )
    };
    body + seq![seq![(Seq::<char>::empty(), Tone::Plain)], seq![(picker_hint(), Tone::Hint)]]
}

/// A text between two others.
fn framed(a: &str, b: &str, c: &str) -> (r: String)
    ensures
        r@ == a@ + b@ + c@,
{
    concat3(a, b, c)
}

impl QueryView {
    /// The form's title.
    pub fn title(&self) -> (r: String)
        ensures
            r@ == " Query "@ + self.table_description.table_name@ + " "@,
    {
        framed(" Query ", self.table_description.table_name.as_str(), " ")
    }

    /// The lines of the form (see [`form_lines`]).
    pub fn form_lines(&self) -> (r: Vec<Vec<Span>>)
        requires
            self.wf(),
        ensures
            lines_view(r@) == form_lines(self.ctx(), self@),
    {
        let ghost c = self.ctx();
        let ghost s = self@;
        let f = self.focused_field();
        let option = &self.index_options[self.index_idx];
        let (pk_name, sk_name) = match &option.schema {
            crate::data::KeySchemaType::Hash(pk) => (pk, None),
            crate::data::KeySchemaType::HashRange(pk, sk) => (pk, Some(sk)),
        };
        let ghost names = c.options[s.index_idx as int].1;
        assert(c.options[s.index_idx as int] == (option.label@, crate::client::key_names(option.schema)));
        let mut lines: Vec<Vec<Span>> = Vec::new();
        let mut l0 = Vec::new();
        l0.push(Span { text: copy_str("Index  "), tone: Tone::Bold });
        l0.push(Span { text: framed("< ", option.label.as_str(), " >"), tone: if f == Field::Index { Tone::Selected } else { Tone::Plain } });
        assert(spans_view(l0@) =~= form_lines(c, s)[0]);
        lines.push(l0);
        let mut l1 = Vec::new();
        l1.push(Span { text: concat2(pk_name.as_str(), "  = "), tone: Tone::Bold });
        l1.push(Span { text: framed("[ ", self.pk_input.value.as_str(), " ]"), tone: if f == Field::Pk { Tone::Accent } else { Tone::Plain } });
        assert(spans_view(l1@) =~= form_lines(c, s)[1]);
        lines.push(l1);
        let ghost mut expected: Seq<Seq<(Seq<char>, Tone)>> = seq![form_lines(c, s)[0], form_lines(c, s)[1]];
        assert(lines_view(lines@) =~= expected);
        assert(names[0] == pk_name@);
        if let Some(sk) = sk_name {
            assert(names.len() == 2);
            let mut l2 = Vec::new();
            l2.push(Span { text: concat2(sk.as_str(), "  "), tone: Tone::Bold });
            l2.push(Span { text: framed("< ", sort_op_label_at(self.sort_op_idx), " >"), tone: if f == Field::SortOp { Tone::Selected } else { Tone::Plain } });
            l2.push(Span { text: copy_str("  "), tone: Tone::Plain });
            l2.push(Span { text: framed("[ ", self.sk_input.value.as_str(), " ]"), tone: if f == Field::Sk { Tone::Accent } else { Tone::Plain } });
            let ghost before = lines_view(lines@);
            let ghost sl = spans_view(l2@);
            proof {
                assert(names.len() == 2 && names[1] == sk@);
                assert(sl =~= seq![
                    (names[1] + "  "@, Tone::Bold),
                    ("< "@ + sort_op_label(s.sort_op_idx) + " >"@, choice_tone(f == Field::SortOp)),
                    ("  "@, Tone::Plain),
                    ("[ "@ + s.sk.0 + " ]"@, entry_tone(f == Field::Sk)),
                ]);
            }
            lines.push(l2);
            assert(lines_view(lines@) =~= before.push(sl));
            proof {
                expected = expected.push(sl);
            }
            if self.sort_op_idx == 6 {
                let mut l3 = Vec::new();
                l3.push(Span { text: copy_str("   and  "), tone: Tone::Bold });
                l3.push(Span { text: framed("[ ", self.sk_input2.value.as_str(), " ]"), tone: if f == Field::Sk2 { Tone::Accent } else { Tone::Plain } });
                let ghost before = lines_view(lines@);
                let ghost tl = spans_view(l3@);
                assert(tl =~= seq![("   and  "@, Tone::Bold), ("[ "@ + s.sk2.0 + " ]"@, entry_tone(f == Field::Sk2))]);
                lines.push(l3);
                assert(lines_view(lines@) =~= before.push(tl));
                proof {
                    expected = expected.push(tl);
                }
            }
        }
        let ghost before = lines_view(lines@);
        proof {
            if names.len() == 2 {
                if s.sort_op_idx == 6 {
                    assert(expected =~= seq![form_lines(c, s)[0], form_lines(c, s)[1], form_lines(c, s)[2], form_lines(c, s)[3]]);
                } else {
                    assert(expected =~= seq![form_lines(c, s)[0], form_lines(c, s)[1], form_lines(c, s)[2]]);
                }
            }
        }
        let blank = line1(String::new(), Tone::Plain);
        assert(spans_view(blank@) =~= seq![(Seq::<char>::empty(), Tone::Plain)]);
        lines.push(blank);
        let last = match &self.error {
            Some(e) => line1(e.clone(), Tone::Error),
            None => line1(copy_str("Tab/Shift-Tab/↑↓: fields · ←/→: change · ^p: patterns · Enter: run · Esc: cancel"), Tone::Hint),
        };
        let ghost lv = spans_view(last@);
        lines.push(last);
        proof {
            assert(lines_view(lines@) =~= before.push(seq![(Seq::<char>::empty(), Tone::Plain)]).push(lv));
            assert(before == expected);
            assert(lines_view(lines@) =~= form_lines(c, s));
        }
        lines
    }

    /// Where the terminal cursor goes (see [`cursor_anchor`]).
    pub fn cursor_anchor(&self) -> (r: Option<(u16, u128)>)
        requires
            self.wf(),
        ensures
            match r {
                Some((row, col)) => cursor_anchor(self.ctx(), self@) == Some((row as nat, col as nat)),
                None => cursor_anchor(self.ctx(), self@) is None,
            },
    {
        if self.picker.is_some() {
            return None;
        }
        let ghost names = self.ctx().options[self@.index_idx as int].1;
        let option = &self.index_options[self.index_idx];
        assert(self.ctx().options[self@.index_idx as int] == (option.label@, crate::client::key_names(option.schema)));
        match self.focused_field() {
            Field::Pk => {
                let n = match &option.schema {
                    crate::data::KeySchemaType::Hash(pk) => byte_len(pk.as_str()),
                    crate::data::KeySchemaType::HashRange(pk, _) => byte_len(pk.as_str()),
                };
                Some((1, n as u128 + 6))
            },
            Field::Sk => {
                match &option.schema {
                    crate::data::KeySchemaType::HashRange(_, sk) => {
                        let a = byte_len(sk.as_str());
                        let b = byte_len(sort_op_label_at(self.sort_op_idx));
                        Some((2, a as u128 + b as u128 + 10))
                    },
                    crate::data::KeySchemaType::Hash(_) => None,
                }
            },
            Field::Sk2 => Some((3, 10)),
            _ => None,
        }
    }
}

impl QueryView {
    /// The picker's title (see [`picker_title`]).
    pub fn picker_title(&self) -> (r: String)
        ensures
            r@ == picker_title(self.ctx(), self@),
    {
        let (all, filter) = match &self.picker {
            Some(p) => (p.show_all, copy_str(p.filter.as_str())),
            None => (false, String::new()),
        };
        let n = self.visible_patterns().len();
        let mode = if all {
            "All"
        } else {
            "Favorites"
        };
        let mut t = concat3(" Patterns — ", mode, " (");
        t.append(count_to_text(n).as_str());
        t.append(")");
        if filter.as_str().unicode_len() == 0 {
            t.append(" ");
        } else {
            t.append("   filter: ");
            t.append(filter.as_str());
            t.append(" ");
        }
        t
    }

    /// The lines of the picker in a window of inner height `inner_height`
    /// (see [`picker_lines`]).
    pub fn picker_lines(&self, inner_height: u16) -> (r: Vec<Vec<Span>>)
        ensures
            lines_view(r@) == picker_lines(self.ctx(), self@, inner_height as nat),
    {
        let ghost c = self.ctx();
        let ghost s = self@;
        let vis = self.visible_patterns();
        let idx = match &self.picker {
            Some(p) => p.idx,
            None => 0,
        };
        let rows: usize = if inner_height > 3 {
            (inner_height - 2) as usize
        } else {
            1
        };
        let start: usize = if idx >= rows {
            idx - rows + 1
        } else {
            0
        };
        let mut lines: Vec<Vec<Span>> = Vec::new();
        if vis.len() == 0 {
            lines.push(line1(copy_str("No favorites yet."), Tone::Plain));
            lines.push(
                line1(
                    copy_str("Press 'a' for all patterns, then 'f' to star the ones you use."),
                    Tone::Hint,
                ),
            );
        } else {
            let shown: usize = if start >= vis.len() {
                0
            } else if vis.len() - start < rows {
                vis.len() - start
            } else {
                rows
            };
            let ghost vv = crate::patterns::patterns_view(vis@);
            let mut k: usize = 0;
            while k < shown
                invariant
                    k <= shown,
                    shown <= vis.len(),
                    shown > 0 ==> start + shown <= vis.len(),
                    vv == crate::patterns::patterns_view(vis@),
                    vv == visible(c, s),
                    lines_view(lines@) == Seq::new(
                        k as nat,
                        |j: int|
                            seq![
                                (
                                    pattern_row(vv[start + j], s.favorites.contains(vv[start + j].0)),
                                    if start + j == idx {
                                        Tone::Selected
                                    } else {
                                        Tone::Plain
                                    },
                                ),
                            ],
                    ),
                    s == self@,
                decreases shown - k,
            {
                let p: &KeyPattern = &vis[start + k];
                assert(vv[start + k] == p@);
                let starred = contains_name(&self.favorites, &p.name);
                let mut text = if starred {
                    copy_str("★ ")
                } else {
                    copy_str("  ")
                };
                text.append(p.name.as_str());
                text.append("   PK:");
                text.append(p.pk.as_str());
                if p.sk.as_str().unicode_len() > 0 {
                    text.append("   SK:");
                    text.append(p.sk.as_str());
                }
                let tone = if start + k == idx {
                    Tone::Selected
                } else {
                    Tone::Plain
                };
                let ghost before = lines_view(lines@);
                let l = line1(text, tone);
                lines.push(l);
                proof {
                    let row = pattern_row(vv[start + k], s.favorites.contains(vv[start + k].0));
                    assert(text@ =~= row);
                    assert(lines_view(lines@) =~= before.push(seq![(row, tone)]));
                    assert(lines_view(lines@) =~= Seq::new(
                        (k + 1) as nat,
                        |j: int|
                            seq![
                                (
                                    pattern_row(vv[start + j], s.favorites.contains(vv[start + j].0)),
                                    if start + j == idx {
                                        Tone::Selected
                                    } else {
                                        Tone::Plain
                                    },
                                ),
                            ],
                    ));
                }
                k += 1;
            }
        }
        let ghost body = lines_view(lines@);
        lines.push(line1(String::new(), Tone::Plain));
        lines.push(
            line1(
                copy_str("↑/↓ move · ←/→ favorites/all · Enter fill · ^s star · type to filter · Esc close"),
                Tone::Hint,
            ),
        );
        proof {
            assert(lines_view(lines@) =~= body + seq![
                seq![(Seq::<char>::empty(), Tone::Plain)],
                seq![(picker_hint(), Tone::Hint)],
            ]);
            if vis.len() == 0 {
                assert(body =~= seq![
                    seq![("No favorites yet."@, Tone::Plain)],
                    seq![("Press 'a' for all patterns, then 'f' to star the ones you use."@, Tone::Hint)],
                ]);
            }
        }
        lines
    }
}

/// Whether a name is among the favorites.
fn contains_name(v: &Vec<String>, x: &String) -> (r: bool)
    ensures
        r == crate::text::strs_view(v@).contains(x@),
{
    let mut i: usize = 0;
    while i < v.len()
        invariant
            i <= v.len(),
            forall|j: int| 0 <= j < i ==> crate::text::strs_view(v@)[j] != x@,
        decreases v.len() - i,
    {
        if v[i] == *x {
            assert(crate::text::strs_view(v@)[i as int] == x@);
            return true;
        }
        i += 1;
    }
    false
}

// ---------------------------------------------------------------------------
// The editor, the profile picker and the status line
// ---------------------------------------------------------------------------

impl EditView {
    /// The editor's title: `Edit` or `New item`, the table, and the form.
    pub fn title(&self) -> (r: String)
        ensures
            r@ == " "@ + (if self.editing {
                "Edit"@
            } else {
                "New item"@
            }) + " "@ + self.table_description.table_name@ + "  ["@ + (match self.mode {
                JsonMode::Typed => "typed"@,
                JsonMode::Plain => "plain"@,
            }) + "] "@,
    {
        let verb = if self.editing {
            "Edit"
        } else {
            "New item"
        };
        let mut t = concat3(" ", verb, " ");
        t.append(self.table_description.table_name.as_str());
        t.append("  [");
        t.append(self.mode.label());
        t.append("] ");
        t
    }

    /// The editor's footer: the error, or the keys.
    pub fn footer(&self) -> (r: Span)
        ensures
            span_view(r) == match self.error {
                Some(e) => ("  "@ + e@, Tone::Error),
                None => ("  C-s: save   C-t: typed/plain   Esc: cancel"@, Tone::Hint),
            },
    {
        match &self.error {
            Some(e) => Span { text: concat2("  ", e.as_str()), tone: Tone::Error },
            None => Span { text: copy_str("  C-s: save   C-t: typed/plain   Esc: cancel"), tone: Tone::Hint },
        }
    }
}

impl ProfileListView {
    /// The rows shown, from the list's scroll position on: each profile
    /// name after a space, and whether it is the selected one.
    pub fn rows(&self) -> (r: Vec<(String, bool)>)
        requires
            self.wf(),
        ensures
            r@.len() == self.profiles@.len() - self.list_state.offset,
            forall|k: int|
                0 <= k < r@.len() ==> (#[trigger] r@[k]).0@ == " "@ + self.profiles@[self.list_state.offset + k]@
                    && r@[k].1 == (self.list_state.offset + k == self.list_state.selected),
    {
        let mut r: Vec<(String, bool)> = Vec::new();
        let off = self.list_state.offset;
        let mut i = off;
        while i < self.profiles.len()
            invariant
                off <= i <= self.profiles.len(),
                off == self.list_state.offset,
                r@.len() == i - off,
                forall|k: int|
                    0 <= k < r@.len() ==> (#[trigger] r@[k]).0@ == " "@ + self.profiles@[off + k]@
                        && r@[k].1 == (off + k == self.list_state.selected),
            decreases self.profiles.len() - i,
        {
            r.push((concat2(" ", self.profiles[i].as_str()), i == self.list_state.selected));
            i += 1;
        }
        r
    }
}

// ---------------------------------------------------------------------------
// Short help on the status line
// ---------------------------------------------------------------------------

/// The texts of the parts with priority `p`, in order.
pub open spec fn texts_with_priority(ps: Seq<(Seq<char>, u8)>, p: int) -> Seq<Seq<char>>
    decreases ps.len(),
{
    if ps.len() == 0 {
        Seq::empty()
    } else {
        let init = texts_with_priority(ps.drop_last(), p);
        if ps.last().1 == p {
            init.push(ps.last().0)
        } else {
            init
        }
    }
}

/// The texts of the parts with priority `p` or more, by priority, those of
/// equal priority in their order.
pub open spec fn texts_by_priority(ps: Seq<(Seq<char>, u8)>, p: int) -> Seq<Seq<char>>
    decreases 256 - p,
{
    if p >= 256 || p < 0 {
        Seq::empty()
    } else {
        texts_with_priority(ps, p) + texts_by_priority(ps, p + 1)
    }
}

/// `text` followed by as many of `parts` as fit, `", "` between two: a part
/// is taken while the bytes of the text so far, of the part and two more stay
/// within `width`.
pub open spec fn fitted(parts: Seq<Seq<char>>, text: Seq<char>, width: int) -> Seq<char>
    decreases parts.len(),
{
    if parts.len() == 0 || utf8_len(text) + utf8_len(parts[0]) + 2 > width {
        text
    } else {
        fitted(
            parts.drop_first(),
            if text.len() == 0 { parts[0] } else { text + ", "@ + parts[0] },
            width,
        )
    }
}

/// The short help line: the parts (text and priority) ordered by priority,
/// as many as fit in `width` bytes.
pub open spec fn short_help_text(ps: Seq<(Seq<char>, u8)>, width: int) -> Seq<char> {
    fitted(texts_by_priority(ps, 0), Seq::empty(), width)
}

/// Only the empty text has no bytes.
proof fn lemma_utf8_len_zero(s: Seq<char>)
    ensures
        (utf8_len(s) == 0) == (s.len() == 0),
    decreases s.len(),
{
    if s.len() > 0 {
        lemma_utf8_len_zero(s.drop_last());
    }
}

/// The values of short-help parts.
pub open spec fn parts_view(v: Seq<(String, u8)>) -> Seq<(Seq<char>, u8)> {
    v.map_values(|p: (String, u8)| (p.0@, p.1))
}

/// The status line's short help (see [`short_help_text`]): the parts, each a
/// help's keys and description, in order of priority, cut to `width`.
pub fn short_help_line(parts: &Vec<(String, u8)>, width: usize) -> (r: String)
    ensures
        r@ == short_help_text(parts_view(parts@), width as int),
{
    let ghost ps = parts_view(parts@);
    let mut ordered: Vec<String> = Vec::new();
    let mut p: u16 = 0;
    while p < 256
        invariant
            p <= 256,
            ps == parts_view(parts@),
            strs_view(ordered@) + texts_by_priority(ps, p as int) == texts_by_priority(ps, 0),
        decreases 256 - p,
    {
        let ghost before = strs_view(ordered@);
        let mut i: usize = 0;
        assert(ps.take(0) =~= Seq::<(Seq<char>, u8)>::empty());
        while i < parts.len()
            invariant
                i <= parts.len(),
                p < 256,
                ps == parts_view(parts@),
                strs_view(ordered@) == before + texts_with_priority(ps.take(i as int), p as int),
            decreases parts.len() - i,
        {
            assert(ps.take(i + 1).drop_last() =~= ps.take(i as int));
            assert(ps.take(i + 1).last() == (parts@[i as int].0@, parts@[i as int].1));
            if parts[i].1 as u16 == p {
                let ghost old_ordered = ordered@;
                ordered.push(copy_str(parts[i].0.as_str()));
                assert(ps.take(i + 1).last().1 == p as int);
                assert(texts_with_priority(ps.take(i + 1), p as int) == texts_with_priority(
                    ps.take(i as int),
                    p as int,
                ).push(parts@[i as int].0@));
                assert(strs_view(ordered@) =~= strs_view(old_ordered).push(parts@[i as int].0@));
            } else {
                assert(strs_view(ordered@) =~= before + texts_with_priority(ps.take(i + 1), p as int));
            }
            i += 1;
        }
        assert(ps.take(parts.len() as int) =~= ps);
        let ghost rest = texts_by_priority(ps, p + 1);
        assert(texts_by_priority(ps, p as int) == texts_with_priority(ps, p as int) + rest);
        assert(strs_view(ordered@) + rest =~= before + texts_by_priority(ps, p as int));
        p += 1;
    }
    assert(texts_by_priority(ps, 256) =~= Seq::<Seq<char>>::empty());
    assert(strs_view(ordered@) =~= texts_by_priority(ps, 0));
    let ghost os = strs_view(ordered@);
    let mut text = String::new();
    let mut j: usize = 0;
    let mut tl: usize = 0;
    let mut done = false;
    assert(os.skip(0) =~= os);
    assert(text@ =~= Seq::<char>::empty());
    while j < ordered.len() && !done
        invariant
            j <= ordered.len(),
            os == strs_view(ordered@),
            tl == utf8_len(text@),
            fitted(os.skip(j as int), text@, width as int) == fitted(os, Seq::empty(), width as int),
            done ==> fitted(os.skip(j as int), text@, width as int) == text@,
        decreases ordered.len() - j, if done { 0int } else { 1int },
    {
        assert(os.skip(j as int)[0] == ordered@[j as int]@);
        let pl = byte_len(ordered[j].as_str());
        if tl > width || pl > width - tl || 2 > width - tl - pl {
            done = true;
        } else {
            assert(os.skip(j as int).drop_first() =~= os.skip(j + 1));
            proof {
                lemma_utf8_len_zero(text@);
            }
            if tl == 0 {
                text = copy_str(ordered[j].as_str());
            } else {
                text = concat3(text.as_str(), ", ", ordered[j].as_str());
            }
            tl = byte_len(text.as_str());
            j += 1;
        }
    }
    if j == ordered.len() {
        assert(os.skip(j as int) =~= Seq::<Seq<char>>::empty());
    }
    text
}

impl AppState {
    /// The message the status line shows, if any (without one it shows the
    /// current view's short help): an error after `ERROR: `.
    pub fn status_line(&self) -> (r: Option<Span>)
        ensures
            match self.status {
                Status::Clear => r is None,
                Status::NotificationSuccess(m) => r matches Some(sp) && span_view(sp) == (m@, Tone::Success),
                Status::NotificationWarning(m) => r matches Some(sp) && span_view(sp) == (m@, Tone::Warning),
                Status::NotificationError(m) => r matches Some(sp) && span_view(sp) == ("ERROR: "@ + m@, Tone::Error),
                Status::Input(m, _) => r matches Some(sp) && span_view(sp) == (m@, Tone::Plain),
            },
    {
        match &self.status {
            Status::Clear => None,
            Status::NotificationSuccess(m) => Some(Span { text: m.clone(), tone: Tone::Success }),
            Status::NotificationWarning(m) => Some(Span { text: m.clone(), tone: Tone::Warning }),
            Status::NotificationError(m) => Some(Span { text: concat2("ERROR: ", m.as_str()), tone: Tone::Error }),
            Status::Input(m, _) => Some(Span { text: m.clone(), tone: Tone::Plain }),
        }
    }

    /// The column of the prompt's cursor, when a prompt shows one.
    pub fn status_cursor(&self) -> (r: Option<u16>)
        ensures
            r == match self.status {
                Status::Input(_, c) => c,
                _ => None,
            },
    {
        match &self.status {
            Status::Input(_, c) => *c,
            _ => None,
        }
    }
}

} // verus!
