//! The query form: the index to query, the partition key value, and
//! optionally a condition on the sort key; and, over it, a picker of key
//! access patterns (favorites, or all of them), filtered by what is typed.
use vstd::prelude::*;

use crate::client::{QueryRequestV, SortCondV, key_names, name_of_kind, schema_of};
use crate::data::{
    AttrV, Attribute, AttributeDefinition, KeySchemaType, KeyType, QueryRequest,
    ScalarAttributeType, SecondaryIndex, SortKeyCondition, TableDescription,
};
use crate::event::{
    HelpItem, Key, KeyCode, ShortHelpItem, UserEvent, has_event, help, helps_view, short_help,
    short_help_pair, short_helps_view,
};
use crate::input::{TextInput, edited_input};
use crate::item_json::number_of;
use crate::number::{decimal_parse, parse_number};
use crate::patterns::{KeyPattern, patterns_view};
use crate::text::{
    char_is_whitespace, chars_of, concat3, contains_chars, contains_spec, copy_str, is_whitespace,
    strictly_sorted, strs_view, trim, trim_spec,
};

verus! {

// ---------------------------------------------------------------------------
// The form's parts
// ---------------------------------------------------------------------------

/// A comparison of the sort key.
#[derive(Clone, Copy, Debug, PartialEq, Eq, Structural)]
pub enum SortOp {
    Eq,
    BeginsWith,
    Lt,
    Le,
    Gt,
    Ge,
    Between,
}

/// The number of sort key comparisons the form cycles through.
pub const SORT_OPS_LEN: usize = 7;

/// The comparison at a place in the cycle.
pub open spec fn sort_op_of(i: nat) -> SortOp {
    if i == 0 {
        SortOp::Eq
    } else if i == 1 {
        SortOp::BeginsWith
    } else if i == 2 {
        SortOp::Lt
    } else if i == 3 {
        SortOp::Le
    } else if i == 4 {
        SortOp::Gt
    } else if i == 5 {
        SortOp::Ge
    } else {
        SortOp::Between
    }
}

/// The label of the comparison at a place in the cycle.
pub open spec fn sort_op_label(i: nat) -> Seq<char> {
    if i == 0 {
        "="@
    } else if i == 1 {
        "begins_with"@
    } else if i == 2 {
        "<"@
    } else if i == 3 {
        "<="@
    } else if i == 4 {
        ">"@
    } else if i == 5 {
        ">="@
    } else {
        "between"@
    }
}

/// The comparison at a place in the cycle.
pub fn sort_op_at(i: usize) -> (r: SortOp)
    requires
        i < SORT_OPS_LEN,
    ensures
        r == sort_op_of(i as nat),
{
    if i == 0 {
        SortOp::Eq
    } else if i == 1 {
        SortOp::BeginsWith
    } else if i == 2 {
        SortOp::Lt
    } else if i == 3 {
        SortOp::Le
    } else if i == 4 {
        SortOp::Gt
    } else if i == 5 {
        SortOp::Ge
    } else {
        SortOp::Between
    }
}

/// The label of the comparison at a place in the cycle, as the form shows it.
pub fn sort_op_label_at(i: usize) -> (r: &'static str)
    requires
        i < SORT_OPS_LEN,
    ensures
        r@ == sort_op_label(i as nat),
{
    if i == 0 {
        "="
    } else if i == 1 {
        "begins_with"
    } else if i == 2 {
        "<"
    } else if i == 3 {
        "<="
    } else if i == 4 {
        ">"
    } else if i == 5 {
        ">="
    } else {
        "between"
    }
}

/// A field of the form.
#[derive(Clone, Copy, Debug, PartialEq, Eq, Structural)]
pub enum Field {
    Index,
    Pk,
    SortOp,
    Sk,
    Sk2,
}

/// The table, or one of its indexes, as the form offers it.
#[derive(Clone, Debug, PartialEq, Eq)]
pub struct IndexOption {
    pub label: String,
    pub schema: KeySchemaType,
}

/// The pattern picker over the form: whether it shows all patterns (else
/// the favorites), the selected row, and the filter typed so far.
#[derive(Clone, Debug, PartialEq, Eq)]
pub struct Picker {
    pub show_all: bool,
    pub idx: usize,
    pub filter: String,
}

/// What the query form asks of the application.
#[derive(Debug, PartialEq, Eq)]
pub enum QueryAction {
    Idle,
    /// Close the form.
    Back,
    /// Run the query on the form's table.
    RunQuery(QueryRequest),
    /// Store the favorite pattern names.
    SaveFavorites,
}

/// The query form.
pub struct QueryView {
    pub table_description: TableDescription,
    pub index_options: Vec<IndexOption>,
    pub index_idx: usize,
    pub pk_input: TextInput,
    pub sort_op_idx: usize,
    pub sk_input: TextInput,
    pub sk_input2: TextInput,
    pub focus: usize,
    pub error: Option<String>,
    pub patterns: Vec<KeyPattern>,
    /// The favorite pattern names, ascending.
    pub favorites: Vec<String>,
    pub picker: Option<Picker>,
    pub helps: Vec<HelpItem>,
    pub helps_short: Vec<ShortHelpItem>,
}

// ---------------------------------------------------------------------------
// The form's values
// ---------------------------------------------------------------------------

/// What does not change while the form is open: the index options (label
/// and key attribute names), the declared attribute types and the patterns.
pub struct QueryCtx {
    pub options: Seq<(Seq<char>, Seq<Seq<char>>)>,
    pub defs: Seq<(Seq<char>, ScalarAttributeType)>,
    pub patterns: Seq<(Seq<char>, Seq<char>, Seq<char>)>,
}

/// The value of a text input: its text and cursor.
pub open spec fn input_view(t: TextInput) -> (Seq<char>, nat) {
    (t.value@, t.cursor as nat)
}

/// The value of the pattern picker.
pub struct PickerV {
    pub show_all: bool,
    pub idx: nat,
    pub filter: Seq<char>,
}

/// The value of what changes in the form.
pub struct FormV {
    pub index_idx: nat,
    pub pk: (Seq<char>, nat),
    pub sort_op_idx: nat,
    pub sk: (Seq<char>, nat),
    pub sk2: (Seq<char>, nat),
    pub focus: nat,
    pub error: Option<Seq<char>>,
    pub favorites: Seq<Seq<char>>,
    pub picker: Option<PickerV>,
}

/// The value of an action.
pub enum QueryActionV {
    Idle,
    Back,
    RunQuery(QueryRequestV),
    SaveFavorites,
}

pub open spec fn action_view(a: QueryAction) -> QueryActionV {
    match a {
        QueryAction::Idle => QueryActionV::Idle,
        QueryAction::Back => QueryActionV::Back,
        QueryAction::RunQuery(q) => QueryActionV::RunQuery(q@),
        QueryAction::SaveFavorites => QueryActionV::SaveFavorites,
    }
}

pub open spec fn picker_view(p: Option<Picker>) -> Option<PickerV> {
    match p {
        Some(p) => Some(PickerV { show_all: p.show_all, idx: p.idx as nat, filter: p.filter@ }),
        None => None,
    }
}

pub open spec fn error_view(e: Option<String>) -> Option<Seq<char>> {
    match e {
        Some(m) => Some(m@),
        None => None,
    }
}

/// The options' values: label and key attribute names.
pub open spec fn options_view(v: Seq<IndexOption>) -> Seq<(Seq<char>, Seq<Seq<char>>)> {
    v.map_values(|o: IndexOption| (o.label@, key_names(o.schema)))
}

/// The declared attribute types' values.
pub open spec fn defs_view(v: Seq<AttributeDefinition>) -> Seq<(Seq<char>, ScalarAttributeType)> {
    v.map_values(|d: AttributeDefinition| (d.attribute_name@, d.attribute_type))
}

impl View for QueryView {
    type V = FormV;

    open spec fn view(&self) -> FormV {
        FormV {
            index_idx: self.index_idx as nat,
            pk: input_view(self.pk_input),
            sort_op_idx: self.sort_op_idx as nat,
            sk: input_view(self.sk_input),
            sk2: input_view(self.sk_input2),
            focus: self.focus as nat,
            error: error_view(self.error),
            favorites: strs_view(self.favorites@),
            picker: picker_view(self.picker),
        }
    }
}

impl QueryView {
    /// What does not change while the form is open.
    pub open spec fn ctx(&self) -> QueryCtx {
        QueryCtx {
            options: options_view(self.index_options@),
            defs: defs_view(self.table_description.attribute_definitions@),
            patterns: patterns_view(self.patterns@),
        }
    }

    /// The form is consistent: an index option is chosen, a comparison is
    /// chosen, the focus is on one of the fields, and the favorites are a set.
    pub open spec fn wf(&self) -> bool {
        form_wf(self.ctx(), self@)
    }

    /// The form is consistent but for the focus.
    pub open spec fn parts_ok(&self) -> bool {
        parts_ok(self.ctx(), self@)
    }
}

/// The form is consistent (see [`QueryView::wf`]).
pub open spec fn form_wf(c: QueryCtx, s: FormV) -> bool {
    parts_ok(c, s) && s.focus < fields(c, s).len()
}

/// The form is consistent but for the focus.
pub open spec fn parts_ok(c: QueryCtx, s: FormV) -> bool {
    &&& c.options.len() >= 1
    &&& s.index_idx < c.options.len()
    &&& forall|i: int| 0 <= i < c.options.len() ==> 1 <= (#[trigger] c.options[i]).1.len() <= 2
    &&& s.sort_op_idx < SORT_OPS_LEN
    &&& strictly_sorted(s.favorites)
    &&& s.picker matches Some(p) ==> p.idx < usize::MAX
}

/// The parts of the form a key press leaves as they are.
pub open spec fn unchanged_parts(a: QueryView, b: QueryView) -> bool {
    &&& a.table_description == b.table_description
    &&& a.index_options == b.index_options
    &&& a.patterns == b.patterns
    &&& a.helps == b.helps
    &&& a.helps_short == b.helps_short
}

// ---------------------------------------------------------------------------
// Fields and focus
// ---------------------------------------------------------------------------

/// Whether the chosen index has a sort key.
pub open spec fn has_sort_key(c: QueryCtx, s: FormV) -> bool {
    c.options[s.index_idx as int].1.len() == 2
}

/// The fields of a form: index and partition key, and with a sort key its
/// comparison and value (two values for `between`).
pub open spec fn field_list(has_sk: bool, op: SortOp) -> Seq<Field> {
    if !has_sk {
        seq![Field::Index, Field::Pk]
    } else if op == SortOp::Between {
        seq![Field::Index, Field::Pk, Field::SortOp, Field::Sk, Field::Sk2]
    } else {
        seq![Field::Index, Field::Pk, Field::SortOp, Field::Sk]
    }
}

/// The fields the form shows.
pub open spec fn fields(c: QueryCtx, s: FormV) -> Seq<Field> {
    field_list(has_sort_key(c, s), sort_op_of(s.sort_op_idx))
}

/// The focused field.
pub open spec fn focused(c: QueryCtx, s: FormV) -> Field {
    let fs = fields(c, s);
    fs[if s.focus < fs.len() {
        s.focus as int
    } else {
        fs.len() - 1
    }]
}

/// The focus kept on a field after the fields changed.
pub open spec fn clamped(c: QueryCtx, s: FormV) -> FormV {
    let n = fields(c, s).len();
    FormV {
        focus: if s.focus >= n {
            (n - 1) as nat
        } else {
            s.focus
        },
        ..s
    }
}

// ---------------------------------------------------------------------------
// Submitting
// ---------------------------------------------------------------------------

/// The declared type of an attribute: that of the first definition of its
/// name.
pub open spec fn declared(defs: Seq<(Seq<char>, ScalarAttributeType)>, name: Seq<char>) -> Option<
    ScalarAttributeType,
>
    decreases defs.len(),
{
    if defs.len() == 0 {
        None
    } else if defs[0].0 == name {
        Some(defs[0].1)
    } else {
        declared(defs.drop_first(), name)
    }
}

/// The key value for a typed text: a number for an attribute declared as a
/// number (an error when the text is not one), otherwise a string.
pub open spec fn scalar(defs: Seq<(Seq<char>, ScalarAttributeType)>, name: Seq<char>, raw: Seq<char>) -> Result<
    AttrV,
    Seq<char>,
> {
    match declared(defs, name) {
        Some(ScalarAttributeType::N) => match decimal_parse(raw) {
            Ok(p) => Ok(AttrV::N(number_of(p))),
            Err(_) => Err("`"@ + name + "` must be a number (got `"@ + raw + "`)"@),
        },
        _ => Ok(AttrV::S(raw)),
    }
}

/// The sort key condition of a form, if any, or the error.
pub open spec fn sort_condition(c: QueryCtx, s: FormV, sk: Seq<char>) -> Result<
    Option<(Seq<char>, SortCondV)>,
    Seq<char>,
> {
    let raw = trim_spec(s.sk.0);
    if raw.len() == 0 {
        Ok(None)
    } else {
        let op = sort_op_of(s.sort_op_idx);
        if op == SortOp::BeginsWith {
            Ok(Some((sk, SortCondV::BeginsWith(raw))))
        } else if op == SortOp::Between {
            let raw2 = trim_spec(s.sk2.0);
            if raw2.len() == 0 {
                Err("`between` needs a second value"@)
            } else {
                match (scalar(c.defs, sk, raw), scalar(c.defs, sk, raw2)) {
                    (Ok(a), Ok(b)) => Ok(Some((sk, SortCondV::Between(a, b)))),
                    (Err(e), _) => Err(e),
                    (_, Err(e)) => Err(e),
                }
            }
        } else {
            match scalar(c.defs, sk, raw) {
                Err(e) => Err(e),
                Ok(v) => Ok(
                    Some(
                        (
                            sk,
                            if op == SortOp::Eq {
                                SortCondV::Eq(v)
                            } else if op == SortOp::Lt {
                                SortCondV::Lt(v)
                            } else if op == SortOp::Le {
                                SortCondV::Le(v)
                            } else if op == SortOp::Gt {
                                SortCondV::Gt(v)
                            } else {
                                SortCondV::Ge(v)
                            },
                        ),
                    ),
                ),
            }
        }
    }
}

/// The sort key condition a form submits is the comparison whose label the
/// form shows for the selected operator, applied to the value typed (read as
/// the sort key attribute's type): `=` gives an equality, `<=` an
/// at-most condition, `between` a range, and so on; and the key condition
/// expression sent to DynamoDB writes that very comparison.
pub proof fn lemma_sort_condition_follows_label(c: QueryCtx, s: FormV, sk: Seq<char>)
    ensures
        sort_condition(c, s, sk) matches Ok(Some((k, cond))) ==> k == sk && {
            let label = sort_op_label(s.sort_op_idx);
            let v1 = scalar(c.defs, sk, trim_spec(s.sk.0));
            match cond {
                SortCondV::Eq(v) => label == "="@ && v1 == Ok::<AttrV, Seq<char>>(v),
                SortCondV::BeginsWith(p) => label == "begins_with"@ && p == trim_spec(s.sk.0),
                SortCondV::Lt(v) => label == "<"@ && v1 == Ok::<AttrV, Seq<char>>(v),
                SortCondV::Le(v) => label == "<="@ && v1 == Ok::<AttrV, Seq<char>>(v),
                SortCondV::Gt(v) => label == ">"@ && v1 == Ok::<AttrV, Seq<char>>(v),
                SortCondV::Ge(v) => label == ">="@ && v1 == Ok::<AttrV, Seq<char>>(v),
                SortCondV::Between(a, b) => label == "between"@ && v1 == Ok::<AttrV, Seq<char>>(a)
                    && scalar(c.defs, sk, trim_spec(s.sk2.0)) == Ok::<AttrV, Seq<char>>(b),
            }
        },
        sort_condition(c, s, sk) matches Ok(Some((k, cond))) ==> (sort_op_label(s.sort_op_idx)
            != "begins_with"@ && sort_op_label(s.sort_op_idx) != "between"@ ==> crate::client::key_condition_text(
            Some(cond),
        ) == "#p = :p AND #s "@ + sort_op_label(s.sort_op_idx) + " :s"@),
{
    reveal_strlit("=");
    reveal_strlit("begins_with");
    reveal_strlit("<");
    reveal_strlit("<=");
    reveal_strlit(">");
    reveal_strlit(">=");
    reveal_strlit("between");
    reveal_strlit("#p = :p");
    reveal_strlit(" AND #s = :s");
    reveal_strlit(" AND #s < :s");
    reveal_strlit(" AND #s <= :s");
    reveal_strlit(" AND #s > :s");
    reveal_strlit(" AND #s >= :s");
    reveal_strlit("#p = :p AND #s ");
    reveal_strlit(" :s");
    let label = sort_op_label(s.sort_op_idx);
    if let Ok(Some((k, cond))) = sort_condition(c, s, sk) {
        if label != "begins_with"@ && label != "between"@ {
            assert(crate::client::key_condition_text(Some(cond)) =~= "#p = :p AND #s "@ + label + " :s"@);
        }
    }
}

/// The query a form asks for, or why it cannot be run: the partition key
/// value is required; a sort key condition is added when its value is given.
pub open spec fn submitted(c: QueryCtx, s: FormV) -> Result<QueryRequestV, Seq<char>> {
    let names = c.options[s.index_idx as int].1;
    let pk_raw = trim_spec(s.pk.0);
    if pk_raw.len() == 0 {
        Err("partition key value is required"@)
    } else {
        match scalar(c.defs, names[0], pk_raw) {
            Err(e) => Err(e),
            Ok(pk) => {
                let sort = if names.len() == 2 {
                    sort_condition(c, s, names[1])
                } else {
                    Ok(None)
                };
                match sort {
                    Err(e) => Err(e),
                    Ok(sort_key) => Ok(
                        QueryRequestV {
                            index_name: if s.index_idx == 0 {
                                None
                            } else {
                                Some(c.options[s.index_idx as int].0)
                            },
                            partition_key: (names[0], pk),
                            sort_key,
                        },
                    ),
                }
            },
        }
    }
}

// ---------------------------------------------------------------------------
// The pattern picker
// ---------------------------------------------------------------------------

/// What `str::to_lowercase` gives for a text.
pub uninterp spec fn lowercased(s: Seq<char>) -> Seq<char>;

/// Lowercases a text (`str::to_lowercase`).
#[verifier::external_body]
fn to_lower(s: &str) -> (r: String)
    ensures
        r@ == lowercased(s@),
{
    s.to_lowercase()
}

/// The words of a text read so far, and the word being read.
pub open spec fn words_acc(s: Seq<char>) -> (Seq<Seq<char>>, Seq<char>)
    decreases s.len(),
{
    if s.len() == 0 {
        (Seq::empty(), Seq::empty())
    } else {
        let (ws, cur) = words_acc(s.drop_last());
        if char_is_whitespace(s.last()) {
            if cur.len() > 0 {
                (ws.push(cur), Seq::empty())
            } else {
                (ws, Seq::empty())
            }
        } else {
            (ws, cur.push(s.last()))
        }
    }
}

/// The words of a text: its runs of characters other than whitespace, in
/// order (as `str::split_whitespace` yields them).
pub open spec fn words(s: Seq<char>) -> Seq<Seq<char>> {
    let (ws, cur) = words_acc(s);
    if cur.len() > 0 {
        ws.push(cur)
    } else {
        ws
    }
}

/// The text a pattern is searched in: its name and key templates, separated
/// by spaces, lowercased.
pub open spec fn haystack(p: (Seq<char>, Seq<char>, Seq<char>)) -> Seq<char> {
    lowercased(p.0 + " "@ + p.1 + " "@ + p.2)
}

/// Whether a text contains every word.
pub open spec fn has_all(hay: Seq<char>, tokens: Seq<Seq<char>>) -> bool {
    forall|i: int| 0 <= i < tokens.len() ==> contains_spec(hay, #[trigger] tokens[i])
}

/// The patterns whose names are favorites, in order.
pub open spec fn favorite_patterns(
    ps: Seq<(Seq<char>, Seq<char>, Seq<char>)>,
    favorites: Seq<Seq<char>>,
) -> Seq<(Seq<char>, Seq<char>, Seq<char>)>
    decreases ps.len(),
{
    if ps.len() == 0 {
        Seq::empty()
    } else {
        let rest = favorite_patterns(ps.drop_last(), favorites);
        if favorites.contains(ps.last().0) {
            rest.push(ps.last())
        } else {
            rest
        }
    }
}

/// The patterns that match every word, in order.
pub open spec fn matching_patterns(
    ps: Seq<(Seq<char>, Seq<char>, Seq<char>)>,
    tokens: Seq<Seq<char>>,
) -> Seq<(Seq<char>, Seq<char>, Seq<char>)>
    decreases ps.len(),
{
    if ps.len() == 0 {
        Seq::empty()
    } else {
        let rest = matching_patterns(ps.drop_last(), tokens);
        if has_all(haystack(ps.last()), tokens) {
            rest.push(ps.last())
        } else {
            rest
        }
    }
}

/// The patterns the picker shows: all of them or the favorites, narrowed to
/// those that contain every word of the filter (trimmed and lowercased).
pub open spec fn visible(c: QueryCtx, s: FormV) -> Seq<(Seq<char>, Seq<char>, Seq<char>)> {
    let (all, filter) = match s.picker {
        Some(p) => (p.show_all, p.filter),
        None => (false, Seq::<char>::empty()),
    };
    let base = if all {
        c.patterns
    } else {
        favorite_patterns(c.patterns, s.favorites)
    };
    let f = lowercased(trim_spec(filter));
    if f.len() == 0 {
        base
    } else {
        matching_patterns(base, words(f))
    }
}

/// A query the form submits asks for the partition key equal to the value
/// typed (trimmed, read as the key attribute's type), and its sort key
/// condition, if any, is on the index's sort key with the comparison whose
/// label the form shows for the selected operator (see
/// [`lemma_sort_condition_follows_label`]).
pub proof fn lemma_submitted_query_follows_form(c: QueryCtx, s: FormV)
    ensures
        submitted(c, s) matches Ok(q) ==> {
            let names = c.options[s.index_idx as int].1;
            &&& trim_spec(s.pk.0).len() > 0
            &&& q.partition_key.0 == names[0]
            &&& scalar(c.defs, names[0], trim_spec(s.pk.0)) == Ok::<AttrV, Seq<char>>(q.partition_key.1)
            &&& q.sort_key matches Some((k, cond)) ==> names.len() == 2 && k == names[1] && {
                let label = sort_op_label(s.sort_op_idx);
                match cond {
                    SortCondV::Eq(_) => label == "="@,
                    SortCondV::BeginsWith(_) => label == "begins_with"@,
                    SortCondV::Lt(_) => label == "<"@,
                    SortCondV::Le(_) => label == "<="@,
                    SortCondV::Gt(_) => label == ">"@,
                    SortCondV::Ge(_) => label == ">="@,
                    SortCondV::Between(_, _) => label == "between"@,
                }
            }
        },
{
    let names = c.options[s.index_idx as int].1;
    if names.len() == 2 {
        lemma_sort_condition_follows_label(c, s, names[1]);
    }
}

/// A pattern survives the filter exactly when its text contains every word
/// of the filter: the patterns that match are those, in their order, whose
/// haystack contains each of the words, not only some of them.
proof fn lemma_matching_patterns_contain(
    ps: Seq<(Seq<char>, Seq<char>, Seq<char>)>,
    tokens: Seq<Seq<char>>,
    p: (Seq<char>, Seq<char>, Seq<char>),
)
    ensures
        matching_patterns(ps, tokens).contains(p) <==> ps.contains(p) && forall|i: int|
            0 <= i < tokens.len() ==> contains_spec(haystack(p), #[trigger] tokens[i]),
    decreases ps.len(),
{
    if ps.len() > 0 {
        let init = ps.drop_last();
        lemma_matching_patterns_contain(init, tokens, p);
        let rest = matching_patterns(init, tokens);
        if ps.contains(p) && p != ps.last() {
            let j = choose|j: int| 0 <= j < ps.len() && ps[j] == p;
            assert(init[j] == p);
        }
        if init.contains(p) {
            let j = choose|j: int| 0 <= j < init.len() && init[j] == p;
            assert(ps[j] == p);
        }
        if rest.contains(p) {
            let j = choose|j: int| 0 <= j < rest.len() && rest[j] == p;
            assert(rest.push(ps.last())[j] == p);
        }
        if has_all(haystack(ps.last()), tokens) {
            assert(rest.push(ps.last())[rest.len() as int] == ps.last());
            if rest.push(ps.last()).contains(p) && p != ps.last() {
                let j = choose|j: int| 0 <= j < rest.len() + 1 && rest.push(ps.last())[j] == p;
                assert(rest[j] == p);
            }
        }
        assert(ps.last() == ps[ps.len() - 1]);
    }
}

/// Under a filter with words in it, the picker shows a pattern of those it
/// lists (all patterns, or the favorites) exactly when the pattern's name
/// and key templates, lowercased, contain every word of the lowercased
/// filter; a pattern missing any one word, not only the first, is left out.
pub proof fn lemma_picker_filter_needs_every_word(c: QueryCtx, s: FormV, p: (Seq<char>, Seq<char>, Seq<char>))
    requires
        s.picker is Some,
        lowercased(trim_spec(s.picker->Some_0.filter)).len() > 0,
    ensures
        ({
            let pk = s.picker->Some_0;
            let base = if pk.show_all {
                c.patterns
            } else {
                favorite_patterns(c.patterns, s.favorites)
            };
            let ws = words(lowercased(trim_spec(pk.filter)));
            visible(c, s).contains(p) <==> base.contains(p) && forall|i: int|
                0 <= i < ws.len() ==> contains_spec(haystack(p), #[trigger] ws[i])
        }),
{
    let pk = s.picker->Some_0;
    let base = if pk.show_all {
        c.patterns
    } else {
        favorite_patterns(c.patterns, s.favorites)
    };
    lemma_matching_patterns_contain(base, words(lowercased(trim_spec(pk.filter))), p);
}

/// A favorite set without `x`.
pub open spec fn strs_remove(ss: Seq<Seq<char>>, x: Seq<char>) -> Seq<Seq<char>>
    decreases ss.len(),
{
    if ss.len() == 0 {
        Seq::empty()
    } else if ss[0] == x {
        ss.drop_first()
    } else {
        seq![ss[0]] + strs_remove(ss.drop_first(), x)
    }
}

/// Starring a name twice leaves the favorites as they were: adding a name
/// that is not a favorite and then removing it, or removing a favorite and
/// then adding it back.
pub proof fn lemma_star_twice(ss: Seq<Seq<char>>, x: Seq<char>)
    requires
        strictly_sorted(ss),
    ensures
        !ss.contains(x) ==> strs_remove(crate::sets::strs_insert(ss, x), x) == ss,
        ss.contains(x) ==> crate::sets::strs_insert(strs_remove(ss, x), x) == ss,
    decreases ss.len(),
{
    if ss.len() > 0 {
        let rest = ss.drop_first();
        assert forall|i: int, j: int| 0 <= i < j < rest.len() implies crate::text::chars_lt(
            #[trigger] rest[i],
            #[trigger] rest[j],
        ) by {
            assert(rest[i] == ss[i + 1] && rest[j] == ss[j + 1]);
        }
        lemma_star_twice(rest, x);
        if !ss.contains(x) {
            assert(ss[0] != x);
            assert(!rest.contains(x)) by {
                if rest.contains(x) {
                    let j = choose|j: int| 0 <= j < rest.len() && rest[j] == x;
                    assert(ss[j + 1] == x);
                }
            }
            if crate::text::chars_lt(x, ss[0]) {
                let ins = seq![x] + ss;
                assert(ins[0] == x);
                assert(ins.drop_first() =~= ss);
            } else {
                let ins = seq![ss[0]] + crate::sets::strs_insert(rest, x);
                assert(ins[0] == ss[0]);
                assert(ins.drop_first() =~= crate::sets::strs_insert(rest, x));
                assert(seq![ss[0]] + rest =~= ss);
            }
        } else if ss[0] == x {
            if rest.len() > 0 {
                assert(crate::text::chars_lt(ss[0], ss[1]));
                assert(rest[0] == ss[1]);
                crate::text::lemma_chars_lt_irreflexive(x);
            }
            if rest.len() == 0 {
                assert(ss =~= seq![x]);
            } else {
                assert(seq![x] + rest =~= ss);
            }
        } else {
            let j = choose|j: int| 0 <= j < ss.len() && ss[j] == x;
            assert(j > 0);
            assert(rest[j - 1] == x);
            assert(rest.contains(x));
            assert(crate::text::chars_lt(ss[0], ss[j]));
            crate::text::lemma_chars_lt_asymmetric(ss[0], x);
            let rem = seq![ss[0]] + strs_remove(rest, x);
            assert(rem[0] == ss[0]);
            assert(rem.drop_first() =~= strs_remove(rest, x));
            assert(seq![ss[0]] + rest =~= ss);
        }
    }
}

/// The form filled from a pattern: the table itself is queried, the
/// partition key template goes in its input, and, when the table has a sort
/// key, a sort key template goes in the sort key input with `begins_with`
/// (templates are prefixes), an empty one clearing it with `=`; the focus
/// moves to the partition key and the error is cleared.
pub open spec fn applied(c: QueryCtx, s: FormV, p: (Seq<char>, Seq<char>, Seq<char>)) -> FormV {
    let s0 = FormV { index_idx: 0, pk: (p.1, p.1.len()), ..s };
    let s1 = if has_sort_key(c, s0) {
        if p.2.len() == 0 {
            FormV { sk: (Seq::empty(), 0), sort_op_idx: 0, ..s0 }
        } else {
            FormV { sk: (p.2, p.2.len()), sort_op_idx: 1, ..s0 }
        }
    } else {
        s0
    };
    FormV { focus: 1, error: None, ..s1 }
}

/// The picker with a new value.
pub open spec fn with_picker(s: FormV, p: PickerV) -> FormV {
    FormV { picker: Some(p), ..s }
}

/// What a key press does while the picker is open.
pub open spec fn picker_step(c: QueryCtx, s: FormV, events: Seq<UserEvent>, key: Key) -> (
    FormV,
    QueryActionV,
) {
    let p = s.picker.unwrap();
    let vis = visible(c, s);
    let len = vis.len();
    let ctrl = key.ctrl_spec();
    let down = key.code == KeyCode::Down || (ctrl && key.code == KeyCode::Char('n'));
    let up = key.code == KeyCode::Up || (ctrl && key.code == KeyCode::Char('p'));
    if events.contains(UserEvent::Reset) {
        (FormV { picker: None, ..s }, QueryActionV::Idle)
    } else if events.contains(UserEvent::Confirm) {
        let s1 = if p.idx < len {
            applied(c, s, vis[p.idx as int])
        } else {
            s
        };
        (FormV { picker: None, ..s1 }, QueryActionV::Idle)
    } else if down && len > 0 {
        (with_picker(s, PickerV { idx: (p.idx + 1) % len, ..p }), QueryActionV::Idle)
    } else if up && len > 0 {
        (with_picker(s, PickerV { idx: ((p.idx + len - 1) as nat) % len, ..p }), QueryActionV::Idle)
    } else if key.code == KeyCode::Left || key.code == KeyCode::Right || (ctrl && key.code
        == KeyCode::Char('a')) {
        (with_picker(s, PickerV { show_all: !p.show_all, idx: 0, ..p }), QueryActionV::Idle)
    } else if ctrl && key.code == KeyCode::Char('s') {
        if p.idx < len {
            let name = vis[p.idx as int].0;
            let favs = if s.favorites.contains(name) {
                strs_remove(s.favorites, name)
            } else {
                crate::sets::strs_insert(s.favorites, name)
            };
            (FormV { favorites: favs, ..s }, QueryActionV::SaveFavorites)
        } else {
            (s, QueryActionV::Idle)
        }
    } else if key.code == KeyCode::Backspace {
        let f = if p.filter.len() > 0 {
            p.filter.drop_last()
        } else {
            p.filter
        };
        (with_picker(s, PickerV { filter: f, idx: 0, ..p }), QueryActionV::Idle)
    } else if !ctrl && key.code is Char {
        let ch = key.code->Char_0;
        (with_picker(s, PickerV { filter: p.filter.push(ch), idx: 0, ..p }), QueryActionV::Idle)
    } else {
        (s, QueryActionV::Idle)
    }
}

// ---------------------------------------------------------------------------
// A key press on the form
// ---------------------------------------------------------------------------

/// What a key press does on the form: the picker, when open, takes it;
/// otherwise the patterns event opens the picker (on all patterns when there
/// are no favorites yet), cancel closes the form, confirm submits it, the
/// next-pane event, down, up and back-tab move the focus round the fields,
/// and any other key goes to the focused field: left and right cycle the
/// index and the comparison, and the inputs take the key as text editing.
pub open spec fn step(c: QueryCtx, s: FormV, events: Seq<UserEvent>, key: Key) -> (
    FormV,
    QueryActionV,
) {
    let n = fields(c, s).len();
    if s.picker is Some {
        picker_step(c, s, events, key)
    } else if events.contains(UserEvent::Patterns) {
        (
            with_picker(
                s,
                PickerV { show_all: s.favorites.len() == 0, idx: 0, filter: Seq::empty() },
            ),
            QueryActionV::Idle,
        )
    } else if events.contains(UserEvent::Reset) {
        (s, QueryActionV::Back)
    } else if events.contains(UserEvent::Confirm) {
        match submitted(c, s) {
            Ok(q) => (s, QueryActionV::RunQuery(q)),
            Err(e) => (FormV { error: Some(e), ..s }, QueryActionV::Idle),
        }
    } else if events.contains(UserEvent::NextPane) || key.code == KeyCode::Down {
        (FormV { focus: (s.focus + 1) % n, ..s }, QueryActionV::Idle)
    } else if key.code == KeyCode::Up || key.code == KeyCode::BackTab {
        (FormV { focus: ((s.focus + n - 1) as nat) % n, ..s }, QueryActionV::Idle)
    } else {
        let right = events.contains(UserEvent::Right);
        let left = events.contains(UserEvent::Left);
        let m = c.options.len();
        match focused(c, s) {
            Field::Index => if right {
                (clamped(c, FormV { index_idx: (s.index_idx + 1) % m, ..s }), QueryActionV::Idle)
            } else if left {
                (
                    clamped(c, FormV { index_idx: ((s.index_idx + m - 1) as nat) % m, ..s }),
                    QueryActionV::Idle,
                )
            } else {
                (s, QueryActionV::Idle)
            },
            Field::SortOp => if right {
                (
                    clamped(c, FormV { sort_op_idx: (s.sort_op_idx + 1) % 7, ..s }),
                    QueryActionV::Idle,
                )
            } else if left {
                (
                    clamped(c, FormV { sort_op_idx: (s.sort_op_idx + 6) % 7, ..s }),
                    QueryActionV::Idle,
                )
            } else {
                (s, QueryActionV::Idle)
            },
            Field::Pk => (
                FormV { pk: edited_input(s.pk.0, s.pk.1, key), ..s },
                QueryActionV::Idle,
            ),
            Field::Sk => (
                FormV { sk: edited_input(s.sk.0, s.sk.1, key), ..s },
                QueryActionV::Idle,
            ),
            Field::Sk2 => (
                FormV { sk2: edited_input(s.sk2.0, s.sk2.1, key), ..s },
                QueryActionV::Idle,
            ),
        }
    }
}

// ---------------------------------------------------------------------------
// Building the form
// ---------------------------------------------------------------------------

/// The key attribute names of an index's key schema, read leniently (see
/// [`schema_of`]).
pub open spec fn index_schema(es: Seq<crate::data::KeySchemaElement>) -> Seq<Seq<char>> {
    match (name_of_kind(es, KeyType::Hash), name_of_kind(es, KeyType::Range)) {
        (Some(h), Some(s)) => seq![h, s],
        (Some(h), None) => seq![h],
        (None, _) => seq![Seq::<char>::empty()],
    }
}

/// The options for a table's secondary indexes of one kind.
pub open spec fn secondary_options(v: Option<Vec<SecondaryIndex>>) -> Seq<(Seq<char>, Seq<Seq<char>>)> {
    match v {
        None => Seq::empty(),
        Some(v) => v@.map_values(
            |i: SecondaryIndex| (i.index_name@, index_schema(i.key_schema@)),
        ),
    }
}

/// The indexes the form offers: the table itself, labelled `(table)`, then
/// its global and its local secondary indexes.
pub open spec fn index_options_of(d: TableDescription) -> Seq<(Seq<char>, Seq<Seq<char>>)> {
    seq![("(table)"@, key_names(d.key_schema_type))] + secondary_options(
        d.global_secondary_indexes,
    ) + secondary_options(d.local_secondary_indexes)
}

/// The help page of the query form.
pub open spec fn query_helps() -> Seq<(Seq<UserEvent>, Seq<char>)> {
    seq![
        (seq![UserEvent::Quit], "Quit app"@),
        (seq![UserEvent::Reset], "Cancel"@),
        (seq![UserEvent::NextPane], "Next field"@),
        (seq![UserEvent::Left], "Previous option"@),
        (seq![UserEvent::Right], "Next option"@),
        (seq![UserEvent::Confirm], "Run query"@),
        (seq![UserEvent::Patterns], "Access patterns (favorites)"@),
    ]
}

/// The status-line help of the query form.
pub open spec fn query_short_helps() -> Seq<(Seq<UserEvent>, Seq<char>, u8)> {
    seq![
        (seq![UserEvent::Quit], "Quit"@, 0u8),
        (seq![UserEvent::Reset], "Cancel"@, 1u8),
        (seq![UserEvent::NextPane], "Next field"@, 2u8),
        (seq![UserEvent::Left, UserEvent::Right], "Change"@, 3u8),
        (seq![UserEvent::Patterns], "Patterns"@, 1u8),
        (seq![UserEvent::Confirm], "Run"@, 0u8),
    ]
}

/// The help page entries (see [`query_helps`]).
pub fn build_helps() -> (r: Vec<HelpItem>)
    ensures
        helps_view(r@) == query_helps(),
{
    let mut v = Vec::new();
    v.push(help(UserEvent::Quit, "Quit app"));
    v.push(help(UserEvent::Reset, "Cancel"));
    v.push(help(UserEvent::NextPane, "Next field"));
    v.push(help(UserEvent::Left, "Previous option"));
    v.push(help(UserEvent::Right, "Next option"));
    v.push(help(UserEvent::Confirm, "Run query"));
    v.push(help(UserEvent::Patterns, "Access patterns (favorites)"));
    assert(helps_view(v@) =~= query_helps());
    v
}

/// The status-line help entries (see [`query_short_helps`]).
pub fn build_short_helps() -> (r: Vec<ShortHelpItem>)
    ensures
        short_helps_view(r@) == query_short_helps(),
{
    let mut v = Vec::new();
    v.push(short_help(UserEvent::Quit, "Quit", 0));
    v.push(short_help(UserEvent::Reset, "Cancel", 1));
    v.push(short_help(UserEvent::NextPane, "Next field", 2));
    v.push(short_help_pair(UserEvent::Left, UserEvent::Right, "Change", 3));
    v.push(short_help(UserEvent::Patterns, "Patterns", 1));
    v.push(short_help(UserEvent::Confirm, "Run", 0));
    assert(short_helps_view(v@) =~= query_short_helps());
    v
}

/// A copy of a key schema.
fn copy_schema(s: &KeySchemaType) -> (r: KeySchemaType)
    ensures
        key_names(r) == key_names(*s),
{
    match s {
        KeySchemaType::Hash(pk) => KeySchemaType::Hash(pk.clone()),
        KeySchemaType::HashRange(pk, sk) => KeySchemaType::HashRange(pk.clone(), sk.clone()),
    }
}

/// Appends the options for secondary indexes.
fn push_index_options(out: &mut Vec<IndexOption>, idx: &Option<Vec<SecondaryIndex>>)
    ensures
        options_view(final(out)@) == options_view(old(out)@) + secondary_options(*idx),
{
    let ghost start = options_view(out@);
    match idx {
        None => {
            assert(options_view(out@) =~= start + secondary_options(*idx));
        },
        Some(v) => {
            let ghost target = secondary_options(*idx);
            let mut i: usize = 0;
            assert(options_view(out@) =~= start + target.take(0));
            while i < v.len()
                invariant
                    i <= v.len(),
                    target == secondary_options(*idx),
                    *idx == Some(*v),
                    target.len() == v@.len(),
                    options_view(out@) == start + target.take(i as int),
                decreases v.len() - i,
            {
                let schema = schema_of(&v[i].key_schema);
                let ghost before = out@;
                out.push(IndexOption { label: v[i].index_name.clone(), schema });
                proof {
                    let es = v@[i as int].key_schema@;
                    assert(key_names(schema) =~= index_schema(es));
                    assert(target[i as int] == (v@[i as int].index_name@, index_schema(es)));
                    assert(options_view(out@) =~= options_view(before).push(
                        (v@[i as int].index_name@, key_names(schema)),
                    ));
                    assert(options_view(out@) =~= start + target.take(i + 1));
                }
                i += 1;
            }
            assert(target.take(v.len() as int) =~= target);
        },
    }
}

/// Whether a set of names holds `x`.
fn contains_string(v: &Vec<String>, x: &String) -> (r: bool)
    ensures
        r == strs_view(v@).contains(x@),
{
    let mut i: usize = 0;
    while i < v.len()
        invariant
            i <= v.len(),
            forall|j: int| 0 <= j < i ==> strs_view(v@)[j] != x@,
        decreases v.len() - i,
    {
        if v[i] == *x {
            assert(strs_view(v@)[i as int] == x@);
            return true;
        }
        i += 1;
    }
    false
}

/// The number of characters of a text.
fn char_len(s: &String) -> (r: usize)
    ensures
        r == s@.len(),
{
    s.as_str().unicode_len()
}

/// The index of `x` in a set of names, if it is there.
fn position_of(v: &Vec<String>, x: &String) -> (r: Option<usize>)
    ensures
        match r {
            Some(i) => i < v@.len() && strs_view(v@)[i as int] == x@ && forall|j: int|
                0 <= j < i ==> strs_view(v@)[j] != x@,
            None => !strs_view(v@).contains(x@),
        },
{
    let mut i: usize = 0;
    while i < v.len()
        invariant
            i <= v.len(),
            forall|j: int| 0 <= j < i ==> strs_view(v@)[j] != x@,
        decreases v.len() - i,
    {
        if v[i] == *x {
            return Some(i);
        }
        i += 1;
    }
    None
}

proof fn lemma_strs_remove_at(ss: Seq<Seq<char>>, x: Seq<char>, i: int)
    requires
        0 <= i < ss.len(),
        ss[i] == x,
        forall|j: int| 0 <= j < i ==> ss[j] != x,
    ensures
        strs_remove(ss, x) == ss.remove(i),
    decreases i,
{
    if i > 0 {
        let rest = ss.drop_first();
        assert forall|j: int| 0 <= j < i - 1 implies rest[j] != x by {
            assert(rest[j] == ss[j + 1]);
        }
        lemma_strs_remove_at(rest, x, i - 1);
        assert(seq![ss[0]] + rest.remove(i - 1) =~= ss.remove(i));
    } else {
        assert(ss.drop_first() =~= ss.remove(0));
    }
}

/// The words of a text (see [`words`]).
fn split_words(cs: &Vec<char>) -> (r: Vec<Vec<char>>)
    ensures
        crate::text::seqs_of(r@) == words(cs@),
{
    let mut ws: Vec<Vec<char>> = Vec::new();
    let mut cur: Vec<char> = Vec::new();
    let mut i: usize = 0;
    assert(cs@.take(0) =~= Seq::<char>::empty());
    assert(crate::text::seqs_of(ws@) =~= Seq::<Seq<char>>::empty());
    while i < cs.len()
        invariant
            i <= cs.len(),
            words_acc(cs@.take(i as int)) == (crate::text::seqs_of(ws@), cur@),
        decreases cs.len() - i,
    {
        let c = cs[i];
        proof {
            let t = cs@.take(i + 1);
            assert(t.drop_last() =~= cs@.take(i as int));
            assert(t.last() == c);
        }
        if is_whitespace(c) {
            if cur.len() > 0 {
                let ghost before = crate::text::seqs_of(ws@);
                let done = cur;
                ws.push(done);
                cur = Vec::new();
                assert(crate::text::seqs_of(ws@) =~= before.push(done@));
                assert(cur@ =~= Seq::<char>::empty());
            } else {
                cur = Vec::new();
                assert(cur@ =~= Seq::<char>::empty());
            }
        } else {
            cur.push(c);
        }
        i += 1;
    }
    assert(cs@.take(cs.len() as int) =~= cs@);
    if cur.len() > 0 {
        let ghost before = crate::text::seqs_of(ws@);
        let done = cur;
        ws.push(done);
        assert(crate::text::seqs_of(ws@) =~= before.push(done@));
    }
    ws
}

/// Whether a text contains every word.
fn contains_all(hay: &Vec<char>, tokens: &Vec<Vec<char>>) -> (r: bool)
    ensures
        r == has_all(hay@, crate::text::seqs_of(tokens@)),
{
    let ghost tv = crate::text::seqs_of(tokens@);
    let mut i: usize = 0;
    while i < tokens.len()
        invariant
            i <= tokens.len(),
            tv == crate::text::seqs_of(tokens@),
            tv.len() == tokens@.len(),
            forall|j: int| 0 <= j < i ==> contains_spec(hay@, #[trigger] tv[j]),
        decreases tokens.len() - i,
    {
        assert(tv[i as int] == tokens@[i as int]@);
        if !contains_chars(hay, &tokens[i]) {
            return false;
        }
        i += 1;
    }
    true
}

impl QueryView {
    /// A form on a table, offering the table and its secondary indexes, with
    /// the patterns and favorite names as loaded. When there are patterns,
    /// the picker opens at once, on all of them when there are no favorites
    /// yet.
    pub fn new(table_description: TableDescription, patterns: Vec<KeyPattern>, favorites: Vec<String>) -> (r: QueryView)
        ensures
            r.wf(),
            r.ctx().options == index_options_of(table_description),
            r.ctx().defs == defs_view(table_description.attribute_definitions@),
            r.ctx().patterns == patterns_view(patterns@),
            r.table_description == table_description,
            r@ == (FormV {
                index_idx: 0,
                pk: (Seq::empty(), 0),
                sort_op_idx: 0,
                sk: (Seq::empty(), 0),
                sk2: (Seq::empty(), 0),
                focus: 0,
                error: None,
                favorites: crate::sets::strs_from(strs_view(favorites@)),
                picker: if patterns@.len() == 0 {
                    None
                } else {
                    Some(
                        PickerV {
                            show_all: crate::sets::strs_from(strs_view(favorites@)).len() == 0,
                            idx: 0,
                            filter: Seq::empty(),
                        },
                    )
                },
            }),
            helps_view(r.helps@) == query_helps(),
            short_helps_view(r.helps_short@) == query_short_helps(),
    {
        let mut index_options: Vec<IndexOption> = Vec::new();
        index_options.push(
            IndexOption {
                label: copy_str("(table)"),
                schema: copy_schema(&table_description.key_schema_type),
            },
        );
        assert(options_view(index_options@) =~= seq![("(table)"@, key_names(table_description.key_schema_type))]);
        push_index_options(&mut index_options, &table_description.global_secondary_indexes);
        push_index_options(&mut index_options, &table_description.local_secondary_indexes);
        let favs = crate::patterns::favorites_from(&favorites);
        let picker = if patterns.len() == 0 {
            None
        } else {
            Some(Picker { show_all: favs.len() == 0, idx: 0, filter: String::new() })
        };
        let r = QueryView {
            table_description,
            index_options,
            index_idx: 0,
            pk_input: TextInput::empty(),
            sort_op_idx: 0,
            sk_input: TextInput::empty(),
            sk_input2: TextInput::empty(),
            focus: 0,
            error: None,
            patterns,
            favorites: favs,
            picker,
            helps: build_helps(),
            helps_short: build_short_helps(),
        };
        proof {
            let c = r.ctx();
            assert(c.options =~= index_options_of(r.table_description));
            assert forall|i: int| 0 <= i < c.options.len() implies 1 <= (#[trigger] c.options[i]).1.len() <= 2 by {
                lemma_index_options_keys(r.table_description, i);
            }
        }
        r
    }

    /// The key schema of the chosen index.
    fn current_schema(&self) -> (r: &KeySchemaType)
        requires
            self.parts_ok(),
        ensures
            key_names(*r) == self.ctx().options[self@.index_idx as int].1,
    {
        &self.index_options[self.index_idx].schema
    }

    /// Whether the chosen index has a sort key.
    fn has_sort_key(&self) -> (r: bool)
        requires
            self.parts_ok(),
        ensures
            r == has_sort_key(self.ctx(), self@),
    {
        match self.current_schema() {
            KeySchemaType::HashRange(_, _) => true,
            KeySchemaType::Hash(_) => false,
        }
    }

    /// The fields the form shows (see [`fields`]).
    pub fn fields(&self) -> (r: Vec<Field>)
        requires
            self.parts_ok(),
        ensures
            r@ == fields(self.ctx(), self@),
    {
        let mut v = Vec::new();
        v.push(Field::Index);
        v.push(Field::Pk);
        if self.has_sort_key() {
            v.push(Field::SortOp);
            v.push(Field::Sk);
            if sort_op_at(self.sort_op_idx) == SortOp::Between {
                v.push(Field::Sk2);
            }
        }
        assert(v@ =~= fields(self.ctx(), self@));
        v
    }

    /// The focused field.
    pub fn focused_field(&self) -> (r: Field)
        requires
            self.parts_ok(),
        ensures
            r == focused(self.ctx(), self@),
    {
        let fields = self.fields();
        if self.focus < fields.len() {
            fields[self.focus]
        } else {
            fields[fields.len() - 1]
        }
    }

    /// Keeps the focus on a field after the fields changed.
    fn clamp_focus(&mut self)
        requires
            old(self).parts_ok(),
        ensures
            final(self)@ == clamped(old(self).ctx(), old(self)@),
            final(self).ctx() == old(self).ctx(),
            final(self).wf(),
            unchanged_parts(*old(self), *final(self)),
    {
        let n = self.fields().len();
        if self.focus >= n {
            self.focus = n - 1;
        }
    }

    /// The key value for a typed text (see [`scalar`]).
    fn build_scalar(&self, attr_name: &String, raw: &String) -> (r: Result<Attribute, String>)
        ensures
            match r {
                Ok(a) => scalar(self.ctx().defs, attr_name@, raw@) == Ok::<AttrV, Seq<char>>(a@),
                Err(e) => scalar(self.ctx().defs, attr_name@, raw@) == Err::<AttrV, Seq<char>>(e@),
            },
    {
        match declared_type(&self.table_description.attribute_definitions, attr_name) {
            Some(ScalarAttributeType::N) => match parse_number(raw.as_str()) {
                Ok(n) => {
                    assert(number_of(n.parts()) == n);
                    Ok(Attribute::N(n))
                },
                Err(_) => {
                    let mut e = concat3("`", attr_name.as_str(), "` must be a number (got `");
                    e.append(raw.as_str());
                    e.append("`)");
                    Err(e)
                },
            },
            _ => Ok(Attribute::S(raw.clone())),
        }
    }


    /// The query the form asks for, or why it cannot be run (see
    /// [`submitted`]).
    fn submit(&self) -> (r: Result<QueryRequest, String>)
        requires
            self.parts_ok(),
        ensures
            match r {
                Ok(q) => submitted(self.ctx(), self@) == Ok::<QueryRequestV, Seq<char>>(q@),
                Err(e) => submitted(self.ctx(), self@) == Err::<QueryRequestV, Seq<char>>(e@),
            },
    {
        let ghost c = self.ctx();
        let ghost s = self@;
        let ghost names = c.options[s.index_idx as int].1;
        let schema = self.current_schema();
        let (pk_name, sk_name) = match schema {
            KeySchemaType::Hash(pk) => (pk, None),
            KeySchemaType::HashRange(pk, sk) => (pk, Some(sk)),
        };
        assert(names[0] == pk_name@);
        let pk_raw = trim(self.pk_input.value.as_str());
        if char_len(&pk_raw) == 0 {
            return Err(copy_str("partition key value is required"));
        }
        let pk_value = match self.build_scalar(pk_name, &pk_raw) {
            Ok(v) => v,
            Err(e) => {
                return Err(e);
            },
        };
        let mut sort_key: Option<(String, SortKeyCondition)> = None;
        match sk_name {
            None => {
                assert(names.len() == 1);
            },
            Some(sk_name) => {
                assert(names.len() == 2 && names[1] == sk_name@);
                let sk_raw = trim(self.sk_input.value.as_str());
                if char_len(&sk_raw) > 0 {
                    let op = sort_op_at(self.sort_op_idx);
                    let cond = match op {
                        SortOp::BeginsWith => SortKeyCondition::BeginsWith(sk_raw),
                        SortOp::Between => {
                            let sk2_raw = trim(self.sk_input2.value.as_str());
                            if char_len(&sk2_raw) == 0 {
                                return Err(copy_str("`between` needs a second value"));
                            }
                            let a = self.build_scalar(sk_name, &sk_raw);
                            let b = self.build_scalar(sk_name, &sk2_raw);
                            match (a, b) {
                                (Ok(a), Ok(b)) => SortKeyCondition::Between(a, b),
                                (Err(e), _) => {
                                    return Err(e);
                                },
                                (_, Err(e)) => {
                                    return Err(e);
                                },
                            }
                        },
                        _ => {
                            let v = match self.build_scalar(sk_name, &sk_raw) {
                                Ok(v) => v,
                                Err(e) => {
                                    return Err(e);
                                },
                            };
                            match op {
                                SortOp::Eq => SortKeyCondition::Eq(v),
                                SortOp::Lt => SortKeyCondition::Lt(v),
                                SortOp::Le => SortKeyCondition::Le(v),
                                SortOp::Gt => SortKeyCondition::Gt(v),
                                _ => SortKeyCondition::Ge(v),
                            }
                        },
                    };
                    sort_key = Some((sk_name.clone(), cond));
                }
            },
        }
        let index_name = if self.index_idx == 0 {
            None
        } else {
            Some(self.index_options[self.index_idx].label.clone())
        };
        Ok(QueryRequest { index_name, partition_key: (pk_name.clone(), pk_value), sort_key })
    }

    /// The patterns the picker shows (see [`visible`]).
    pub fn visible_patterns(&self) -> (r: Vec<KeyPattern>)
        ensures
            patterns_view(r@) == visible(self.ctx(), self@),
    {
        let ghost c = self.ctx();
        let ghost s = self@;
        let (all, filter) = match &self.picker {
            Some(p) => (p.show_all, copy_str(p.filter.as_str())),
            None => (false, String::new()),
        };
        let ghost ps = patterns_view(self.patterns@);
        let mut base: Vec<KeyPattern> = Vec::new();
        let mut i: usize = 0;
        assert(ps.take(0) =~= Seq::<(Seq<char>, Seq<char>, Seq<char>)>::empty());
        assert(patterns_view(base@) =~= Seq::<(Seq<char>, Seq<char>, Seq<char>)>::empty());
        while i < self.patterns.len()
            invariant
                i <= self.patterns.len(),
                ps == patterns_view(self.patterns@),
                ps.len() == self.patterns@.len(),
                s == self@,
                patterns_view(base@) == if all {
                    ps.take(i as int)
                } else {
                    favorite_patterns(ps.take(i as int), s.favorites)
                },
            decreases self.patterns.len() - i,
        {
            let p = &self.patterns[i];
            proof {
                let t = ps.take(i + 1);
                assert(t.drop_last() =~= ps.take(i as int));
                assert(t.last() == p@);
            }
            let keep = all || contains_string(&self.favorites, &p.name);
            let ghost before = patterns_view(base@);
            if keep {
                base.push(p.copy());
                assert(patterns_view(base@) =~= before.push(p@));
            }
            proof {
                if all {
                    assert(patterns_view(base@) =~= ps.take(i + 1));
                }
            }
            i += 1;
        }
        assert(ps.take(self.patterns.len() as int) =~= ps);
        let f = to_lower(trim(filter.as_str()).as_str());
        if char_len(&f) == 0 {
            return base;
        }
        let tokens = split_words(&chars_of(f.as_str()));
        let ghost bv = patterns_view(base@);
        let ghost tv = words(f@);
        let mut out: Vec<KeyPattern> = Vec::new();
        let mut j: usize = 0;
        assert(bv.take(0) =~= Seq::<(Seq<char>, Seq<char>, Seq<char>)>::empty());
        assert(patterns_view(out@) =~= Seq::<(Seq<char>, Seq<char>, Seq<char>)>::empty());
        while j < base.len()
            invariant
                j <= base.len(),
                bv == patterns_view(base@),
                bv.len() == base@.len(),
                crate::text::seqs_of(tokens@) == tv,
                patterns_view(out@) == matching_patterns(bv.take(j as int), tv),
            decreases base.len() - j,
        {
            let p = &base[j];
            proof {
                let t = bv.take(j + 1);
                assert(t.drop_last() =~= bv.take(j as int));
                assert(t.last() == p@);
            }
            let mut text = concat3(p.name.as_str(), " ", p.pk.as_str());
            text.append(" ");
            text.append(p.sk.as_str());
            let hay = to_lower(text.as_str());
            assert(hay@ == haystack(p@));
            let ghost before = patterns_view(out@);
            if contains_all(&chars_of(hay.as_str()), &tokens) {
                out.push(p.copy());
                assert(patterns_view(out@) =~= before.push(p@));
            }
            j += 1;
        }
        assert(bv.take(base.len() as int) =~= bv);
        out
    }

    /// Fills the form from a pattern (see [`applied`]).
    fn apply_pattern(&mut self, p: &KeyPattern)
        requires
            old(self).parts_ok(),
        ensures
            final(self)@ == applied(old(self).ctx(), old(self)@, p@),
            final(self).ctx() == old(self).ctx(),
            final(self).wf(),
            unchanged_parts(*old(self), *final(self)),
    {
        self.index_idx = 0;
        self.pk_input = TextInput::with_value(p.pk.clone());
        if self.has_sort_key() {
            if char_len(&p.sk) == 0 {
                self.sk_input = TextInput::empty();
                self.sort_op_idx = 0;
            } else {
                self.sk_input = TextInput::with_value(p.sk.clone());
                self.sort_op_idx = 1;
            }
        }
        self.focus = 1;
        self.error = None;
    }

    /// Toggles whether a name is a favorite.
    fn toggle_favorite(&mut self, name: String)
        requires
            strictly_sorted(strs_view(old(self).favorites@)),
        ensures
            strs_view(final(self).favorites@) == if strs_view(old(self).favorites@).contains(name@) {
                strs_remove(strs_view(old(self).favorites@), name@)
            } else {
                crate::sets::strs_insert(strs_view(old(self).favorites@), name@)
            },
            strictly_sorted(strs_view(final(self).favorites@)),
            final(self).table_description == old(self).table_description,
            final(self).index_options == old(self).index_options,
            final(self).index_idx == old(self).index_idx,
            final(self).pk_input == old(self).pk_input,
            final(self).sort_op_idx == old(self).sort_op_idx,
            final(self).sk_input == old(self).sk_input,
            final(self).sk_input2 == old(self).sk_input2,
            final(self).focus == old(self).focus,
            final(self).error == old(self).error,
            final(self).patterns == old(self).patterns,
            final(self).picker == old(self).picker,
            final(self).helps == old(self).helps,
            final(self).helps_short == old(self).helps_short,
    {
        let ghost fv = strs_view(self.favorites@);
        match position_of(&self.favorites, &name) {
            Some(pos) => {
                let ghost before = self.favorites@;
                self.favorites.remove(pos);
                proof {
                    assert(fv.contains(name@));
                    lemma_strs_remove_at(fv, name@, pos as int);
                    assert(strs_view(self.favorites@) =~= fv.remove(pos as int));
                    let r = fv.remove(pos as int);
                    assert forall|a: int, b: int| 0 <= a < b < r.len() implies crate::text::chars_lt(
                        #[trigger] r[a],
                        #[trigger] r[b],
                    ) by {
                        let a2 = if a < pos { a } else { a + 1 };
                        let b2 = if b < pos { b } else { b + 1 };
                        assert(r[a] == fv[a2] && r[b] == fv[b2]);
                    }
                }
            },
            None => {
                let ghost nv = name@;
                crate::sets::insert_string(&mut self.favorites, name);
                proof {
                    crate::sets::lemma_strs_insert_sorted(fv, nv);
                }
            },
        }
    }

    /// Reacts to a key press while the picker is open (see [`picker_step`]).
    fn handle_picker_key(&mut self, user_events: &Vec<UserEvent>, key: &Key) -> (r: QueryAction)
        requires
            old(self).wf(),
            old(self).picker is Some,
        ensures
            (final(self)@, action_view(r)) == picker_step(old(self).ctx(), old(self)@, user_events@, *key),
            final(self).ctx() == old(self).ctx(),
            final(self).wf(),
            unchanged_parts(*old(self), *final(self)),
    {
        let ghost c = self.ctx();
        let ghost s = self@;
        let vis = self.visible_patterns();
        let len = vis.len();
        let ctrl = key.ctrl();
        let (show_all, idx) = match &self.picker {
            Some(p) => (p.show_all, p.idx),
            None => (false, 0),
        };
        if has_event(user_events, UserEvent::Reset) {
            self.picker = None;
            return QueryAction::Idle;
        }
        if has_event(user_events, UserEvent::Confirm) {
            if idx < len {
                self.apply_pattern(&vis[idx]);
            }
            self.picker = None;
            return QueryAction::Idle;
        }
        let down = key.code == KeyCode::Down || (ctrl && key.code == KeyCode::Char('n'));
        let up = key.code == KeyCode::Up || (ctrl && key.code == KeyCode::Char('p'));
        if down && len > 0 {
            if let Some(p) = &mut self.picker {
                p.idx = ((idx as u128 + 1) % (len as u128)) as usize;
            }
            return QueryAction::Idle;
        }
        if up && len > 0 {
            if let Some(p) = &mut self.picker {
                p.idx = ((idx as u128 + len as u128 - 1) % (len as u128)) as usize;
            }
            return QueryAction::Idle;
        }
        if key.code == KeyCode::Left || key.code == KeyCode::Right || (ctrl && key.code
            == KeyCode::Char('a')) {
            if let Some(p) = &mut self.picker {
                p.show_all = !show_all;
                p.idx = 0;
            }
            return QueryAction::Idle;
        }
        if ctrl && key.code == KeyCode::Char('s') {
            if idx < len {
                let name = vis[idx].name.clone();
                self.toggle_favorite(name);
                return QueryAction::SaveFavorites;
            }
            return QueryAction::Idle;
        }
        match key.code {
            KeyCode::Backspace => {
                if let Some(p) = &mut self.picker {
                    let mut cs = chars_of(p.filter.as_str());
                    if cs.len() > 0 {
                        cs.pop();
                    }
                    p.filter = crate::text::string_of(&cs);
                    p.idx = 0;
                }
            },
            KeyCode::Char(ch) => {
                if !ctrl {
                    if let Some(p) = &mut self.picker {
                        crate::text::push_char(&mut p.filter, ch);
                        p.idx = 0;
                    }
                }
            },
            _ => {},
        }
        QueryAction::Idle
    }

    /// Reacts to a key press (see [`step`]).
    pub fn handle_user_key_event(&mut self, user_events: Vec<UserEvent>, key: Key) -> (r: QueryAction)
        requires
            old(self).wf(),
        ensures
            (final(self)@, action_view(r)) == step(old(self).ctx(), old(self)@, user_events@, key),
            final(self).ctx() == old(self).ctx(),
            final(self).wf(),
            unchanged_parts(*old(self), *final(self)),
    {
        if self.picker.is_some() {
            return self.handle_picker_key(&user_events, &key);
        }
        if has_event(&user_events, UserEvent::Patterns) {
            self.picker = Some(Picker { show_all: self.favorites.len() == 0, idx: 0, filter: String::new() });
            return QueryAction::Idle;
        }
        if has_event(&user_events, UserEvent::Reset) {
            return QueryAction::Back;
        }
        if has_event(&user_events, UserEvent::Confirm) {
            match self.submit() {
                Ok(q) => {
                    return QueryAction::RunQuery(q);
                },
                Err(e) => {
                    self.error = Some(e);
                    return QueryAction::Idle;
                },
            }
        }
        let n = self.fields().len();
        if has_event(&user_events, UserEvent::NextPane) || key.code == KeyCode::Down {
            self.focus = (self.focus + 1) % n;
            return QueryAction::Idle;
        }
        if key.code == KeyCode::Up || key.code == KeyCode::BackTab {
            self.focus = (self.focus + n - 1) % n;
            return QueryAction::Idle;
        }
        let right = has_event(&user_events, UserEvent::Right);
        let left = has_event(&user_events, UserEvent::Left);
        let m = self.index_options.len();
        match self.focused_field() {
            Field::Index => {
                if right {
                    self.index_idx = ((self.index_idx as u128 + 1) % (m as u128)) as usize;
                    self.clamp_focus();
                } else if left {
                    self.index_idx = ((self.index_idx as u128 + m as u128 - 1) % (m as u128)) as usize;
                    self.clamp_focus();
                }
            },
            Field::SortOp => {
                if right {
                    self.sort_op_idx = (self.sort_op_idx + 1) % SORT_OPS_LEN;
                    self.clamp_focus();
                } else if left {
                    self.sort_op_idx = (self.sort_op_idx + SORT_OPS_LEN - 1) % SORT_OPS_LEN;
                    self.clamp_focus();
                }
            },
            Field::Pk => {
                self.pk_input.handle_key(&key);
            },
            Field::Sk => {
                self.sk_input.handle_key(&key);
            },
            Field::Sk2 => {
                self.sk_input2.handle_key(&key);
            },
        }
        QueryAction::Idle
    }

    /// The status-line help entries.
    pub fn short_helps(&self) -> (r: &Vec<ShortHelpItem>)
        ensures
            r == &self.helps_short,
    {
        &self.helps_short
    }
}

/// The declared type of an attribute (see [`declared`]).
fn declared_type(defs: &Vec<AttributeDefinition>, name: &String) -> (r: Option<ScalarAttributeType>)
    ensures
        r == declared(defs_view(defs@), name@),
{
    let ghost dv = defs_view(defs@);
    let mut i: usize = 0;
    assert(dv.subrange(0, dv.len() as int) =~= dv);
    while i < defs.len()
        invariant
            i <= defs.len(),
            dv == defs_view(defs@),
            dv.len() == defs@.len(),
            declared(dv, name@) == declared(dv.subrange(i as int, dv.len() as int), name@),
        decreases defs.len() - i,
    {
        let ghost rest = dv.subrange(i as int, dv.len() as int);
        assert(rest[0] == (defs@[i as int].attribute_name@, defs@[i as int].attribute_type));
        if defs[i].attribute_name == *name {
            return Some(defs[i].attribute_type);
        }
        assert(rest.drop_first() =~= dv.subrange(i + 1, dv.len() as int));
        i += 1;
    }
    assert(dv.subrange(i as int, dv.len() as int) =~= Seq::<(Seq<char>, ScalarAttributeType)>::empty());
    None
}

/// Every option names one or two key attributes.
proof fn lemma_index_options_keys(d: TableDescription, i: int)
    requires
        0 <= i < index_options_of(d).len(),
    ensures
        1 <= index_options_of(d)[i].1.len() <= 2,
{
    let g = secondary_options(d.global_secondary_indexes);
    let l = secondary_options(d.local_secondary_indexes);
    let head = seq![("(table)"@, key_names(d.key_schema_type))];
    if i == 0 {
        assert(index_options_of(d)[0] == head[0]);
    } else if i < 1 + g.len() {
        assert(index_options_of(d)[i] == g[i - 1]);
        if let Some(v) = d.global_secondary_indexes {
            assert(g[i - 1] == (v@[i - 1].index_name@, index_schema(v@[i - 1].key_schema@)));
        }
    } else {
        assert(index_options_of(d)[i] == l[i - 1 - g.len()]);
        if let Some(v) = d.local_secondary_indexes {
            assert(l[i - 1 - g.len()] == (
                v@[i - 1 - g.len()].index_name@,
                index_schema(v@[i - 1 - g.len()].key_schema@),
            ));
        }
    }
}

} // verus!
