use ddv::patterns::{favorites_file_text, favorites_from_text};
use ddv::view::lines::{short_help_line, Tone};
use ddv::data::{
    Attribute, AttributeDefinition, KeySchemaElement, KeySchemaType, KeyType, ScalarAttributeType,
    SecondaryIndex, SortKeyCondition, TableDescription,
};
use ddv::event::{Key, KeyCode, UserEvent};
use ddv::item_json::item_from_typed_json;
use ddv::patterns::{favorites_from, KeyPattern};
use ddv::scroll_list::ScrollListState;
use ddv::view::browse::{item_list_step, table_list_step, ItemListAction, TableListAction};
use ddv::view::edit::{EditAction, EditView, JsonMode};
use ddv::view::profile_list::{ProfileAction, ProfileListView};
use ddv::view::query::{Field, QueryAction, QueryView};

fn key(code: KeyCode) -> Key {
    Key { code, modifiers: 0 }
}

fn ctrl(c: char) -> Key {
    Key { code: KeyCode::Char(c), modifiers: 2 }
}

fn table(schema: KeySchemaType) -> TableDescription {
    TableDescription {
        table_name: "users".into(),
        attribute_definitions: vec![
            AttributeDefinition::new("PK".into(), ScalarAttributeType::S),
            AttributeDefinition::new("n".into(), ScalarAttributeType::N),
        ],
        key_schema: vec![],
        key_schema_type: schema,
        global_secondary_indexes: Some(vec![SecondaryIndex {
            index_name: "byN".into(),
            key_schema: vec![KeySchemaElement { attribute_name: "n".into(), key_type: KeyType::Hash }],
        }]),
        local_secondary_indexes: None,
    }
}

fn pattern(name: &str, pk: &str, sk: &str) -> KeyPattern {
    KeyPattern { name: name.into(), pk: pk.into(), sk: sk.into() }
}

fn type_text(view: &mut QueryView, text: &str) {
    for c in text.chars() {
        view.handle_user_key_event(vec![], key(KeyCode::Char(c)));
    }
}

#[test]
fn scroll_list_moves_within_bounds() {
    let mut s = ScrollListState::new(5);
    s.set_height(2);
    s.select_prev();
    assert_eq!((s.selected, s.offset), (0, 0));
    s.select_next();
    s.select_next();
    assert_eq!((s.selected, s.offset), (2, 1));
    s.select_next_page();
    assert_eq!((s.selected, s.offset), (4, 3));
    s.select_next();
    assert_eq!((s.selected, s.offset), (4, 3));
    s.select_prev_page();
    assert_eq!((s.selected, s.offset), (2, 2));
    s.select_first();
    assert_eq!((s.selected, s.offset), (0, 0));
    s.select_last();
    assert_eq!((s.selected, s.offset), (4, 3));
    let mut e = ScrollListState::new(0);
    e.select_next();
    e.select_last();
    assert_eq!((e.selected, e.offset), (0, 0));
}

#[test]
fn profile_list_selects_and_confirms() {
    let mut v = ProfileListView::new(vec!["a".into(), "b".into()]);
    assert_eq!(v.selected(), Some(&"a".to_string()));
    assert_eq!(v.handle_user_key_event(vec![UserEvent::Down]), ProfileAction::Idle);
    assert_eq!(v.selected(), Some(&"b".to_string()));
    assert_eq!(
        v.handle_user_key_event(vec![UserEvent::Quit, UserEvent::Confirm]),
        ProfileAction::SelectProfile("b".into())
    );
    match v.handle_user_key_event(vec![UserEvent::Help]) {
        ProfileAction::OpenHelp(h) => assert_eq!(h.len(), 4),
        other => panic!("expected help, got {other:?}"),
    }
    assert_eq!(v.short_helps().len(), 3);
    let mut empty = ProfileListView::new(vec![]);
    assert_eq!(empty.selected(), None);
    assert_eq!(empty.handle_user_key_event(vec![UserEvent::Confirm]), ProfileAction::Idle);
}

#[test]
fn json_mode_labels() {
    assert_eq!(JsonMode::Typed.label(), "typed");
    assert_eq!(JsonMode::Plain.label(), "plain");
}

#[test]
fn editor_starts_from_a_skeleton_and_saves() {
    let schema = KeySchemaType::HashRange("PK".into(), "SK".into());
    let (mut view, text) = EditView::new(table(schema), None);
    assert!(!view.editing);
    assert_eq!(view.mode, JsonMode::Typed);
    assert_eq!(text, "{\n  \"PK\": {\n    \"S\": \"\"\n  },\n  \"SK\": {\n    \"S\": \"\"\n  }\n}");
    match view.handle_user_key_event(vec![UserEvent::Save], &text) {
        EditAction::SaveItem(item) => assert_eq!(item.attributes.len(), 2),
        other => panic!("expected save, got {other:?}"),
    }
    let action = view.handle_user_key_event(vec![UserEvent::Save], r#"{"PK":{"S":"x"}}"#);
    assert_eq!(action, EditAction::Idle);
    assert_eq!(view.error, Some("missing key attribute(s): SK".to_string()));
    assert_eq!(view.handle_user_key_event(vec![], "{}"), EditAction::EditText);
    assert_eq!(view.error, None);
    assert_eq!(view.handle_user_key_event(vec![UserEvent::Reset], "{}"), EditAction::Back);
    assert_eq!(view.handle_user_key_event(vec![UserEvent::Save], "{oops"), EditAction::Idle);
    assert!(view.error.as_ref().unwrap().starts_with("invalid JSON: "));
}

#[test]
fn editor_switches_between_typed_and_plain() {
    let item = item_from_typed_json(r#"{"PK":{"S":"p"},"n":{"N":"3"}}"#).unwrap();
    let (mut view, text) = EditView::new(table(KeySchemaType::Hash("PK".into())), Some(item));
    assert!(view.editing);
    let plain = match view.handle_user_key_event(vec![UserEvent::ToggleJsonMode], &text) {
        EditAction::ReplaceText(t) => t,
        other => panic!("expected text, got {other:?}"),
    };
    assert_eq!(plain, "{\n  \"PK\": \"p\",\n  \"n\": 3\n}");
    assert_eq!(view.mode, JsonMode::Plain);
    let typed = match view.handle_user_key_event(vec![UserEvent::ToggleJsonMode], &plain) {
        EditAction::ReplaceText(t) => t,
        other => panic!("expected text, got {other:?}"),
    };
    assert_eq!(typed, text);
    assert_eq!(view.mode, JsonMode::Typed);
    let with_set = r#"{"PK":{"S":"p"},"s":{"SS":["a"]}}"#;
    assert_eq!(view.handle_user_key_event(vec![UserEvent::ToggleJsonMode], with_set), EditAction::Idle);
    assert_eq!(
        view.error,
        Some("can't switch to plain: item has set/binary attributes".to_string())
    );
    assert_eq!(view.mode, JsonMode::Typed);
}

#[test]
fn query_form_requires_a_partition_key_value() {
    let mut view = QueryView::new(table(KeySchemaType::HashRange("PK".into(), "SK".into())), vec![], vec![]);
    assert!(view.picker.is_none());
    assert_eq!(view.index_options.len(), 2);
    assert_eq!(view.index_options[0].label, "(table)");
    assert_eq!(view.index_options[1].label, "byN");
    assert_eq!(view.handle_user_key_event(vec![UserEvent::Confirm], key(KeyCode::Other)), QueryAction::Idle);
    assert_eq!(view.error, Some("partition key value is required".to_string()));
    assert_eq!(view.handle_user_key_event(vec![UserEvent::Reset], key(KeyCode::Other)), QueryAction::Back);
}

#[test]
fn query_form_builds_the_request() {
    let mut view = QueryView::new(table(KeySchemaType::HashRange("PK".into(), "SK".into())), vec![], vec![]);
    assert_eq!(view.fields(), vec![Field::Index, Field::Pk, Field::SortOp, Field::Sk]);
    view.handle_user_key_event(vec![UserEvent::NextPane], key(KeyCode::Other));
    assert_eq!(view.focused_field(), Field::Pk);
    type_text(&mut view, " u#1 ");
    assert_eq!(view.pk_input.value, " u#1 ");
    view.handle_user_key_event(vec![], key(KeyCode::Down));
    assert_eq!(view.focused_field(), Field::SortOp);
    view.handle_user_key_event(vec![UserEvent::Right], key(KeyCode::Right));
    assert_eq!(view.sort_op_idx, 1);
    view.handle_user_key_event(vec![], key(KeyCode::Down));
    type_text(&mut view, "PAY#");
    match view.handle_user_key_event(vec![UserEvent::Confirm], key(KeyCode::Other)) {
        QueryAction::RunQuery(q) => {
            assert_eq!(q.index_name, None);
            assert_eq!(q.partition_key, ("PK".to_string(), Attribute::S("u#1".into())));
            assert_eq!(q.sort_key, Some(("SK".to_string(), SortKeyCondition::BeginsWith("PAY#".into()))));
        }
        other => panic!("expected a query, got {other:?}"),
    }
}

#[test]
fn query_form_between_needs_two_values_and_numbers_parse() {
    let mut view = QueryView::new(table(KeySchemaType::HashRange("PK".into(), "n".into())), vec![], vec![]);
    view.handle_user_key_event(vec![UserEvent::NextPane], key(KeyCode::Other));
    type_text(&mut view, "p");
    view.handle_user_key_event(vec![UserEvent::NextPane], key(KeyCode::Other));
    // cycle the comparison back to `between`
    view.handle_user_key_event(vec![UserEvent::Left], key(KeyCode::Left));
    assert_eq!(view.sort_op_idx, 6);
    assert_eq!(view.fields().len(), 5);
    view.handle_user_key_event(vec![UserEvent::NextPane], key(KeyCode::Other));
    type_text(&mut view, "x");
    view.handle_user_key_event(vec![UserEvent::Confirm], key(KeyCode::Other));
    assert_eq!(view.error, Some("`between` needs a second value".to_string()));
    view.handle_user_key_event(vec![UserEvent::NextPane], key(KeyCode::Other));
    assert_eq!(view.focused_field(), Field::Sk2);
    type_text(&mut view, "9");
    view.handle_user_key_event(vec![UserEvent::Confirm], key(KeyCode::Other));
    assert_eq!(view.error, Some("`n` must be a number (got `x`)".to_string()));
}

#[test]
fn query_form_on_an_index() {
    let mut view = QueryView::new(table(KeySchemaType::HashRange("PK".into(), "SK".into())), vec![], vec![]);
    view.handle_user_key_event(vec![UserEvent::Right], key(KeyCode::Right));
    assert_eq!(view.index_idx, 1);
    assert_eq!(view.fields(), vec![Field::Index, Field::Pk]);
    view.handle_user_key_event(vec![], key(KeyCode::Up));
    assert_eq!(view.focused_field(), Field::Pk);
    type_text(&mut view, "2.5");
    match view.handle_user_key_event(vec![UserEvent::Confirm], key(KeyCode::Other)) {
        QueryAction::RunQuery(q) => {
            assert_eq!(q.index_name, Some("byN".to_string()));
            assert_eq!(q.partition_key.0, "n");
            assert_eq!(q.partition_key.1, Attribute::N(ddv::number::parse_number("2.5").unwrap()));
            assert_eq!(q.sort_key, None);
        }
        other => panic!("expected a query, got {other:?}"),
    }
}

#[test]
fn pattern_picker_filters_and_fills_the_form() {
    let patterns = vec![
        pattern("User connection", "ORG#${orgId}#USER#${userId}", "CONNECTION#${connectionId}"),
        pattern("Org", "ORG#${orgId}", ""),
    ];
    let mut view = QueryView::new(
        table(KeySchemaType::HashRange("PK".into(), "SK".into())),
        patterns,
        vec![],
    );
    let picker = view.picker.clone().unwrap();
    assert!(picker.show_all);
    assert_eq!(view.visible_patterns().len(), 2);
    type_text(&mut view, "USER conn");
    assert_eq!(view.picker.as_ref().unwrap().filter, "USER conn");
    let vis = view.visible_patterns();
    assert_eq!(vis.len(), 1);
    assert_eq!(vis[0].name, "User connection");
    view.handle_user_key_event(vec![], key(KeyCode::Backspace));
    assert_eq!(view.picker.as_ref().unwrap().filter, "USER con");
    view.handle_user_key_event(vec![UserEvent::Confirm], key(KeyCode::Other));
    assert!(view.picker.is_none());
    assert_eq!(view.pk_input.value, "ORG#${orgId}#USER#${userId}");
    assert_eq!(view.sk_input.value, "CONNECTION#${connectionId}");
    assert_eq!(view.sort_op_idx, 1);
    assert_eq!(view.focus, 1);
}

#[test]
fn pattern_picker_stars_favorites() {
    let patterns = vec![pattern("b", "B", ""), pattern("a", "A", "")];
    let mut view = QueryView::new(table(KeySchemaType::Hash("PK".into())), patterns, vec!["b".into()]);
    assert!(!view.picker.as_ref().unwrap().show_all);
    assert_eq!(view.visible_patterns().len(), 1);
    view.handle_user_key_event(vec![], key(KeyCode::Right));
    assert!(view.picker.as_ref().unwrap().show_all);
    view.handle_user_key_event(vec![], key(KeyCode::Down));
    assert_eq!(view.picker.as_ref().unwrap().idx, 1);
    assert_eq!(view.handle_user_key_event(vec![], ctrl('s')), QueryAction::SaveFavorites);
    assert_eq!(view.favorites, vec!["a".to_string(), "b".to_string()]);
    assert_eq!(view.handle_user_key_event(vec![], ctrl('s')), QueryAction::SaveFavorites);
    assert_eq!(view.favorites, vec!["b".to_string()]);
    view.handle_user_key_event(vec![], ctrl('n'));
    assert_eq!(view.picker.as_ref().unwrap().idx, 0);
    view.handle_user_key_event(vec![UserEvent::Reset], key(KeyCode::Other));
    assert!(view.picker.is_none());
    view.handle_user_key_event(vec![UserEvent::Patterns], key(KeyCode::Other));
    assert!(!view.picker.as_ref().unwrap().show_all);
}

#[test]
fn favorites_are_a_sorted_set() {
    let favs = favorites_from(&vec!["b".into(), "a".into(), "b".into()]);
    assert_eq!(favs, vec!["a".to_string(), "b".to_string()]);
}

#[test]
fn help_lists() {
    assert_eq!(ddv::view::query::build_helps().len(), 7);
    assert_eq!(ddv::view::query::build_short_helps().len(), 6);
    assert_eq!(ddv::view::edit::build_helps()[3].desc, "Toggle typed/plain JSON");
    assert_eq!(ddv::view::edit::build_short_helps()[3].priority, 2);
    let short = ddv::view::profile_list::build_short_helps();
    assert_eq!(short[1].events, vec![UserEvent::Down, UserEvent::Up]);
}

#[test]
fn starring_twice_restores_the_favorites() {
    let patterns = vec![pattern("x", "X", "")];
    let mut view = QueryView::new(table(KeySchemaType::Hash("PK".into())), patterns, vec!["a".into(), "z".into()]);
    view.handle_user_key_event(vec![], key(KeyCode::Right));
    assert!(view.picker.as_ref().unwrap().show_all);
    view.handle_user_key_event(vec![], ctrl('s'));
    assert_eq!(view.favorites, vec!["a".to_string(), "x".to_string(), "z".to_string()]);
    view.handle_user_key_event(vec![], ctrl('s'));
    assert_eq!(view.favorites, vec!["a".to_string(), "z".to_string()]);
}

#[test]
fn query_form_lines_and_cursor() {
    let mut view = QueryView::new(table(KeySchemaType::HashRange("PK".into(), "SK".into())), vec![], vec![]);
    assert_eq!(view.title(), " Query users ");
    view.handle_user_key_event(vec![UserEvent::NextPane], key(KeyCode::Other));
    type_text(&mut view, "ab");
    let lines = view.form_lines();
    assert_eq!(lines.len(), 5);
    assert_eq!(lines[0][0].text, "Index  ");
    assert_eq!(lines[0][1].text, "< (table) >");
    assert_eq!(lines[0][1].tone, Tone::Plain);
    assert_eq!(lines[1][0].text, "PK  = ");
    assert_eq!(lines[1][1].text, "[ ab ]");
    assert_eq!(lines[1][1].tone, Tone::Accent);
    assert_eq!(lines[2][1].text, "< = >");
    assert_eq!(lines[3][0].text, "");
    assert_eq!(lines[4][0].tone, Tone::Hint);
    assert_eq!(view.cursor_anchor(), Some((1, 8)));
    view.handle_user_key_event(vec![UserEvent::NextPane], key(KeyCode::Other));
    view.handle_user_key_event(vec![UserEvent::NextPane], key(KeyCode::Other));
    assert_eq!(view.cursor_anchor(), Some((2, 13)));
    view.handle_user_key_event(vec![UserEvent::Confirm], key(KeyCode::Other));
    let lines = view.form_lines();
    assert_eq!(lines[4][0].tone, Tone::Hint);
}

#[test]
fn picker_title_and_rows() {
    let patterns = vec![
        pattern("one", "P1", ""),
        pattern("two", "P2", "S2"),
        pattern("three", "P3", ""),
    ];
    let mut view = QueryView::new(table(KeySchemaType::Hash("PK".into())), patterns, vec!["two".into()]);
    assert_eq!(view.picker_title(), " Patterns — Favorites (1) ");
    view.handle_user_key_event(vec![], key(KeyCode::Right));
    assert_eq!(view.picker_title(), " Patterns — All (3) ");
    view.handle_user_key_event(vec![], key(KeyCode::Down));
    view.handle_user_key_event(vec![], key(KeyCode::Down));
    let lines = view.picker_lines(4);
    // two rows fit; the selected third pattern is the last shown
    assert_eq!(lines.len(), 4);
    assert_eq!(lines[0][0].text, "★ two   PK:P2   SK:S2");
    assert_eq!(lines[1][0].text, "  three   PK:P3");
    assert_eq!(lines[1][0].tone, Tone::Selected);
    type_text(&mut view, "zz");
    assert_eq!(view.picker_title(), " Patterns — All (0)   filter: zz ");
    let lines = view.picker_lines(10);
    assert_eq!(lines[0][0].text, "No favorites yet.");
}

#[test]
fn editor_title_and_footer() {
    let (mut view, _) = EditView::new(table(KeySchemaType::Hash("PK".into())), None);
    assert_eq!(view.title(), " New item users  [typed] ");
    assert_eq!(view.footer().tone, Tone::Hint);
    view.handle_user_key_event(vec![UserEvent::Save], "{}");
    let footer = view.footer();
    assert_eq!(footer.text, "  missing key attribute(s): PK");
    assert_eq!(footer.tone, Tone::Error);
}

#[test]
fn profile_rows_follow_the_scroll_position() {
    let mut v = ProfileListView::new(vec!["a".into(), "b".into(), "c".into()]);
    v.list_state.set_height(1);
    v.handle_user_key_event(vec![UserEvent::GoToBottom]);
    assert_eq!(v.rows(), vec![(" c".to_string(), true)]);
    v.handle_user_key_event(vec![UserEvent::GoToTop]);
    assert_eq!(v.rows()[0], (" a".to_string(), true));
}

#[test]
fn short_help_line_orders_by_priority_and_fits_width() {
    let parts = vec![
        ("q: Quit".to_string(), 0u8),
        ("j/k: Select".to_string(), 2u8),
        ("enter: Use profile".to_string(), 1u8),
    ];
    assert_eq!(short_help_line(&parts, 100), "q: Quit, enter: Use profile, j/k: Select");
    assert_eq!(short_help_line(&parts, 30), "q: Quit, enter: Use profile");
    assert_eq!(short_help_line(&parts, 9), "q: Quit");
    assert_eq!(short_help_line(&parts, 8), "");
    assert_eq!(short_help_line(&Vec::new(), 80), "");
}

#[test]
fn table_list_describes_the_newly_selected_table() {
    let mut state = ddv::scroll_list::ScrollListState::new(2);
    assert_eq!(table_list_step(&mut state, &vec![UserEvent::Up], false), TableListAction::Idle);
    assert_eq!(table_list_step(&mut state, &vec![UserEvent::Down], false), TableListAction::Describe(1));
    assert_eq!(state.selected, 1);
    assert_eq!(table_list_step(&mut state, &vec![UserEvent::Down], true), TableListAction::Idle);
    assert_eq!(table_list_step(&mut state, &vec![UserEvent::Confirm], false), TableListAction::Idle);
    assert_eq!(table_list_step(&mut state, &vec![UserEvent::Confirm], true), TableListAction::LoadItems);
}

#[test]
fn item_list_asks_before_deleting() {
    let ch = |c: char| Key { code: KeyCode::Char(c), modifiers: 0 };
    let mut state = ddv::scroll_list::ScrollListState::new(3);
    assert_eq!(item_list_step(&mut state, false, true, &vec![UserEvent::Down], &ch('j')), ItemListAction::Idle);
    assert_eq!(state.selected, 1);
    assert_eq!(item_list_step(&mut state, false, true, &vec![], &ch('d')), ItemListAction::AskDelete);
    assert_eq!(item_list_step(&mut state, true, true, &vec![], &ch('y')), ItemListAction::Delete);
    assert_eq!(item_list_step(&mut state, true, true, &vec![], &ch('n')), ItemListAction::CancelDelete);
    assert_eq!(item_list_step(&mut state, false, false, &vec![], &ch('d')), ItemListAction::Idle);
    assert_eq!(item_list_step(&mut state, false, true, &vec![], &ch('?')), ItemListAction::OpenQuery);
    assert_eq!(item_list_step(&mut state, false, true, &vec![], &ch('e')), ItemListAction::EditSelected);
    assert_eq!(item_list_step(&mut state, false, true, &vec![], &ch('n')), ItemListAction::NewItem);
    assert_eq!(item_list_step(&mut state, false, true, &vec![], &ch('y')), ItemListAction::CopySelected);
    assert_eq!(item_list_step(&mut state, false, true, &vec![UserEvent::Reset], &ch('x')), ItemListAction::Back);
}

#[test]
fn favorites_file_reads_as_a_sorted_set() {
    assert_eq!(favorites_from_text(r#"["b", "a", "b"]"#), vec!["a".to_string(), "b".to_string()]);
    assert!(favorites_from_text("not json").is_empty());
    assert!(favorites_from_text(r#"{"a": 1}"#).is_empty());
    assert!(favorites_from_text("[1, 2]").is_empty());
    assert!(favorites_from_text("[]").is_empty());
}

#[test]
fn favorites_file_text_is_pretty_json_ascending() {
    let favs = vec!["b\"q".to_string(), "a".to_string(), "b\"q".to_string()];
    let text = favorites_file_text(&favs);
    assert_eq!(text, "[\n  \"a\",\n  \"b\\\"q\"\n]");
    assert_eq!(favorites_file_text(&Vec::new()), "[]");
    assert_eq!(favorites_from_text(&text), vec!["a".to_string(), "b\"q".to_string()]);
}
