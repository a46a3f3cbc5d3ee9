use ddv::view::lines::Tone;
use ddv::client::vec_into;
use ddv::number::Number;
use ddv::app_state::{AppEffect, AppState, KeyVerdict, Status};
use ddv::config::{Config, OptionalConfig, OptionalUiConfig, OptionalUiTableConfig, UiConfig};
use ddv::data::{KeySchemaType, Table, TableDescription};
use ddv::event::UserEvent;

fn desc() -> TableDescription {
    TableDescription {
        table_name: "t".into(),
        attribute_definitions: vec![],
        key_schema: vec![],
        key_schema_type: KeySchemaType::Hash("id".into()),
        global_secondary_indexes: None,
        local_secondary_indexes: None,
    }
}

#[test]
fn keys_are_gated_by_loading_and_messages() {
    let mut s = AppState::new(true);
    assert!(s.loading);
    assert_eq!(s.on_key(&vec![UserEvent::Down], false), KeyVerdict::Ignore);
    assert_eq!(s.on_key(&vec![UserEvent::Quit], false), KeyVerdict::Quit);
    s.loading = false;
    s.set_status(Status::NotificationWarning("w".into()));
    assert_eq!(s.on_key(&vec![UserEvent::Down], false), KeyVerdict::Forward);
    assert_eq!(s.status, Status::Clear);
    s.set_status(Status::NotificationError("e".into()));
    assert_eq!(s.on_key(&vec![UserEvent::Down], false), KeyVerdict::Ignore);
    assert_eq!(s.status, Status::Clear);
    s.set_status(Status::NotificationError("e".into()));
    assert_eq!(s.on_key(&vec![UserEvent::Down], true), KeyVerdict::Quit);
}

#[test]
fn initialization_outcomes() {
    let mut s = AppState::new(true);
    assert_eq!(
        s.complete_initialize(Ok(vec![])),
        vec![AppEffect::Notify(Status::NotificationWarning("No tables found.".into()))]
    );
    assert!(!s.loading);
    let mut s = AppState::new(true);
    let tables = vec![Table::new("t".into())];
    assert_eq!(
        s.complete_initialize(Ok(tables.clone())),
        vec![AppEffect::ReplaceWithTableList(tables.clone()), AppEffect::DescribeTable(tables[0].name.clone())]
    );
    assert!(s.loading);
    assert_eq!(
        s.complete_initialize(Err("boom".into())),
        vec![AppEffect::Notify(Status::NotificationError("boom".into()))]
    );
    assert!(!s.loading);
}

#[test]
fn loaded_items_and_saves() {
    let mut s = AppState::new(false);
    assert_eq!(s.load_table_items(desc()), vec![AppEffect::ScanItems(desc())]);
    assert!(s.loading);
    assert_eq!(
        s.complete_load_table_items(desc(), Ok(vec![]), true),
        vec![
            AppEffect::PopView,
            AppEffect::Notify(Status::NotificationWarning("Table t has no items".into())),
        ]
    );
    assert!(!s.loading);
    assert_eq!(
        s.complete_save_item(desc(), Ok(())),
        vec![
            AppEffect::PopView,
            AppEffect::Notify(Status::NotificationSuccess("Item saved".into())),
            AppEffect::LoadTableItems(desc()),
        ]
    );
    assert_eq!(
        s.complete_delete_item(desc(), Err("denied".into())),
        vec![AppEffect::Notify(Status::NotificationError("denied".into()))]
    );
    assert_eq!(
        s.copied_to_clipboard("key", Ok(())),
        vec![AppEffect::Notify(Status::NotificationSuccess(
            "Copied key to clipboard successfully".into()
        ))]
    );
    assert_eq!(s.select_profile("dev".into()), vec![AppEffect::ConnectClient("dev".into())]);
    assert!(s.loading);
}

#[test]
fn config_defaults() {
    let c = Config::default();
    assert_eq!(c.default_region, "us-east-1");
    assert!(c.profiles.is_empty());
    assert_eq!(c.ui.table_list.list_width, 30);
    assert_eq!(c.ui.table.max_attribute_width, 30);
    assert_eq!(c.ui.table.max_expand_width, 35);
    assert_eq!(c.ui.table.max_expand_height, 6);
    assert_eq!(UiConfig::default(), c.ui);
}

#[test]
fn config_from_file_settings() {
    let opt = OptionalConfig {
        default_region: None,
        profiles: Some(vec!["local".to_string(), "Admin".to_string()]),
        ui: Some(OptionalUiConfig {
            table_list: None,
            table: Some(OptionalUiTableConfig {
                max_attribute_width: Some(12),
                max_expand_width: None,
                max_expand_height: None,
            }),
        }),
    };
    let cfg = Config::from_optional(opt);
    assert_eq!(cfg.profiles, vec!["local".to_string(), "Admin".to_string()]);
    assert_eq!(cfg.default_region, "us-east-1");
    assert_eq!(cfg.ui.table.max_attribute_width, 12);
    assert_eq!(cfg.ui.table.max_expand_width, 35);
    assert_eq!(cfg.ui.table_list.list_width, 30);
    let empty = Config::from_optional(OptionalConfig { default_region: None, profiles: None, ui: None });
    assert!(empty.profiles.is_empty());
    assert_eq!(empty, Config::default());
}

#[test]
fn status_line_texts() {
    let mut s = AppState::new(false);
    assert!(s.status_line().is_none());
    s.set_status(Status::NotificationError("bad".into()));
    let sp = s.status_line().unwrap();
    assert_eq!(sp.text, "ERROR: bad");
    assert_eq!(sp.tone, Tone::Error);
    s.set_status(Status::Input("type".into(), Some(3)));
    assert_eq!(s.status_cursor(), Some(3));
    assert_eq!(s.status_line().unwrap().tone, Tone::Plain);
}

#[test]
fn vec_into_converts_each_element() {
    let v: Vec<Number> = vec_into(vec![1, -2]);
    assert_eq!(v, vec![Number::from(1), Number::from(-2)]);
}
