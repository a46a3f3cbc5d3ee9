//! Verified core of a terminal DynamoDB viewer and editor.
pub mod text;
pub mod number;
pub mod aws_profiles;
pub mod data;
pub mod data_view;
pub mod order;
pub mod client;
pub mod sets;
pub mod json_view;
pub mod json;
pub mod util;
pub mod item_json;
pub mod item_write;
pub mod round_trip;
pub mod read_back;
pub mod event;
pub mod input;
pub mod scroll_list;
pub mod patterns;
pub mod view;
pub mod app_state;
pub mod config;
