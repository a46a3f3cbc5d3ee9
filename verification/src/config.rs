//! The configuration: the default region, the profiles the picker offers,
//! and layout sizes, each with its default. A configuration file may give
//! any of them; what it leaves out takes the default.
use vstd::prelude::*;

use crate::text::copy_str;

verus! {

/// The configuration.
#[derive(Clone, Debug, PartialEq, Eq)]
pub struct Config {
    pub default_region: String,
    /// When not empty, the profile picker offers exactly these profiles, in
    /// this order; when empty, every profile found in the AWS files.
    pub profiles: Vec<String>,
    pub ui: UiConfig,
}

/// Layout settings.
#[derive(Clone, Debug, PartialEq, Eq)]
pub struct UiConfig {
    pub table_list: UiTableListConfig,
    pub table: UiTableConfig,
}

/// Layout of the table list.
#[derive(Clone, Copy, Debug, PartialEq, Eq)]
pub struct UiTableListConfig {
    pub list_width: u16,
}

/// Layout of the table view.
#[derive(Clone, Copy, Debug, PartialEq, Eq)]
pub struct UiTableConfig {
    pub max_attribute_width: usize,
    pub max_expand_width: u16,
    pub max_expand_height: u16,
}

impl Default for UiTableListConfig {
    fn default() -> (r: UiTableListConfig)
        ensures
            r.list_width == 30,
    {
        UiTableListConfig { list_width: 30 }
    }
}

impl Default for UiTableConfig {
    fn default() -> (r: UiTableConfig)
        ensures
            r.max_attribute_width == 30,
            r.max_expand_width == 35,
            r.max_expand_height == 6,
    {
        UiTableConfig { max_attribute_width: 30, max_expand_width: 35, max_expand_height: 6 }
    }
}

impl Default for UiConfig {
    fn default() -> (r: UiConfig)
        ensures
            r.table_list.list_width == 30,
            r.table.max_attribute_width == 30,
            r.table.max_expand_width == 35,
            r.table.max_expand_height == 6,
    {
        UiConfig { table_list: UiTableListConfig::default(), table: UiTableConfig::default() }
    }
}

impl Default for Config {
    fn default() -> (r: Config)
        ensures
            r.default_region@ == "us-east-1"@,
            r.profiles@.len() == 0,
            r.ui.table_list.list_width == 30,
            r.ui.table.max_attribute_width == 30,
            r.ui.table.max_expand_width == 35,
            r.ui.table.max_expand_height == 6,
    {
        Config {
            default_region: copy_str("us-east-1"),
            profiles: Vec::new(),
            ui: UiConfig::default(),
        }
    }
}

/// A configuration as a file gives it: each setting may be missing.
#[derive(Clone, Debug, PartialEq, Eq)]
pub struct OptionalConfig {
    pub default_region: Option<String>,
    pub profiles: Option<Vec<String>>,
    pub ui: Option<OptionalUiConfig>,
}

/// Layout settings as a file gives them.
#[derive(Clone, Debug, PartialEq, Eq)]
pub struct OptionalUiConfig {
    pub table_list: Option<OptionalUiTableListConfig>,
    pub table: Option<OptionalUiTableConfig>,
}

/// Layout of the table list as a file gives it.
#[derive(Clone, Copy, Debug, PartialEq, Eq)]
pub struct OptionalUiTableListConfig {
    pub list_width: Option<u16>,
}

/// Layout of the table view as a file gives it.
#[derive(Clone, Copy, Debug, PartialEq, Eq)]
pub struct OptionalUiTableConfig {
    pub max_attribute_width: Option<usize>,
    pub max_expand_width: Option<u16>,
    pub max_expand_height: Option<u16>,
}

/// A setting, or its default when it is missing.
pub open spec fn or_default<T>(v: Option<T>, d: T) -> T {
    match v {
        Some(x) => x,
        None => d,
    }
}

impl UiTableListConfig {
    /// The table list layout a file gives, the default for what it leaves out.
    pub fn from_optional(o: Option<OptionalUiTableListConfig>) -> (r: UiTableListConfig)
        ensures
            r.list_width == match o {
                Some(t) => or_default(t.list_width, 30u16),
                None => 30u16,
            },
    {
        match o {
            Some(t) => UiTableListConfig {
                list_width: match t.list_width {
                    Some(w) => w,
                    None => 30,
                },
            },
            None => UiTableListConfig::default(),
        }
    }
}

impl UiTableConfig {
    /// The table view layout a file gives, the default for what it leaves out.
    pub fn from_optional(o: Option<OptionalUiTableConfig>) -> (r: UiTableConfig)
        ensures
            r.max_attribute_width == match o {
                Some(t) => or_default(t.max_attribute_width, 30usize),
                None => 30usize,
            },
            r.max_expand_width == match o {
                Some(t) => or_default(t.max_expand_width, 35u16),
                None => 35u16,
            },
            r.max_expand_height == match o {
                Some(t) => or_default(t.max_expand_height, 6u16),
                None => 6u16,
            },
    {
        match o {
            Some(t) => UiTableConfig {
                max_attribute_width: match t.max_attribute_width {
                    Some(w) => w,
                    None => 30,
                },
                max_expand_width: match t.max_expand_width {
                    Some(w) => w,
                    None => 35,
                },
                max_expand_height: match t.max_expand_height {
                    Some(h) => h,
                    None => 6,
                },
            },
            None => UiTableConfig::default(),
        }
    }
}

impl UiConfig {
    /// The layout a file gives, the default for what it leaves out.
    pub fn from_optional(o: Option<OptionalUiConfig>) -> (r: UiConfig)
        ensures
            r.table_list == UiTableListConfig::from_optional_spec(
                match o {
                    Some(u) => u.table_list,
                    None => None,
                },
            ),
            r.table == UiTableConfig::from_optional_spec(
                match o {
                    Some(u) => u.table,
                    None => None,
                },
            ),
    {
        match o {
            Some(u) => UiConfig {
                table_list: UiTableListConfig::from_optional(u.table_list),
                table: UiTableConfig::from_optional(u.table),
            },
            None => UiConfig {
                table_list: UiTableListConfig::from_optional(None),
                table: UiTableConfig::from_optional(None),
            },
        }
    }
}

impl UiTableListConfig {
    /// The table list layout a file gives (see [`UiTableListConfig::from_optional`]).
    pub open spec fn from_optional_spec(o: Option<OptionalUiTableListConfig>) -> UiTableListConfig {
        UiTableListConfig {
            list_width: match o {
                Some(t) => or_default(t.list_width, 30u16),
                None => 30u16,
            },
        }
    }
}

impl UiTableConfig {
    /// The table view layout a file gives (see [`UiTableConfig::from_optional`]).
    pub open spec fn from_optional_spec(o: Option<OptionalUiTableConfig>) -> UiTableConfig {
        UiTableConfig {
            max_attribute_width: match o {
                Some(t) => or_default(t.max_attribute_width, 30usize),
                None => 30usize,
            },
            max_expand_width: match o {
                Some(t) => or_default(t.max_expand_width, 35u16),
                None => 35u16,
            },
            max_expand_height: match o {
                Some(t) => or_default(t.max_expand_height, 6u16),
                None => 6u16,
            },
        }
    }
}

impl Config {
    /// The configuration a file gives, the default for each setting it
    /// leaves out.
    pub fn from_optional(o: OptionalConfig) -> (r: Config)
        ensures
            r.default_region@ == match o.default_region {
                Some(s) => s@,
                None => "us-east-1"@,
            },
            r.profiles@ == match o.profiles {
                Some(p) => p@,
                None => Seq::<String>::empty(),
            },
            r.ui.table_list == UiTableListConfig::from_optional_spec(
                match o.ui {
                    Some(u) => u.table_list,
                    None => None,
                },
            ),
            r.ui.table == UiTableConfig::from_optional_spec(
                match o.ui {
                    Some(u) => u.table,
                    None => None,
                },
            ),
    {
        Config {
            default_region: match o.default_region {
                Some(s) => s,
                None => copy_str("us-east-1"),
            },
            profiles: match o.profiles {
                Some(p) => p,
                None => Vec::new(),
            },
            ui: UiConfig::from_optional(o.ui),
        }
    }
}

} // verus!
