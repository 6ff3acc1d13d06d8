//! The user's settings, their defaults, and reading and writing one setting by
//! its name.

use vstd::prelude::*;
use crate::text::{parse_u64, parse_u64_spec, str_eq};

verus! {

/// The settings of the tool.
#[derive(Debug)]
pub struct Config {
    pub check_for_updates: bool,
    pub verbosity: u64,
    pub download_directory: String,
    pub file_format: String,
    pub default_provider: String,
}

/// The model of the settings.
pub struct ConfigView {
    pub check_for_updates: bool,
    pub verbosity: u64,
    pub download_directory: Seq<char>,
    pub file_format: Seq<char>,
    pub default_provider: Seq<char>,
}

impl View for Config {
    type V = ConfigView;

    open spec fn view(&self) -> ConfigView {
        ConfigView {
            check_for_updates: self.check_for_updates,
            verbosity: self.verbosity,
            download_directory: self.download_directory@,
            file_format: self.file_format@,
            default_provider: self.default_provider@,
        }
    }
}

/// The default pattern for the names of downloaded files.
pub fn default_file_format() -> (r: String)
    ensures
        r@ == "{anime_title}/{episode_title}_{episode_number}.{file_format}"@,
{
    String::from_str("{anime_title}/{episode_title}_{episode_number}.{file_format}")
}

/// The default provider: the first of the providers.
pub fn default_provider() -> (r: String)
    ensures
        r@ == "animeonsen"@,
{
    String::from_str("animeonsen")
}

/// The default download directory.
pub fn default_path() -> (r: String)
    ensures
        r@ == "."@,
{
    String::from_str(".")
}

/// The settings that the tool starts from.
pub open spec fn default_config() -> ConfigView {
    ConfigView {
        check_for_updates: true,
        verbosity: 0,
        download_directory: "."@,
        file_format: "{anime_title}/{episode_title}_{episode_number}.{file_format}"@,
        default_provider: "animeonsen"@,
    }
}

impl Default for Config {
    fn default() -> (r: Self)
        ensures
            r@ == default_config(),
    {
        Config {
            check_for_updates: true,
            verbosity: 0,
            download_directory: default_path(),
            file_format: default_file_format(),
            default_provider: default_provider(),
        }
    }
}

/// The value of one setting.
#[derive(Debug)]
pub enum ConfigField {
    CheckForUpdates(bool),
    Verbosity(u64),
    DownloadDirectory(String),
    FileFormat(String),
    DefaultProvider(String),
}

/// The model of the value of one setting.
pub enum ConfigFieldView {
    CheckForUpdates(bool),
    Verbosity(u64),
    DownloadDirectory(Seq<char>),
    FileFormat(Seq<char>),
    DefaultProvider(Seq<char>),
}

impl View for ConfigField {
    type V = ConfigFieldView;

    open spec fn view(&self) -> ConfigFieldView {
        match self {
            ConfigField::CheckForUpdates(b) => ConfigFieldView::CheckForUpdates(*b),
            ConfigField::Verbosity(v) => ConfigFieldView::Verbosity(*v),
            ConfigField::DownloadDirectory(s) => ConfigFieldView::DownloadDirectory(s@),
            ConfigField::FileFormat(s) => ConfigFieldView::FileFormat(s@),
            ConfigField::DefaultProvider(s) => ConfigFieldView::DefaultProvider(s@),
        }
    }
}

/// A name that is no setting's.
#[derive(Debug)]
pub enum ConfigError {
    UnknownField(String),
}

/// The value of the setting called `field`, if there is one.
pub open spec fn config_get(c: ConfigView, field: Seq<char>) -> Option<ConfigFieldView> {
    if field == "check_for_updates"@ {
        Some(ConfigFieldView::CheckForUpdates(c.check_for_updates))
    } else if field == "verbosity"@ {
        Some(ConfigFieldView::Verbosity(c.verbosity))
    } else if field == "download_directory"@ {
        Some(ConfigFieldView::DownloadDirectory(c.download_directory))
    } else if field == "file_format"@ {
        Some(ConfigFieldView::FileFormat(c.file_format))
    } else if field == "default_provider"@ {
        Some(ConfigFieldView::DefaultProvider(c.default_provider))
    } else {
        None
    }
}

/// `bool::from_str`: exactly `true` and `false`.
pub open spec fn parse_bool_spec(s: Seq<char>) -> Option<bool> {
    if s == "true"@ {
        Some(true)
    } else if s == "false"@ {
        Some(false)
    } else {
        None
    }
}

/// `s.parse::<bool>().ok()`.
pub fn parse_bool(s: &str) -> (r: Option<bool>)
    ensures
        r == parse_bool_spec(s@),
{
    if str_eq(s, "true") {
        Some(true)
    } else if str_eq(s, "false") {
        Some(false)
    } else {
        None
    }
}

/// The value that `val` gives the setting called `field`, read as that setting's
/// type; `None` for an unknown name or a value that does not parse.
pub open spec fn field_value(field: Seq<char>, val: Seq<char>) -> Option<ConfigFieldView> {
    if field == "check_for_updates"@ {
        match parse_bool_spec(val) {
            Some(b) => Some(ConfigFieldView::CheckForUpdates(b)),
            None => None,
        }
    } else if field == "verbosity"@ {
        match parse_u64_spec(val) {
            Some(v) => Some(ConfigFieldView::Verbosity(v)),
            None => None,
        }
    } else if field == "download_directory"@ {
        Some(ConfigFieldView::DownloadDirectory(val))
    } else if field == "file_format"@ {
        Some(ConfigFieldView::FileFormat(val))
    } else if field == "default_provider"@ {
        Some(ConfigFieldView::DefaultProvider(val))
    } else {
        None
    }
}

/// `c` with the setting that `v` is a value of set to it.
pub open spec fn config_set(c: ConfigView, v: ConfigFieldView) -> ConfigView {
    match v {
        ConfigFieldView::CheckForUpdates(b) => ConfigView { check_for_updates: b, ..c },
        ConfigFieldView::Verbosity(n) => ConfigView { verbosity: n, ..c },
        ConfigFieldView::DownloadDirectory(s) => ConfigView { download_directory: s, ..c },
        ConfigFieldView::FileFormat(s) => ConfigView { file_format: s, ..c },
        ConfigFieldView::DefaultProvider(s) => ConfigView { default_provider: s, ..c },
    }
}

/// `field` names a setting.
pub open spec fn is_field(field: Seq<char>) -> bool {
    config_get(default_config(), field) is Some
}

/// `update` accepts `val` for `field`: for a known setting, the value parses as
/// the setting's type.
pub open spec fn update_accepts_spec(field: Seq<char>, val: Seq<char>) -> bool {
    is_field(field) ==> field_value(field, val) is Some
}

proof fn lemma_field_names()
    ensures
        "check_for_updates"@.len() == 17,
        "verbosity"@.len() == 9,
        "download_directory"@.len() == 18,
        "file_format"@.len() == 11,
        "default_provider"@.len() == 16,
        "download_directory"@ != "default_provider"@,
{
    reveal_strlit("check_for_updates");
    reveal_strlit("verbosity");
    reveal_strlit("download_directory");
    reveal_strlit("file_format");
    reveal_strlit("default_provider");
    assert("download_directory"@[1] != "default_provider"@[1]);
}

/// Whether `update` accepts `val` for `field`.
pub fn update_accepts(field: &str, val: &str) -> (b: bool)
    ensures
        b == update_accepts_spec(field@, val@),
{
    proof {
        lemma_field_names();
    }
    if str_eq(field, "check_for_updates") {
        parse_bool(val).is_some()
    } else if str_eq(field, "verbosity") {
        parse_u64(val).is_some()
    } else {
        true
    }
}

impl Config {
    /// The value of the setting called `field`.
    pub fn get(&self, field: &str) -> (r: Result<ConfigField, ConfigError>)
        ensures
            config_get(self@, field@) matches Some(v) ==> (r matches Ok(f) && f@ == v),
            config_get(self@, field@) is None ==> (r matches Err(ConfigError::UnknownField(n))
                && n@ == field@),
    {
        proof {
            lemma_field_names();
        }
        if str_eq(field, "check_for_updates") {
            Ok(ConfigField::CheckForUpdates(self.check_for_updates))
        } else if str_eq(field, "verbosity") {
            Ok(ConfigField::Verbosity(self.verbosity))
        } else if str_eq(field, "download_directory") {
            Ok(ConfigField::DownloadDirectory(self.download_directory.clone()))
        } else if str_eq(field, "file_format") {
            Ok(ConfigField::FileFormat(self.file_format.clone()))
        } else if str_eq(field, "default_provider") {
            Ok(ConfigField::DefaultProvider(self.default_provider.clone()))
        } else {
            Err(ConfigError::UnknownField(String::from_str(field)))
        }
    }

    /// These settings with the one called `field` set to `val`, read as the
    /// setting's type.
    pub fn update(self, field: &str, val: &str) -> (r: Result<Config, ConfigError>)
        requires
            update_accepts_spec(field@, val@),
        ensures
            field_value(field@, val@) matches Some(v) ==> (r matches Ok(c) && c@ == config_set(
                self@,
                v,
            )),
            !is_field(field@) ==> (r matches Err(ConfigError::UnknownField(n)) && n@ == field@),
            field@ == "download_directory"@ ==> (r matches Ok(c) && c@ == (ConfigView {
                download_directory: val@,
                ..self@
            })),
            field@ == "file_format"@ ==> (r matches Ok(c) && c@ == (ConfigView {
                file_format: val@,
                ..self@
            })),
            field@ == "default_provider"@ ==> (r matches Ok(c) && c@ == (ConfigView {
                default_provider: val@,
                ..self@
            })),
            field@ == "verbosity"@ ==> (r matches Ok(c) && parse_u64_spec(val@) matches Some(n)
                && c@ == (ConfigView { verbosity: n, ..self@ })),
            field@ == "check_for_updates"@ ==> (r matches Ok(c) && parse_bool_spec(val@) matches Some(
                b,
            ) && c@ == (ConfigView { check_for_updates: b, ..self@ })),
    {
        proof {
            lemma_field_names();
            lemma_update_sets_given_value(self@, val@);
        }
        let mut new = self;
        if str_eq(field, "check_for_updates") {
            match parse_bool(val) {
                Some(b) => new.check_for_updates = b,
                None => {},
            }
            Ok(new)
        } else if str_eq(field, "verbosity") {
            match parse_u64(val) {
                Some(v) => new.verbosity = v,
                None => {},
            }
            Ok(new)
        } else if str_eq(field, "download_directory") {
            new.download_directory = String::from_str(val);
            Ok(new)
        } else if str_eq(field, "file_format") {
            new.file_format = String::from_str(val);
            Ok(new)
        } else if str_eq(field, "default_provider") {
            new.default_provider = String::from_str(val);
            Ok(new)
        } else {
            Err(ConfigError::UnknownField(String::from_str(field)))
        }
    }
}

/// Updating a text setting sets it to the value given and keeps every other
/// setting; `true` and `false` set the update check on and off; a number sets the
/// verbosity to that number.
pub proof fn lemma_update_sets_given_value(c: ConfigView, val: Seq<char>)
    ensures
        field_value("download_directory"@, val) is Some,
        field_value("file_format"@, val) is Some,
        field_value("default_provider"@, val) is Some,
        config_set(c, field_value("download_directory"@, val)->0) == (ConfigView {
            download_directory: val,
            ..c
        }),
        config_set(c, field_value("file_format"@, val)->0) == (ConfigView { file_format: val, ..c }),
        config_set(c, field_value("default_provider"@, val)->0) == (ConfigView {
            default_provider: val,
            ..c
        }),
        config_set(c, field_value("check_for_updates"@, "true"@)->0) == (ConfigView {
            check_for_updates: true,
            ..c
        }),
        config_set(c, field_value("check_for_updates"@, "false"@)->0) == (ConfigView {
            check_for_updates: false,
            ..c
        }),
        parse_u64_spec(val) matches Some(n) ==> config_set(c, field_value("verbosity"@, val)->0)
            == (ConfigView { verbosity: n, ..c }),
{
    lemma_field_names();
    reveal_strlit("true");
    reveal_strlit("false");
    assert("true"@.len() == 4);
    assert("false"@.len() == 5);
}

/// What is read back of a setting gives the value that was written to it, and
/// every other setting keeps its value.
pub proof fn lemma_update_then_get(c: ConfigView, field: Seq<char>, val: Seq<char>, other: Seq<char>)
    requires
        field_value(field, val) is Some,
    ensures
        config_get(config_set(c, field_value(field, val)->0), field) == field_value(field, val),
        other != field ==> config_get(config_set(c, field_value(field, val)->0), other)
            == config_get(c, other),
{
    lemma_field_names();
}

} // verus!
