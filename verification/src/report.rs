//! What the machine-readable report and the detail pane say of a setting.
use vstd::prelude::*;

use crate::app::{display_spec, Setting, SettingKind};

verus! {

/// A setting's value, typed by its kind.
#[derive(Debug, PartialEq, Eq)]
pub enum ReportValue {
    Bool(bool),
    /// A number setting; `None` at its default.
    Number(Option<u32>),
    Text(String),
}

/// The kind label of a setting in the report.
pub open spec fn kind_label(k: SettingKind) -> Seq<char> {
    match k {
        SettingKind::Bool { .. } => "bool"@,
        SettingKind::Num => "number"@,
        SettingKind::Str => "string"@,
    }
}

/// The report's kind label and typed value of `s`: a flag as a boolean, a
/// number as a number (absent at its default), a string as its text.
pub fn report_entry(s: &Setting) -> (r: (&'static str, ReportValue))
    ensures
        r.0@ == kind_label(s.kind),
        match s.kind {
            SettingKind::Bool { .. } => r.1 == ReportValue::Bool(s.bool_val),
            SettingKind::Num => r.1 == ReportValue::Number(s.num_val),
            SettingKind::Str => r.1 matches ReportValue::Text(t) && t@ == s.str_val@,
        },
{
    match s.kind {
        SettingKind::Bool { .. } => ("bool", ReportValue::Bool(s.bool_val)),
        SettingKind::Num => ("number", ReportValue::Number(s.num_val)),
        SettingKind::Str => ("string", ReportValue::Text(s.str_val.clone())),
    }
}

/// One line of the detail pane.
pub enum DetailLine {
    /// The setting's name, as the title.
    Name(&'static str),
    Blank,
    Description(&'static str),
    /// The `Env var:` label.
    EnvVarLabel,
    EnvVar(&'static str),
    /// A flag's state: whether its feature is enabled.
    Status(bool),
    /// A string or number setting's shown value.
    Value(String),
    /// The Homebrew default.
    Default(&'static str),
    /// Whether the directory a setting names exists.
    Path(bool),
    /// The unsaved-change note.
    Modified,
}

/// The content of a detail line, with text as characters.
pub enum DetailModel {
    Name(Seq<char>),
    Blank,
    Description(Seq<char>),
    EnvVarLabel,
    EnvVar(Seq<char>),
    Status(bool),
    Value(Seq<char>),
    Default(Seq<char>),
    Path(bool),
    Modified,
}

/// The content of `l`.
pub open spec fn detail_model(l: DetailLine) -> DetailModel {
    match l {
        DetailLine::Name(t) => DetailModel::Name(t@),
        DetailLine::Blank => DetailModel::Blank,
        DetailLine::Description(t) => DetailModel::Description(t@),
        DetailLine::EnvVarLabel => DetailModel::EnvVarLabel,
        DetailLine::EnvVar(t) => DetailModel::EnvVar(t@),
        DetailLine::Status(b) => DetailModel::Status(b),
        DetailLine::Value(t) => DetailModel::Value(t@),
        DetailLine::Default(t) => DetailModel::Default(t@),
        DetailLine::Path(b) => DetailModel::Path(b),
        DetailLine::Modified => DetailModel::Modified,
    }
}

/// The lines of the detail pane of `s`, where `exists` is the answer for its
/// directory when it is a directory setting with a value: the name, the
/// description, the variable, the state or value, the Homebrew default when
/// there is one, the directory check when there is one, and the unsaved
/// note when modified.
pub open spec fn detail_spec(s: Setting, exists: Option<bool>) -> Seq<DetailModel> {
    let head = seq![
        DetailModel::Name(s.name@),
        DetailModel::Blank,
        DetailModel::Description(s.description@),
        DetailModel::Blank,
        DetailModel::EnvVarLabel,
        DetailModel::EnvVar(s.env_var@),
        DetailModel::Blank,
        match s.kind {
            SettingKind::Bool { .. } => DetailModel::Status(s.bool_val),
            _ => DetailModel::Value(display_spec(s)),
        },
    ];
    let with_default = if s.default_hint@.len() > 0 {
        head.push(DetailModel::Default(s.default_hint@))
    } else {
        head
    };
    let with_path = match exists {
        Some(b) => with_default.push(DetailModel::Path(b)),
        None => with_default,
    };
    if s.modified {
        with_path.push(DetailModel::Blank).push(DetailModel::Modified)
    } else {
        with_path
    }
}

/// The lines of the detail pane of `s`, asking `path_exists` whether its
/// directory exists when it is a directory setting with a value.
pub fn detail_lines<F: Fn(&String) -> bool>(s: &Setting, path_exists: F) -> (r: Vec<DetailLine>)
    requires
        forall|p: &String| path_exists.requires((p,)),
    ensures
        (s.is_path && s.str_val@.len() > 0) ==> exists|b: bool|
            #![trigger path_exists.ensures((&s.str_val,), b)]
            path_exists.ensures((&s.str_val,), b) && r@.map_values(|l: DetailLine| detail_model(l))
                == detail_spec(*s, Some(b)),
        !(s.is_path && s.str_val@.len() > 0) ==> r@.map_values(|l: DetailLine| detail_model(l))
            == detail_spec(*s, None),
{
    let mut r: Vec<DetailLine> = Vec::new();
    r.push(DetailLine::Name(s.name));
    r.push(DetailLine::Blank);
    r.push(DetailLine::Description(s.description));
    r.push(DetailLine::Blank);
    r.push(DetailLine::EnvVarLabel);
    r.push(DetailLine::EnvVar(s.env_var));
    r.push(DetailLine::Blank);
    match s.kind {
        SettingKind::Bool { .. } => r.push(DetailLine::Status(s.is_feature_on())),
        _ => r.push(DetailLine::Value(s.value_display())),
    }
    if !s.default_hint.is_empty() {
        r.push(DetailLine::Default(s.default_hint));
    }
    let status = s.path_status(path_exists);
    if let Some(b) = status {
        r.push(DetailLine::Path(b));
    }
    if s.modified {
        r.push(DetailLine::Blank);
        r.push(DetailLine::Modified);
    }
    assert(r@.map_values(|l: DetailLine| detail_model(l)) == detail_spec(*s, status));
    r
}

} // verus!
