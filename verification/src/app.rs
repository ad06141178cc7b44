//! Settings, their typed values, and the editing state of the configurator.
use vstd::prelude::*;

use crate::appconfig::AppConfig;
use crate::theme::{index_in, index_of, lemma_index_in, lemma_index_in_bound, theme_names, theme_table, themes, Theme};
use crate::text::{
    fold, fold_str,
    contains_chars, contains_seq, from_chars, parse_u32_chars, push_chars, push_str, trim_str,
    chars_of, decimal, lemma_parse_decimal, parse_trimmed_u32, parse_u32, str_eq, trim_ws,
    u32_to_string,
};

verus! {

/// How a setting's environment variable is interpreted.
#[derive(Debug, Clone, Copy, PartialEq, Eq, Structural)]
pub enum SettingKind {
    /// A flag: the variable is either set or not. With `inverted`, the
    /// variable disables the feature (`HOMEBREW_NO_*`), so the feature is on
    /// when the variable is absent.
    Bool { inverted: bool },
    /// A free-form string; empty means the Homebrew default.
    Str,
    /// An unsigned number; `None` means the Homebrew default.
    Num,
}

/// One Homebrew environment variable with its metadata and current value.
#[derive(Debug, Clone)]
pub struct Setting {
    pub name: &'static str,
    pub env_var: &'static str,
    pub description: &'static str,
    pub kind: SettingKind,
    pub bool_val: bool,
    pub str_val: String,
    pub num_val: Option<u32>,
    pub category: &'static str,
    pub modified: bool,
    /// The value Homebrew uses while the variable is unset, as shown to the
    /// user; empty when there is none worth showing.
    pub default_hint: &'static str,
    /// Whether the value names a directory whose existence is checked.
    pub is_path: bool,
}

/// The interaction mode of the editor.
#[derive(Debug, Clone, Copy, PartialEq, Eq, Structural)]
pub enum Mode {
    Normal,
    Editing,
    Confirming,
    /// Typing the filter text.
    Filtering,
}

// ---------------------------------------------------------------------------
// Reading a setting from its environment variable
// ---------------------------------------------------------------------------

/// The characters of an optional string.
pub open spec fn opt_view(o: Option<String>) -> Option<Seq<char>> {
    match o {
        Some(s) => Some(s@),
        None => None,
    }
}

/// The feature state of a boolean setting whose variable holds `raw`
/// (`None` when the variable is absent). Any value, even empty, counts as set.
pub open spec fn bool_from_env(inverted: bool, raw: Option<Seq<char>>) -> bool {
    if inverted {
        raw is None
    } else {
        raw is Some
    }
}

/// The value of a string setting whose variable holds `raw`.
pub open spec fn str_from_env(raw: Option<Seq<char>>) -> Seq<char> {
    match raw {
        Some(v) => v,
        None => Seq::empty(),
    }
}

/// The value of a number setting whose variable holds `raw`: the trimmed
/// value parsed as a `u32`, or the default when absent or unparsable.
pub open spec fn num_from_env(raw: Option<Seq<char>>) -> Option<u32> {
    match raw {
        Some(v) => parse_u32(trim_ws(v)),
        None => None,
    }
}

/// `a` and `b` describe the same variable (everything but the value).
pub open spec fn same_entry(a: Setting, b: Setting) -> bool {
    &&& a.name == b.name
    &&& a.env_var == b.env_var
    &&& a.description == b.description
    &&& a.kind == b.kind
    &&& a.category == b.category
    &&& a.default_hint == b.default_hint
    &&& a.is_path == b.is_path
}

/// `b` lists the same variables as `a`, in the same order, with the same
/// metadata (values aside).
pub open spec fn same_entries(a: Seq<Setting>, b: Seq<Setting>) -> bool {
    &&& b.len() == a.len()
    &&& forall|i: int| 0 <= i < a.len() ==> same_entry(a[i], #[trigger] b[i])
}

/// `after` holds the value that `before`'s variable gives when it holds
/// `raw`; only the field of `before`'s kind changes.
pub open spec fn reads_env(before: Setting, after: Setting, raw: Option<Seq<char>>) -> bool {
    &&& same_entry(before, after)
    &&& match before.kind {
        SettingKind::Bool { inverted } => {
            &&& after.bool_val == bool_from_env(inverted, raw)
            &&& after.str_val == before.str_val
            &&& after.num_val == before.num_val
        },
        SettingKind::Str => {
            &&& after.str_val@ == str_from_env(raw)
            &&& after.bool_val == before.bool_val
            &&& after.num_val == before.num_val
        },
        SettingKind::Num => {
            &&& after.num_val == num_from_env(raw)
            &&& after.bool_val == before.bool_val
            &&& after.str_val == before.str_val
        },
    }
}

/// What a setting shows as its value.
pub open spec fn display_spec(s: Setting) -> Seq<char> {
    match s.kind {
        SettingKind::Bool { .. } => if s.bool_val {
            "ON"@
        } else {
            "OFF"@
        },
        SettingKind::Str => if s.str_val@.len() == 0 {
            "(default)"@
        } else {
            s.str_val@
        },
        SettingKind::Num => match s.num_val {
            Some(n) => decimal(n as nat),
            None => "(default)"@,
        },
    }
}

/// Whether the variable of `s` must be set for Homebrew to see its value,
/// that is, whether the value differs from the Homebrew default.
pub open spec fn bool_exported(inverted: bool, on: bool) -> bool {
    if inverted {
        !on
    } else {
        on
    }
}

/// The raw variable value that reproduces `s`, or `None` when `s` is at its
/// Homebrew default and its variable is left unset.
pub open spec fn exported_raw_spec(s: Setting) -> Option<Seq<char>> {
    match s.kind {
        SettingKind::Bool { inverted } => if bool_exported(inverted, s.bool_val) {
            Some("1"@)
        } else {
            None
        },
        SettingKind::Str => if s.str_val@.len() > 0 {
            Some(s.str_val@)
        } else {
            None
        },
        SettingKind::Num => match s.num_val {
            Some(n) => Some(decimal(n as nat)),
            None => None,
        },
    }
}

impl Setting {
    /// The value as shown in the list and the detail pane.
    pub fn value_display(&self) -> (r: String)
        ensures
            r@ == display_spec(*self),
    {
        match &self.kind {
            SettingKind::Bool { .. } => {
                if self.bool_val {
                    "ON".to_owned()
                } else {
                    "OFF".to_owned()
                }
            },
            SettingKind::Str => {
                if self.str_val.as_str().is_empty() {
                    "(default)".to_owned()
                } else {
                    self.str_val.clone()
                }
            },
            SettingKind::Num => match self.num_val {
                Some(n) => u32_to_string(n),
                None => "(default)".to_owned(),
            },
        }
    }

    /// Whether a boolean setting's feature is on.
    pub fn is_feature_on(&self) -> (r: bool)
        ensures
            r == self.bool_val,
    {
        self.bool_val
    }

    /// Sets the value from the raw content of the variable (`None` when it
    /// is absent) and clears the modified flag.
    pub fn apply_env_value(&mut self, raw: Option<String>)
        ensures
            reads_env(*old(self), *final(self), opt_view(raw)),
            !final(self).modified,
    {
        match &self.kind {
            SettingKind::Bool { inverted } => {
                let is_set = raw.is_some();
                self.bool_val = if *inverted {
                    !is_set
                } else {
                    is_set
                };
            },
            SettingKind::Str => {
                self.str_val = match raw {
                    Some(v) => v,
                    None => String::new(),
                };
            },
            SettingKind::Num => {
                self.num_val = match raw {
                    Some(v) => parse_trimmed_u32(v.as_str()),
                    None => None,
                };
            },
        }
        self.modified = false;
    }

    /// The raw variable value that this setting exports, or `None` when it
    /// is at its Homebrew default.
    pub fn exported_raw(&self) -> (r: Option<String>)
        ensures
            opt_view(r) == exported_raw_spec(*self),
    {
        match &self.kind {
            SettingKind::Bool { inverted } => {
                let present = if *inverted {
                    !self.bool_val
                } else {
                    self.bool_val
                };
                if present {
                    Some("1".to_owned())
                } else {
                    None
                }
            },
            SettingKind::Str => {
                if !self.str_val.as_str().is_empty() {
                    Some(self.str_val.clone())
                } else {
                    None
                }
            },
            SettingKind::Num => match self.num_val {
                Some(n) => Some(u32_to_string(n)),
                None => None,
            },
        }
    }
}

impl Setting {
    /// This setting with `hint` as the Homebrew default shown to the user.
    pub fn with_default(self, hint: &'static str) -> (r: Setting)
        ensures
            r == (Setting { default_hint: hint, ..self }),
    {
        let mut r = self;
        r.default_hint = hint;
        r
    }

    /// This setting marked as naming a directory whose existence is checked.
    pub fn with_path_flag(self) -> (r: Setting)
        ensures
            r == (Setting { is_path: true, ..self }),
    {
        let mut r = self;
        r.is_path = true;
        r
    }

    /// For a directory setting with a value, whether that directory exists
    /// as `path_exists` reports it; `None` for other settings and for an
    /// empty value.
    pub fn path_status<F: Fn(&String) -> bool>(&self, path_exists: F) -> (r: Option<bool>)
        requires
            forall|p: &String| path_exists.requires((p,)),
        ensures
            r is Some <==> (self.is_path && self.str_val@.len() > 0),
            r matches Some(b) ==> path_exists.ensures((&self.str_val,), b),
    {
        if self.is_path && !self.str_val.as_str().is_empty() {
            Some(path_exists(&self.str_val))
        } else {
            None
        }
    }
}

/// Reading back the value that a setting exports gives the setting's value:
/// an exported profile (or preset) restores every setting on the next read.
pub proof fn lemma_export_then_read(s: Setting)
    ensures
        match s.kind {
            SettingKind::Bool { inverted } => bool_from_env(inverted, exported_raw_spec(s))
                == s.bool_val,
            SettingKind::Str => str_from_env(exported_raw_spec(s)) == s.str_val@,
            SettingKind::Num => num_from_env(exported_raw_spec(s)) == s.num_val,
        },
{
    match s.kind {
        SettingKind::Str => {
            if s.str_val@.len() == 0 {
                assert(s.str_val@ =~= Seq::<char>::empty());
            }
        },
        SettingKind::Num => {
            if let Some(n) = s.num_val {
                lemma_parse_decimal(n);
            }
        },
        _ => {},
    }
}


// ---------------------------------------------------------------------------
// The catalogue
// ---------------------------------------------------------------------------

/// The catalogue of managed variables, in display order: name, variable,
/// description, kind and category of each.
pub open spec fn catalogue() -> Seq<(Seq<char>, Seq<char>, Seq<char>, SettingKind, Seq<char>)> {
    seq![
        ("Analytics"@, "HOMEBREW_NO_ANALYTICS"@, "Disable sending analytics to Google Analytics"@, SettingKind::Bool { inverted: true }, "Privacy"@),
        ("Env Hints"@, "HOMEBREW_NO_ENV_HINTS"@, "Disable hints about Homebrew environment variables"@, SettingKind::Bool { inverted: true }, "Privacy"@),
        ("Auto Update"@, "HOMEBREW_NO_AUTO_UPDATE"@, "Disable automatic brew update before install/upgrade/tap"@, SettingKind::Bool { inverted: true }, "Updates"@),
        ("Install Upgrade"@, "HOMEBREW_NO_INSTALL_UPGRADE"@, "Disable automatic upgrade of outdated formulae on install"@, SettingKind::Bool { inverted: true }, "Updates"@),
        ("Install Cleanup"@, "HOMEBREW_NO_INSTALL_CLEANUP"@, "Disable automatic cleanup after install/upgrade"@, SettingKind::Bool { inverted: true }, "Updates"@),
        ("Cleanup Age"@, "HOMEBREW_CLEANUP_MAX_AGE_DAYS"@, "Max age in days for cached files during cleanup (default: 120)"@, SettingKind::Num, "Updates"@),
        ("Color"@, "HOMEBREW_NO_COLOR"@, "Disable colored output"@, SettingKind::Bool { inverted: true }, "Display"@),
        ("Emoji"@, "HOMEBREW_NO_EMOJI"@, "Disable emoji in output (e.g. the 🍺 after install)"@, SettingKind::Bool { inverted: true }, "Display"@),
        ("Verbose"@, "HOMEBREW_VERBOSE"@, "Print extra debugging information"@, SettingKind::Bool { inverted: false }, "Display"@),
        ("Debug"@, "HOMEBREW_DEBUG"@, "Print all debugging information"@, SettingKind::Bool { inverted: false }, "Display"@),
        ("Install Badge"@, "HOMEBREW_INSTALL_BADGE"@, "Character displayed during install (default: 🍺)"@, SettingKind::Str, "Display"@),
        ("Cache"@, "HOMEBREW_CACHE"@, "Directory for cached downloads"@, SettingKind::Str, "Directories"@),
        ("Cellar"@, "HOMEBREW_CELLAR"@, "Directory for installed formula files"@, SettingKind::Str, "Directories"@),
        ("Logs"@, "HOMEBREW_LOGS"@, "Directory for brew logs"@, SettingKind::Str, "Directories"@),
        ("Temp"@, "HOMEBREW_TEMP"@, "Temp directory used during builds"@, SettingKind::Str, "Directories"@),
        ("Editor"@, "HOMEBREW_EDITOR"@, "Editor used by brew edit (defaults to $EDITOR)"@, SettingKind::Str, "Tools"@),
        ("Curl Retries"@, "HOMEBREW_CURL_RETRIES"@, "Number of times to retry failed downloads (default: 3)"@, SettingKind::Num, "Tools"@),
        ("Insecure Redirect"@, "HOMEBREW_NO_INSECURE_REDIRECT"@, "Forbid redirections from HTTPS to HTTP"@, SettingKind::Bool { inverted: true }, "Security"@),
        ("Bottle Domain"@, "HOMEBREW_BOTTLE_DOMAIN"@, "Custom mirror URL for bottle downloads"@, SettingKind::Str, "Network"@),
        ("Brew Remote"@, "HOMEBREW_BREW_GIT_REMOTE"@, "Custom git remote URL for Homebrew/brew"@, SettingKind::Str, "Network"@),
        ("Core Remote"@, "HOMEBREW_CORE_GIT_REMOTE"@, "Custom git remote URL for homebrew-core"@, SettingKind::Str, "Network"@),
        ("GitHub Token"@, "HOMEBREW_GITHUB_API_TOKEN"@, "Personal access token for GitHub API (avoids rate limiting)"@, SettingKind::Str, "Network"@),
    ]
}

/// The Homebrew default shown for each catalogue entry (empty when none is
/// shown) and whether its value names a directory, in catalogue order.
pub open spec fn catalogue_extras() -> Seq<(Seq<char>, bool)> {
    seq![
        (""@, false), (""@, false), (""@, false), (""@, false), (""@, false),
        ("120"@, false),
        (""@, false), (""@, false), (""@, false), (""@, false),
        ("🍺"@, false),
        (""@, true), (""@, true), (""@, true), (""@, true),
        ("$EDITOR"@, false),
        ("3"@, false),
        (""@, false), (""@, false), (""@, false), (""@, false), (""@, false),
    ]
}

/// Name, variable, description, kind and category of `s`.
pub open spec fn entry_of(s: Setting) -> (Seq<char>, Seq<char>, Seq<char>, SettingKind, Seq<char>) {
    (s.name@, s.env_var@, s.description@, s.kind, s.category@)
}

/// `s` holds the Homebrew default and is unmodified.
pub open spec fn at_default(s: Setting) -> bool {
    &&& !s.bool_val
    &&& s.str_val@.len() == 0
    &&& s.num_val is None
    &&& !s.modified
}

/// `s` is a catalogue entry freshly read from its variable holding `raw`.
pub open spec fn fresh_from_env(s: Setting, raw: Option<Seq<char>>) -> bool {
    &&& !s.modified
    &&& match s.kind {
        SettingKind::Bool { inverted } => {
            &&& s.bool_val == bool_from_env(inverted, raw)
            &&& s.str_val@.len() == 0
            &&& s.num_val is None
        },
        SettingKind::Str => {
            &&& s.str_val@ == str_from_env(raw)
            &&& !s.bool_val
            &&& s.num_val is None
        },
        SettingKind::Num => {
            &&& s.num_val == num_from_env(raw)
            &&& !s.bool_val
            &&& s.str_val@.len() == 0
        },
    }
}

/// The raw value given for the `i`-th setting; absent when `env` is shorter.
pub open spec fn raw_at(env: Seq<Option<String>>, i: int) -> Option<Seq<char>> {
    if 0 <= i < env.len() {
        opt_view(env[i])
    } else {
        None
    }
}

fn make_setting(
    name: &'static str,
    env_var: &'static str,
    description: &'static str,
    kind: SettingKind,
    category: &'static str,
) -> (s: Setting)
    ensures
        s.name == name,
        s.env_var == env_var,
        s.description == description,
        s.kind == kind,
        s.category == category,
        s.default_hint@ == ""@,
        !s.is_path,
        at_default(s),
{
    Setting {
        name,
        env_var,
        description,
        kind,
        bool_val: false,
        str_val: String::new(),
        num_val: None,
        category,
        modified: false,
        default_hint: "",
        is_path: false,
    }
}

/// A copy of the raw value at `i`, or `None` past the end of `env`.
fn raw_value_at(env: &Vec<Option<String>>, i: usize) -> (r: Option<String>)
    ensures
        opt_view(r) == raw_at(env@, i as int),
{
    if i < env.len() {
        match &env[i] {
            Some(v) => Some(v.clone()),
            None => None,
        }
    } else {
        None
    }
}

// ---------------------------------------------------------------------------
// Rows of the settings list
// ---------------------------------------------------------------------------

/// Setting `i` opens a category group: it is the first setting, or its
/// category differs from the previous one.
pub open spec fn starts_group(ss: Seq<Setting>, i: int) -> bool {
    i == 0 || ss[i].category@ != ss[i - 1].category@
}

/// The number of list rows that the first `n` settings take: a row each,
/// a header row for each category group, and a blank row before every
/// header but the first.
pub open spec fn list_rows(ss: Seq<Setting>, n: int) -> int
    decreases n,
{
    if n <= 0 {
        0
    } else {
        list_rows(ss, n - 1) + 1 + if starts_group(ss, n - 1) {
            if n - 1 > 0 {
                2int
            } else {
                1int
            }
        } else {
            0int
        }
    }
}

/// The list row that shows setting `idx`; past the end, the last row (0 for
/// an empty list).
pub open spec fn list_index_spec(ss: Seq<Setting>, idx: int) -> int {
    if idx < ss.len() {
        list_rows(ss, idx + 1) - 1
    } else if list_rows(ss, ss.len() as int) > 0 {
        list_rows(ss, ss.len() as int) - 1
    } else {
        0
    }
}

proof fn lemma_list_rows_bounds(ss: Seq<Setting>, n: int)
    requires
        0 <= n,
    ensures
        n <= list_rows(ss, n) <= 3 * n,
        n > 0 ==> list_rows(ss, n) >= 2,
    decreases n,
{
    if n > 0 {
        lemma_list_rows_bounds(ss, n - 1);
    }
}

/// The row count grows with the number of settings.
pub proof fn lemma_list_rows_le(ss: Seq<Setting>, m: int, n: int)
    requires
        0 <= m <= n,
    ensures
        list_rows(ss, m) <= list_rows(ss, n),
    decreases n - m,
{
    if m < n {
        lemma_list_rows_le(ss, m, n - 1);
    }
}

/// Adding a setting adds at least one row.
pub proof fn lemma_list_rows_monotone(ss: Seq<Setting>, n: int)
    requires
        0 <= n,
    ensures
        list_rows(ss, n) < list_rows(ss, n + 1),
{
}

/// Bounds on the number of rows of `n` settings.
pub proof fn lemma_list_rows_bounds_pub(ss: Seq<Setting>, n: int)
    requires
        0 <= n,
    ensures
        n <= list_rows(ss, n) <= 3 * n,
        n > 0 ==> list_rows(ss, n) >= 2,
{
    lemma_list_rows_bounds(ss, n);
}

// ---------------------------------------------------------------------------
// Filtering the list
// ---------------------------------------------------------------------------

/// Whether `s` is listed under the filter `f`: `f` occurs, regardless of
/// ASCII case, in its name, variable, category or description. The empty
/// filter lists every setting.
pub open spec fn matches_filter(s: Setting, f: Seq<char>) -> bool {
    ||| contains_seq(fold(s.name@), fold(f))
    ||| contains_seq(fold(s.env_var@), fold(f))
    ||| contains_seq(fold(s.category@), fold(f))
    ||| contains_seq(fold(s.description@), fold(f))
}

/// The indices, in order, of those among the first `n` settings of `ss`
/// that are listed under the filter `f`.
pub open spec fn visible_upto(ss: Seq<Setting>, f: Seq<char>, n: int) -> Seq<usize>
    decreases n,
{
    if n <= 0 {
        Seq::empty()
    } else if matches_filter(ss[n - 1], f) {
        visible_upto(ss, f, n - 1).push((n - 1) as usize)
    } else {
        visible_upto(ss, f, n - 1)
    }
}

/// The indices, in order, of the settings of `ss` listed under `f`.
pub open spec fn visible_spec(ss: Seq<Setting>, f: Seq<char>) -> Seq<usize> {
    visible_upto(ss, f, ss.len() as int)
}

/// The settings of `ss` at the indices `vis`, in that order.
pub open spec fn view_of(ss: Seq<Setting>, vis: Seq<usize>) -> Seq<Setting> {
    vis.map_values(|k: usize| ss[k as int])
}

/// The place of `sel` in `vis`, or the length of `vis` when it is absent.
pub open spec fn position(vis: Seq<usize>, sel: usize) -> int
    decreases vis.len(),
{
    if vis.len() == 0 {
        0
    } else if vis[0] == sel {
        0
    } else {
        1 + position(vis.drop_first(), sel)
    }
}

/// The list row highlighted when `sel` is selected under the filter `f`:
/// the row of its entry among the listed settings, or none when the filter
/// hides it.
pub open spec fn highlight(ss: Seq<Setting>, f: Seq<char>, sel: usize) -> Option<usize> {
    let vis = visible_spec(ss, f);
    let p = position(vis, sel);
    if p < vis.len() {
        Some(list_index_spec(view_of(ss, vis), p) as usize)
    } else {
        None
    }
}

/// The listed indices are increasing, below `n`, and are exactly those of
/// the settings that match.
pub proof fn lemma_visible_upto(ss: Seq<Setting>, f: Seq<char>, n: int)
    requires
        0 <= n <= ss.len(),
        ss.len() <= usize::MAX,
    ensures
        visible_upto(ss, f, n).len() <= n,
        forall|j: int|
            0 <= j < visible_upto(ss, f, n).len() ==> (#[trigger] visible_upto(ss, f, n)[j]) < n,
        forall|i: int, j: int|
            0 <= i < j < visible_upto(ss, f, n).len() ==> (#[trigger] visible_upto(ss, f, n)[i])
                < #[trigger] visible_upto(ss, f, n)[j],
        forall|k: int|
            0 <= k < n ==> (matches_filter(#[trigger] ss[k], f) <==> visible_upto(ss, f, n).contains(
                k as usize,
            )),
    decreases n,
{
    if n > 0 {
        lemma_visible_upto(ss, f, n - 1);
        let prev = visible_upto(ss, f, n - 1);
        let cur = visible_upto(ss, f, n);
        assert forall|k: int| 0 <= k < n implies (matches_filter(#[trigger] ss[k], f)
            <==> cur.contains(k as usize)) by {
            if k < n - 1 {
                if matches_filter(ss[n - 1], f) {
                    if cur.contains(k as usize) {
                        let j = choose|j: int| 0 <= j < cur.len() && cur[j] == k as usize;
                        if j < prev.len() {
                            assert(prev[j] == cur[j]);
                        }
                    }
                    if prev.contains(k as usize) {
                        let j = choose|j: int| 0 <= j < prev.len() && prev[j] == k as usize;
                        assert(cur[j] == prev[j]);
                    }
                }
            } else {
                if !matches_filter(ss[n - 1], f) {
                    if cur.contains(k as usize) {
                        let j = choose|j: int| 0 <= j < cur.len() && cur[j] == k as usize;
                        assert(cur[j] < n - 1);
                    }
                } else {
                    assert(cur[cur.len() - 1] == k as usize);
                }
            }
        }
    }
}

/// `position` finds the first place of `sel` in `vis`.
pub proof fn lemma_position(vis: Seq<usize>, sel: usize)
    ensures
        0 <= position(vis, sel) <= vis.len(),
        position(vis, sel) < vis.len() ==> vis[position(vis, sel)] == sel,
        forall|j: int| 0 <= j < position(vis, sel) ==> vis[j] != sel,
        position(vis, sel) == vis.len() <==> !vis.contains(sel),
    decreases vis.len(),
{
    if vis.len() > 0 && vis[0] != sel {
        lemma_position(vis.drop_first(), sel);
        assert forall|j: int| 0 <= j < position(vis, sel) implies vis[j] != sel by {
            if j > 0 {
                assert(vis[j] == vis.drop_first()[j - 1]);
            }
        }
        if vis.contains(sel) {
            let j = choose|j: int| 0 <= j < vis.len() && vis[j] == sel;
            assert(vis.drop_first()[j - 1] == sel);
        }
        if vis.drop_first().contains(sel) {
            let j = choose|j: int| 0 <= j < vis.drop_first().len() && vis.drop_first()[j] == sel;
            assert(vis[j + 1] == sel);
        }
    }
}

/// In an increasing sequence, the place of an element is its index.
pub proof fn lemma_position_at(vis: Seq<usize>, j: int)
    requires
        0 <= j < vis.len(),
        forall|a: int, b: int| 0 <= a < b < vis.len() ==> vis[a] < vis[b],
    ensures
        position(vis, vis[j]) == j,
{
    lemma_position(vis, vis[j]);
    let p = position(vis, vis[j]);
    if p < j {
        assert(vis[p] < vis[j]);
    }
}

/// The empty filter lists every setting, in order.
pub proof fn lemma_empty_filter(ss: Seq<Setting>, f: Seq<char>, n: int)
    requires
        f.len() == 0,
        0 <= n <= ss.len(),
        ss.len() <= usize::MAX,
    ensures
        visible_upto(ss, f, n) == Seq::new(n as nat, |i: int| i as usize),
    decreases n,
{
    if n > 0 {
        lemma_empty_filter(ss, f, n - 1);
        assert(fold(f) =~= Seq::<char>::empty());
        assert(fold(ss[n - 1].name@).subrange(0, 0) =~= fold(f));
        assert(contains_seq(fold(ss[n - 1].name@), fold(f)));
        assert(visible_upto(ss, f, n) =~= Seq::new(n as nat, |i: int| i as usize));
    }
}

/// Under the empty filter the listed settings are all the settings, and a
/// setting's place among them is its index.
pub proof fn lemma_empty_filter_view(ss: Seq<Setting>, f: Seq<char>, sel: usize)
    requires
        f.len() == 0,
        ss.len() <= usize::MAX,
    ensures
        view_of(ss, visible_spec(ss, f)) == ss,
        sel < ss.len() ==> position(visible_spec(ss, f), sel) == sel,
        highlight(ss, f, sel) == (if sel < ss.len() {
            Some(list_index_spec(ss, sel as int) as usize)
        } else {
            None
        }),
{
    lemma_empty_filter(ss, f, ss.len() as int);
    let vis = visible_spec(ss, f);
    assert(view_of(ss, vis) =~= ss);
    lemma_position(vis, sel);
    if sel < ss.len() {
        lemma_position_at(vis, sel as int);
    } else {
        assert(!vis.contains(sel));
    }
}

/// The index that follows `sel` in a list of `len` entries, wrapping around.
pub open spec fn next_index(sel: int, len: int) -> int {
    (sel + 1) % len
}

/// The index that precedes `sel` in a list of `len` entries, wrapping around.
pub open spec fn prev_index(sel: int, len: int) -> int {
    if sel == 0 {
        len - 1
    } else {
        sel - 1
    }
}

/// Moving down then up, or up then down, returns to the same setting.
pub proof fn lemma_next_prev_inverse(sel: int, len: int)
    requires
        0 <= sel < len,
    ensures
        prev_index(next_index(sel, len), len) == sel,
        next_index(prev_index(sel, len), len) == sel,
        0 <= next_index(sel, len) < len,
        0 <= prev_index(sel, len) < len,
{
    if sel + 1 < len {
        assert((sel + 1) % len == sel + 1) by (nonlinear_arith)
            requires
                0 <= sel + 1 < len,
        ;
    } else {
        assert((sel + 1) % len == 0) by (nonlinear_arith)
            requires
                sel + 1 == len,
                len > 0,
        ;
    }
    if sel == 0 {
        assert((len - 1 + 1) % len == 0) by (nonlinear_arith)
            requires
                len > 0,
        ;
    } else {
        assert((sel - 1 + 1) % len == sel) by (nonlinear_arith)
            requires
                0 < sel < len,
        ;
    }
}

/// Whether any setting in `ss` is modified.
pub open spec fn any_modified(ss: Seq<Setting>) -> bool {
    exists|i: int| 0 <= i < ss.len() && (#[trigger] ss[i]).modified
}

/// The index of the first setting of `ss` with variable `var`, or the
/// length of `ss` when there is none.
pub open spec fn setting_index(ss: Seq<Setting>, var: Seq<char>) -> int
    decreases ss.len(),
{
    if ss.len() == 0 {
        0
    } else if ss[0].env_var@ == var {
        0
    } else {
        1 + setting_index(ss.drop_first(), var)
    }
}

proof fn lemma_setting_index_unique(ss: Seq<Setting>, var: Seq<char>, k: int)
    requires
        0 <= k <= ss.len(),
        forall|j: int| 0 <= j < k ==> (#[trigger] ss[j]).env_var@ != var,
        k < ss.len() ==> ss[k].env_var@ == var,
    ensures
        setting_index(ss, var) == k,
    decreases ss.len(),
{
    if ss.len() > 0 && ss[0].env_var@ != var {
        assert forall|j: int| 0 <= j < k - 1 implies (#[trigger] ss.drop_first()[j]).env_var@
            != var by {
            assert(ss.drop_first()[j] == ss[j + 1]);
        }
        lemma_setting_index_unique(ss.drop_first(), var, k - 1);
    }
}

// ---------------------------------------------------------------------------
// Settings as values
// ---------------------------------------------------------------------------

/// The content of a setting, with its text as characters.
pub struct SettingModel {
    pub env_var: Seq<char>,
    pub kind: SettingKind,
    pub bool_val: bool,
    pub str_val: Seq<char>,
    pub num_val: Option<u32>,
    pub modified: bool,
}

/// The content of `s`.
pub open spec fn model(s: Setting) -> SettingModel {
    SettingModel {
        env_var: s.env_var@,
        kind: s.kind,
        bool_val: s.bool_val,
        str_val: s.str_val@,
        num_val: s.num_val,
        modified: s.modified,
    }
}

/// The content of each setting of `ss`.
pub open spec fn models(ss: Seq<Setting>) -> Seq<SettingModel> {
    ss.map_values(|s: Setting| model(s))
}

/// `m` once its variable is given as `raw` and marked modified, as
/// `App::set_var` does.
pub open spec fn assigned(m: SettingModel, raw: Option<Seq<char>>) -> SettingModel {
    match m.kind {
        SettingKind::Bool { inverted } => SettingModel {
            bool_val: bool_from_env(inverted, raw),
            modified: true,
            ..m
        },
        SettingKind::Str => SettingModel { str_val: str_from_env(raw), modified: true, ..m },
        SettingKind::Num => SettingModel { num_val: num_from_env(raw), modified: true, ..m },
    }
}

/// The index of the first model of `ms` with variable `var`, or the length
/// of `ms` when there is none.
pub open spec fn model_index(ms: Seq<SettingModel>, var: Seq<char>) -> int
    decreases ms.len(),
{
    if ms.len() == 0 {
        0
    } else if ms[0].env_var == var {
        0
    } else {
        1 + model_index(ms.drop_first(), var)
    }
}

/// The settings `ms` after assigning `raw` to the variable `var`; `None`
/// when no setting has that variable.
pub open spec fn assign_var(ms: Seq<SettingModel>, var: Seq<char>, raw: Option<Seq<char>>) -> Option<
    Seq<SettingModel>,
> {
    let k = model_index(ms, var);
    if k < ms.len() {
        Some(ms.update(k, assigned(ms[k], raw)))
    } else {
        None
    }
}

proof fn lemma_model_index_unique(ms: Seq<SettingModel>, var: Seq<char>, k: int)
    requires
        0 <= k <= ms.len(),
        forall|j: int| 0 <= j < k ==> (#[trigger] ms[j]).env_var != var,
        k < ms.len() ==> ms[k].env_var == var,
    ensures
        model_index(ms, var) == k,
    decreases ms.len(),
{
    if ms.len() > 0 && ms[0].env_var != var {
        assert forall|j: int| 0 <= j < k - 1 implies (#[trigger] ms.drop_first()[j]).env_var
            != var by {
            assert(ms.drop_first()[j] == ms[j + 1]);
        }
        lemma_model_index_unique(ms.drop_first(), var, k - 1);
    }
}

// ---------------------------------------------------------------------------
// The application state
// ---------------------------------------------------------------------------

/// The whole editing state: the settings, the selection, the mode, the text
/// being edited, the target profile and the status message.
pub struct App {
    pub settings: Vec<Setting>,
    pub selected: usize,
    /// The row of the settings list that is highlighted.
    pub list_state: Option<usize>,
    pub mode: Mode,
    pub input: String,
    /// Cursor position in `input`, counted in characters.
    pub cursor_pos: usize,
    /// The filter text; only the settings that match it are listed.
    pub filter: String,
    pub shell_profile: String,
    /// The profiles considered for the user's shell, preferred first.
    pub profile_candidates: Vec<String>,
    /// A status message and whether it reports an error.
    pub message: Option<(String, bool)>,
    pub show_help: bool,
    /// The active palette, as an index into `themes()`.
    pub theme_index: usize,
}

/// `b` has the filter, the profile candidates and the palette of `a`.
pub open spec fn same_view_state(a: App, b: App) -> bool {
    &&& b.filter == a.filter
    &&& b.profile_candidates == a.profile_candidates
    &&& b.theme_index == a.theme_index
}

/// The text of a status message.
pub open spec fn message_is(m: Option<(String, bool)>, text: Seq<char>, is_error: bool) -> bool {
    match m {
        Some((t, e)) => t@ == text && e == is_error,
        None => false,
    }
}

/// `b` equals `a` in everything but the settings, the list row and the message.
pub open spec fn same_ui(a: App, b: App) -> bool {
    &&& b.selected == a.selected
    &&& b.mode == a.mode
    &&& b.input == a.input
    &&& b.cursor_pos == a.cursor_pos
    &&& b.shell_profile == a.shell_profile
    &&& b.show_help == a.show_help
    &&& same_view_state(a, b)
}

/// `s` with its boolean flipped and marked modified.
pub open spec fn toggled(s: Setting) -> Setting {
    Setting { bool_val: !s.bool_val, modified: true, ..s }
}

/// `s` marked as saved (not modified).
pub open spec fn saved(s: Setting) -> Setting {
    Setting { modified: false, ..s }
}

/// The number of characters of the number `n` written in decimal, or of
/// nothing for `None`: what editing a number setting starts from.
pub open spec fn num_input(n: Option<u32>) -> Seq<char> {
    match n {
        Some(v) => decimal(v as nat),
        None => Seq::empty(),
    }
}

/// `after` holds the trimmed edit text `t` as its value, per its kind, and
/// is marked modified when the value changed.
pub open spec fn edit_stored(before: Setting, after: Setting, t: Seq<char>) -> bool {
    &&& same_entry(before, after)
    &&& after.bool_val == before.bool_val
    &&& match before.kind {
        SettingKind::Str => {
            &&& after.str_val@ == t
            &&& after.num_val == before.num_val
            &&& after.modified == (before.modified || t != before.str_val@)
        },
        SettingKind::Num => {
            let v = if t.len() == 0 {
                None
            } else {
                parse_u32(t)
            };
            &&& after.num_val == v
            &&& after.str_val == before.str_val
            &&& after.modified == (before.modified || v != before.num_val)
        },
        SettingKind::Bool { .. } => after == before,
    }
}

/// `comp` appended to the path `base` (`Path::join` with a relative
/// component): a `/` is put between them unless `base` is empty or already
/// ends with one.
pub open spec fn path_join(base: Seq<char>, comp: Seq<char>) -> Seq<char> {
    if base.len() == 0 {
        comp
    } else if base.last() == '/' {
        base + comp
    } else {
        base + seq!['/'] + comp
    }
}

/// `comp` appended to the path `base`.
pub fn join_path(base: &Vec<char>, comp: &str) -> (r: Vec<char>)
    ensures
        r@ == path_join(base@, comp@),
{
    let mut r: Vec<char> = Vec::new();
    push_chars(&mut r, base);
    if base.len() > 0 && base[base.len() - 1] != '/' {
        r.push('/');
    }
    push_str(&mut r, comp);
    proof {
        if base@.len() == 0 {
            assert(r@ == Seq::<char>::empty() + comp@);
        }
    }
    r
}

/// `b` is `a` after flipping the selected setting when it is a boolean.
pub open spec fn toggle_post(a: App, b: App) -> bool {
    &&& b.settings@ == (match a.settings@[a.selected as int].kind {
            SettingKind::Bool { .. } => a.settings@.update(
                a.selected as int,
                toggled(a.settings@[a.selected as int]),
            ),
            _ => a.settings@,
        })
    &&& b.list_state == a.list_state
    &&& b.message == a.message
    &&& same_ui(a, b)
}

/// `b` is `a` with the editor opened on the selected setting: for a string
/// or number, its value becomes the text with the cursor at its end; a
/// boolean leaves everything unchanged.
pub open spec fn start_editing_post(a: App, b: App) -> bool {
    &&& ({
            let s = a.settings@[a.selected as int];
            match s.kind {
                SettingKind::Bool { .. } => b == a,
                _ => {
                    &&& b.input@ == (if s.kind == SettingKind::Str {
                        s.str_val@
                    } else {
                        num_input(s.num_val)
                    })
                    &&& b.cursor_pos == b.input@.len()
                    &&& b.mode == Mode::Editing
                    &&& b.settings == a.settings
                    &&& b.selected == a.selected
                    &&& b.list_state == a.list_state
                    &&& b.shell_profile == a.shell_profile
                    &&& b.message == a.message
                    &&& b.show_help == a.show_help
                    &&& same_view_state(a, b)
                },
            }
        })
}

/// `b` is `a` with the editor closed and its text discarded.
pub open spec fn cancel_edit_post(a: App, b: App) -> bool {
    &&& b.mode == Mode::Normal
    &&& b.input@.len() == 0
    &&& b.cursor_pos == 0
    &&& b.settings == a.settings
    &&& b.selected == a.selected
    &&& b.list_state == a.list_state
    &&& b.shell_profile == a.shell_profile
    &&& b.message == a.message
    &&& b.show_help == a.show_help
    &&& same_view_state(a, b)
}

/// `b` is `a` after confirming the edit text (see `App::confirm_edit`).
pub open spec fn confirm_edit_post(a: App, b: App) -> bool {
    &&& ({
            let sel = a.selected as int;
            let s = a.settings@[sel];
            let t = trim_ws(a.input@);
            if s.kind == SettingKind::Num && t.len() > 0 && parse_u32(t) is None {
                &&& message_is(b.message, "Invalid number"@, true)
                &&& b.settings == a.settings
                &&& b.list_state == a.list_state
                &&& same_ui(a, b)
            } else {
                &&& b.mode == Mode::Normal
                &&& b.input@.len() == 0
                &&& b.cursor_pos == 0
                &&& b.selected == a.selected
                &&& b.list_state == a.list_state
                &&& b.shell_profile == a.shell_profile
                &&& b.message == a.message
                &&& b.show_help == a.show_help
                &&& same_view_state(a, b)
                &&& b.settings@.len() == a.settings@.len()
                &&& forall|j: int|
                    0 <= j < a.settings@.len() && j != sel
                        ==> #[trigger] b.settings@[j] == a.settings@[j]
                &&& edit_stored(s, b.settings@[sel], t)
            }
        })
}

/// The setting selected after moving down among the listed indices `vis`:
/// the next listed one, wrapping around, or the first listed one when the
/// selection `sel` is not listed.
pub open spec fn next_listed(vis: Seq<usize>, sel: usize) -> usize {
    let p = position(vis, sel);
    if p < vis.len() {
        vis[next_index(p, vis.len() as int)]
    } else {
        vis[0]
    }
}

/// The setting selected after moving up among the listed indices `vis`:
/// the previous listed one, wrapping around, or the last listed one when
/// the selection `sel` is not listed.
pub open spec fn prev_listed(vis: Seq<usize>, sel: usize) -> usize {
    let p = position(vis, sel);
    if p < vis.len() {
        vis[prev_index(p, vis.len() as int)]
    } else {
        vis[vis.len() - 1]
    }
}

/// `b` is `a` with the selection moved to `sel` and its row highlighted.
pub open spec fn moved_to(a: App, b: App, sel: usize) -> bool {
    &&& b.selected == sel
    &&& b.list_state == highlight(a.settings@, a.filter@, sel)
    &&& b.settings == a.settings
    &&& b.message == a.message
    &&& b.mode == a.mode
    &&& b.input == a.input
    &&& b.cursor_pos == a.cursor_pos
    &&& b.shell_profile == a.shell_profile
    &&& b.show_help == a.show_help
    &&& same_view_state(a, b)
}

/// `b` is `a` with the selection moved down among the listed settings,
/// wrapping around; nothing changes when no setting is listed.
pub open spec fn select_next_post(a: App, b: App) -> bool {
    let vis = visible_spec(a.settings@, a.filter@);
    &&& vis.len() == 0 ==> b == a
    &&& vis.len() > 0 ==> moved_to(a, b, next_listed(vis, a.selected))
}

/// `b` is `a` with the selection moved up among the listed settings,
/// wrapping around; nothing changes when no setting is listed.
pub open spec fn select_prev_post(a: App, b: App) -> bool {
    let vis = visible_spec(a.settings@, a.filter@);
    &&& vis.len() == 0 ==> b == a
    &&& vis.len() > 0 ==> moved_to(a, b, prev_listed(vis, a.selected))
}

/// The selection once the filter `f` applies: kept when `f` lists it (or
/// lists nothing), else moved to the first listed setting.
pub open spec fn selection_under(ss: Seq<Setting>, f: Seq<char>, sel: usize) -> usize {
    let vis = visible_spec(ss, f);
    if vis.len() == 0 || vis.contains(sel) {
        sel
    } else {
        vis[0]
    }
}

/// `b` is `a` with the filter text `f`, the selection adjusted to it and
/// its row highlighted; the mode is left to the caller.
pub open spec fn filtered(a: App, b: App, f: Seq<char>) -> bool {
    let sel = selection_under(a.settings@, f, a.selected);
    &&& b.filter@ == f
    &&& b.selected == sel
    &&& b.list_state == highlight(a.settings@, f, sel)
    &&& b.settings == a.settings
    &&& b.message == a.message
    &&& b.input == a.input
    &&& b.cursor_pos == a.cursor_pos
    &&& b.shell_profile == a.shell_profile
    &&& b.profile_candidates == a.profile_candidates
    &&& b.show_help == a.show_help
    &&& b.theme_index == a.theme_index
}

/// `app` is a fresh state read from `env`: the catalogue, each setting read
/// from its raw value in `env` (in catalogue order; absent past its end),
/// the first setting selected and highlighted, no filter, no edit text, no
/// message and no help shown.
pub open spec fn fresh_state(app: App, env: Seq<Option<String>>) -> bool {
    &&& app.settings@.len() == catalogue().len()
    &&& forall|i: int|
        0 <= i < app.settings@.len() ==> entry_of(#[trigger] app.settings@[i]) == catalogue()[i]
            && fresh_from_env(app.settings@[i], raw_at(env, i))
    &&& forall|i: int|
        0 <= i < app.settings@.len() ==> (#[trigger] app.settings@[i]).default_hint@
            == catalogue_extras()[i].0 && app.settings@[i].is_path == catalogue_extras()[i].1
    &&& app.selected == 0
    &&& app.list_state == highlight(app.settings@, app.filter@, 0)
    &&& app.mode == Mode::Normal
    &&& app.input@.len() == 0
    &&& app.cursor_pos == 0
    &&& app.filter@.len() == 0
    &&& app.message is None
    &&& !app.show_help
}

// ---------------------------------------------------------------------------
// The target profile and the palette
// ---------------------------------------------------------------------------

/// The characters of each string of `v`.
pub open spec fn strings_view(v: Seq<String>) -> Seq<Seq<char>> {
    v.map_values(|s: String| s@)
}

/// The profiles considered for the shell named by `shell` under `home`,
/// preferred first: `.zshrc` then `.zprofile` for zsh; the fish config
/// file for fish; `.bashrc`, `.bash_profile` then `.profile` otherwise.
pub open spec fn candidates_spec(home: Seq<char>, shell: Seq<char>) -> Seq<Seq<char>> {
    if contains_seq(shell, "zsh"@) {
        seq![path_join(home, ".zshrc"@), path_join(home, ".zprofile"@)]
    } else if contains_seq(shell, "fish"@) {
        seq![path_join(path_join(path_join(home, ".config"@), "fish"@), "config.fish"@)]
    } else {
        seq![
            path_join(home, ".bashrc"@),
            path_join(home, ".bash_profile"@),
            path_join(home, ".profile"@),
        ]
    }
}

/// The index of the first `true` of `v`.
pub open spec fn first_true(v: Seq<bool>) -> Option<int>
    decreases v.len(),
{
    if v.len() == 0 {
        None
    } else if v[0] {
        Some(0)
    } else {
        match first_true(v.drop_first()) {
            Some(i) => Some(i + 1),
            None => None,
        }
    }
}

/// The candidate picked when `has_block[i]` tells whether candidate `i`
/// already holds the managed block and `exists[i]` whether it exists: the
/// first holding the block, else the first that exists, else the first.
pub open spec fn pick_spec(has_block: Seq<bool>, exists: Seq<bool>) -> int {
    match first_true(has_block) {
        Some(i) => i,
        None => match first_true(exists) {
            Some(i) => i,
            None => 0,
        },
    }
}

/// `flags[i]` is what `f` answered for the path of candidate `i`.
pub open spec fn reports<F: Fn(&String) -> bool>(f: F, cands: Seq<String>, flags: Seq<bool>) -> bool {
    &&& flags.len() == cands.len()
    &&& forall|i: int| 0 <= i < cands.len() ==> f.ensures((&cands[i],), #[trigger] flags[i])
}

/// The profile that follows `cur` among `cands`, wrapping around; the first
/// candidate when `cur` is none of them.
pub open spec fn cycled_profile(cands: Seq<Seq<char>>, cur: Seq<char>) -> Seq<char> {
    match index_in(cands, cur) {
        Some(i) => cands[next_index(i, cands.len() as int)],
        None => cands[0],
    }
}

/// `b` is `a` writing to the next candidate profile (see `cycled_profile`);
/// `a` itself when there are no candidates.
pub open spec fn profile_cycled(a: App, b: App) -> bool {
    &&& a.profile_candidates@.len() == 0 ==> b == a
    &&& a.profile_candidates@.len() > 0 ==> {
        &&& b.shell_profile@ == cycled_profile(
            strings_view(a.profile_candidates@),
            a.shell_profile@,
        )
        &&& b == (App { shell_profile: b.shell_profile, ..a })
    }
}

/// `b` is `a` with the next palette, wrapping around.
pub open spec fn theme_cycled(a: App, b: App) -> bool {
    b == (App {
        theme_index: next_index(theme_slot(a.theme_index), theme_table().len() as int) as usize,
        ..a
    })
}

/// The palette slot that `theme_index` designates: itself when it is a
/// palette, else the default one.
pub open spec fn theme_slot(theme_index: usize) -> int {
    if theme_index < theme_table().len() {
        theme_index as int
    } else {
        0
    }
}

/// The palette index for the preferred palette name: its index when it
/// names a palette, else the default one.
pub open spec fn theme_choice(name: Option<String>) -> int {
    match name {
        Some(n) => match index_in(theme_names(), n@) {
            Some(i) => i,
            None => 0,
        },
        None => 0,
    }
}

/// The index of the first `true` of `v`.
fn first_true_index(v: &[bool]) -> (r: Option<usize>)
    ensures
        match r {
            Some(k) => first_true(v@) == Some(k as int),
            None => first_true(v@) is None,
        },
{
    let mut i: usize = 0;
    while i < v.len()
        invariant
            i <= v@.len(),
            forall|j: int| 0 <= j < i ==> !v@[j],
        decreases v.len() - i,
    {
        if v[i] {
            proof {
                lemma_first_true(v@, i as int);
            }
            return Some(i);
        }
        i += 1;
    }
    proof {
        lemma_first_true(v@, i as int);
    }
    None
}

proof fn lemma_first_true(v: Seq<bool>, k: int)
    requires
        0 <= k <= v.len(),
        forall|j: int| 0 <= j < k ==> !v[j],
        k < v.len() ==> v[k],
    ensures
        first_true(v) == (if k < v.len() {
            Some(k)
        } else {
            None
        }),
    decreases v.len(),
{
    if v.len() > 0 && !v[0] {
        assert forall|j: int| 0 <= j < k - 1 implies !v.drop_first()[j] by {
            assert(v.drop_first()[j] == v[j + 1]);
        }
        lemma_first_true(v.drop_first(), k - 1);
    }
}

/// The index of the candidate to write: the first whose flag in
/// `has_block` is set, else the first whose flag in `exists` is set, else
/// the first.
pub fn pick_index(has_block: &[bool], present: &[bool]) -> (r: usize)
    ensures
        r as int == pick_spec(has_block@, present@),
{
    match first_true_index(has_block) {
        Some(i) => i,
        None => match first_true_index(present) {
            Some(i) => i,
            None => 0,
        },
    }
}

/// The answers of `f` for each candidate's path.
fn flags_of<F: Fn(&String) -> bool>(cands: &Vec<String>, f: F) -> (r: Vec<bool>)
    requires
        forall|p: &String| f.requires((p,)),
    ensures
        reports(f, cands@, r@),
{
    let mut r: Vec<bool> = Vec::new();
    let mut i: usize = 0;
    while i < cands.len()
        invariant
            i <= cands@.len(),
            r@.len() == i,
            forall|p: &String| f.requires((p,)),
            forall|j: int| 0 <= j < i ==> f.ensures((&cands@[j],), #[trigger] r@[j]),
        decreases cands.len() - i,
    {
        let b = f(&cands[i]);
        r.push(b);
        i += 1;
    }
    r
}

/// The profile to write among `candidates` (preferred first): the first
/// that already holds the managed block, else the first that exists, else
/// the preferred one, as `has_block` and `file_exists` report them.
pub fn pick_profile<F: Fn(&String) -> bool, G: Fn(&String) -> bool>(
    candidates: &Vec<String>,
    has_block: F,
    file_exists: G,
) -> (r: String)
    requires
        candidates@.len() > 0,
        forall|p: &String| has_block.requires((p,)),
        forall|p: &String| file_exists.requires((p,)),
    ensures
        exists|hb: Seq<bool>, ex: Seq<bool>|
            #![trigger reports(has_block, candidates@, hb), reports(file_exists, candidates@, ex)]
            reports(has_block, candidates@, hb) && reports(file_exists, candidates@, ex) && r@
                == candidates@[pick_spec(hb, ex)]@,
{
    let hb = flags_of(candidates, has_block);
    let ex = flags_of(candidates, file_exists);
    let k = pick_index(hb.as_slice(), ex.as_slice());
    proof {
        lemma_first_true_bound(hb@);
        lemma_first_true_bound(ex@);
    }
    let r = candidates[k].clone();
    assert(reports(has_block, candidates@, hb@) && reports(file_exists, candidates@, ex@));
    r
}

proof fn lemma_first_true_bound(v: Seq<bool>)
    ensures
        first_true(v) matches Some(i) ==> 0 <= i < v.len(),
    decreases v.len(),
{
    if v.len() > 0 && !v[0] {
        lemma_first_true_bound(v.drop_first());
    }
}

/// Whether `s` is listed under the filter whose folded text is `ff`.
fn listed(s: &Setting, ff: &Vec<char>) -> (r: bool)
    ensures
        r == (contains_seq(fold(s.name@), ff@) || contains_seq(fold(s.env_var@), ff@)
            || contains_seq(fold(s.category@), ff@) || contains_seq(fold(s.description@), ff@)),
{
    contains_chars(&fold_str(s.name), ff) || contains_chars(&fold_str(s.env_var), ff)
        || contains_chars(&fold_str(s.category), ff) || contains_chars(&fold_str(s.description), ff)
}

/// The place of `sel` in `vis`, or the length of `vis` when it is absent.
pub fn find_position(vis: &[usize], sel: usize) -> (r: usize)
    ensures
        r as int == position(vis@, sel),
{
    proof {
        lemma_position(vis@, sel);
    }
    let mut i: usize = 0;
    while i < vis.len()
        invariant
            i <= vis@.len(),
            forall|j: int| 0 <= j < i ==> vis@[j] != sel,
            i <= position(vis@, sel),
            0 <= position(vis@, sel) <= vis@.len(),
            position(vis@, sel) < vis@.len() ==> vis@[position(vis@, sel)] == sel,
            forall|j: int| 0 <= j < position(vis@, sel) ==> vis@[j] != sel,
        decreases vis.len() - i,
    {
        if vis[i] == sel {
            return i;
        }
        i += 1;
    }
    i
}

impl App {
    /// The settings of the catalogue, all at their defaults.
    pub fn build_settings() -> (v: Vec<Setting>)
        ensures
            v@.len() == catalogue().len(),
            forall|i: int|
                0 <= i < v@.len() ==> entry_of(#[trigger] v@[i]) == catalogue()[i] && at_default(
                    v@[i],
                ),
            forall|i: int|
                0 <= i < v@.len() ==> (#[trigger] v@[i]).default_hint@ == catalogue_extras()[i].0
                    && v@[i].is_path == catalogue_extras()[i].1,
    {
        vec![
            make_setting(
                "Analytics",
                "HOMEBREW_NO_ANALYTICS",
                "Disable sending analytics to Google Analytics",
                SettingKind::Bool { inverted: true },
                "Privacy",
            ),
            make_setting(
                "Env Hints",
                "HOMEBREW_NO_ENV_HINTS",
                "Disable hints about Homebrew environment variables",
                SettingKind::Bool { inverted: true },
                "Privacy",
            ),
            make_setting(
                "Auto Update",
                "HOMEBREW_NO_AUTO_UPDATE",
                "Disable automatic brew update before install/upgrade/tap",
                SettingKind::Bool { inverted: true },
                "Updates",
            ),
            make_setting(
                "Install Upgrade",
                "HOMEBREW_NO_INSTALL_UPGRADE",
                "Disable automatic upgrade of outdated formulae on install",
                SettingKind::Bool { inverted: true },
                "Updates",
            ),
            make_setting(
                "Install Cleanup",
                "HOMEBREW_NO_INSTALL_CLEANUP",
                "Disable automatic cleanup after install/upgrade",
                SettingKind::Bool { inverted: true },
                "Updates",
            ),
            make_setting(
                "Cleanup Age",
                "HOMEBREW_CLEANUP_MAX_AGE_DAYS",
                "Max age in days for cached files during cleanup (default: 120)",
                SettingKind::Num,
                "Updates",
            ).with_default("120"),
            make_setting(
                "Color",
                "HOMEBREW_NO_COLOR",
                "Disable colored output",
                SettingKind::Bool { inverted: true },
                "Display",
            ),
            make_setting(
                "Emoji",
                "HOMEBREW_NO_EMOJI",
                "Disable emoji in output (e.g. the 🍺 after install)",
                SettingKind::Bool { inverted: true },
                "Display",
            ),
            make_setting(
                "Verbose",
                "HOMEBREW_VERBOSE",
                "Print extra debugging information",
                SettingKind::Bool { inverted: false },
                "Display",
            ),
            make_setting(
                "Debug",
                "HOMEBREW_DEBUG",
                "Print all debugging information",
                SettingKind::Bool { inverted: false },
                "Display",
            ),
            make_setting(
                "Install Badge",
                "HOMEBREW_INSTALL_BADGE",
                "Character displayed during install (default: 🍺)",
                SettingKind::Str,
                "Display",
            ).with_default("🍺"),
            make_setting(
                "Cache",
                "HOMEBREW_CACHE",
                "Directory for cached downloads",
                SettingKind::Str,
                "Directories",
            ).with_path_flag(),
            make_setting(
                "Cellar",
                "HOMEBREW_CELLAR",
                "Directory for installed formula files",
                SettingKind::Str,
                "Directories",
            ).with_path_flag(),
            make_setting(
                "Logs",
                "HOMEBREW_LOGS",
                "Directory for brew logs",
                SettingKind::Str,
                "Directories",
            ).with_path_flag(),
            make_setting(
                "Temp",
                "HOMEBREW_TEMP",
                "Temp directory used during builds",
                SettingKind::Str,
                "Directories",
            ).with_path_flag(),
            make_setting(
                "Editor",
                "HOMEBREW_EDITOR",
                "Editor used by brew edit (defaults to $EDITOR)",
                SettingKind::Str,
                "Tools",
            ).with_default("$EDITOR"),
            make_setting(
                "Curl Retries",
                "HOMEBREW_CURL_RETRIES",
                "Number of times to retry failed downloads (default: 3)",
                SettingKind::Num,
                "Tools",
            ).with_default("3"),
            make_setting(
                "Insecure Redirect",
                "HOMEBREW_NO_INSECURE_REDIRECT",
                "Forbid redirections from HTTPS to HTTP",
                SettingKind::Bool { inverted: true },
                "Security",
            ),
            make_setting(
                "Bottle Domain",
                "HOMEBREW_BOTTLE_DOMAIN",
                "Custom mirror URL for bottle downloads",
                SettingKind::Str,
                "Network",
            ),
            make_setting(
                "Brew Remote",
                "HOMEBREW_BREW_GIT_REMOTE",
                "Custom git remote URL for Homebrew/brew",
                SettingKind::Str,
                "Network",
            ),
            make_setting(
                "Core Remote",
                "HOMEBREW_CORE_GIT_REMOTE",
                "Custom git remote URL for homebrew-core",
                SettingKind::Str,
                "Network",
            ),
            make_setting(
                "GitHub Token",
                "HOMEBREW_GITHUB_API_TOKEN",
                "Personal access token for GitHub API (avoids rate limiting)",
                SettingKind::Str,
                "Network",
            ),
        ]
    }

    /// The indices of the settings listed under the current filter, in
    /// order.
    pub fn visible(&self) -> (r: Vec<usize>)
        ensures
            r@ == visible_spec(self.settings@, self.filter@),
    {
        let ff = fold_str(self.filter.as_str());
        let n = self.settings.len();
        let mut r: Vec<usize> = Vec::new();
        let mut i: usize = 0;
        while i < n
            invariant
                i <= n,
                n == self.settings@.len(),
                ff@ == fold(self.filter@),
                r@ == visible_upto(self.settings@, self.filter@, i as int),
            decreases n - i,
        {
            if listed(&self.settings[i], &ff) {
                r.push(i);
            }
            i += 1;
        }
        r
    }

    /// The list row of the listed setting at place `pos` among the listed
    /// indices `visible`, counting category headers and the blank rows
    /// between groups.
    pub fn compute_list_index(settings: &[Setting], visible: &[usize], pos: usize) -> (r: usize)
        requires
            visible@.len() <= usize::MAX / 3,
            forall|j: int| 0 <= j < visible@.len() ==> visible@[j] < settings@.len(),
        ensures
            r as int == list_index_spec(view_of(settings@, visible@), pos as int),
    {
        let ghost view = view_of(settings@, visible@);
        let n = visible.len();
        let mut list_index: usize = 0;
        let mut i: usize = 0;
        while i < n
            invariant
                i <= n,
                n == visible@.len(),
                n == view.len(),
                n <= usize::MAX / 3,
                view == view_of(settings@, visible@),
                forall|j: int| 0 <= j < visible@.len() ==> visible@[j] < settings@.len(),
                i <= pos || pos >= n,
                list_index == list_rows(view, i as int),
            decreases n - i,
        {
            proof {
                lemma_list_rows_bounds(view, i as int);
            }
            let new_group = i == 0 || !str_eq(
                settings[visible[i]].category,
                settings[visible[i - 1]].category,
            );
            if new_group {
                if i > 0 {
                    list_index += 1;
                }
                list_index += 1;
            }
            if i == pos {
                return list_index;
            }
            list_index += 1;
            i += 1;
        }
        proof {
            lemma_list_rows_bounds(view, n as int);
        }
        if list_index > 0 {
            list_index - 1
        } else {
            0
        }
    }

    /// Highlights the row of the selected setting, or no row when the
    /// filter hides it.
    pub fn sync_list_state(&mut self)
        requires
            old(self).settings@.len() <= usize::MAX / 3,
        ensures
            final(self).list_state == highlight(
                old(self).settings@,
                old(self).filter@,
                old(self).selected,
            ),
            final(self).settings == old(self).settings,
            final(self).message == old(self).message,
            same_ui(*old(self), *final(self)),
    {
        let vis = self.visible();
        proof {
            lemma_visible_upto(self.settings@, self.filter@, self.settings@.len() as int);
        }
        let p = find_position(vis.as_slice(), self.selected);
        if p < vis.len() {
            let idx = Self::compute_list_index(self.settings.as_slice(), vis.as_slice(), p);
            self.list_state = Some(idx);
        } else {
            self.list_state = None;
        }
    }

    /// A fresh state: the catalogue read from `env_values` (the raw value of
    /// each setting's variable, in catalogue order; `None` when unset) and
    /// the given target profile.
    pub fn new(env_values: &Vec<Option<String>>, shell_profile: String) -> (app: App)
        ensures
            fresh_state(app, env_values@),
            app.list_state == Some(list_index_spec(app.settings@, 0) as usize),
            app.shell_profile == shell_profile,
            app.profile_candidates@.len() == 0,
            app.theme_index == 0,
    {
        let mut settings = Self::build_settings();
        let n = settings.len();
        let mut i: usize = 0;
        while i < n
            invariant
                i <= n,
                n == settings@.len(),
                n == catalogue().len(),
                forall|j: int|
                    0 <= j < n ==> entry_of(#[trigger] settings@[j]) == catalogue()[j],
                forall|j: int|
                    0 <= j < n ==> (#[trigger] settings@[j]).default_hint@
                        == catalogue_extras()[j].0 && settings@[j].is_path
                        == catalogue_extras()[j].1,
                forall|j: int| 0 <= j < i ==> fresh_from_env(#[trigger] settings@[j], raw_at(env_values@, j)),
                forall|j: int| i <= j < n ==> at_default(#[trigger] settings@[j]),
            decreases n - i,
        {
            let raw = raw_value_at(env_values, i);
            let ghost before = settings@[i as int];
            settings[i].apply_env_value(raw);
            assert(reads_env(before, settings@[i as int], raw_at(env_values@, i as int)));
            i += 1;
        }
        let mut app = App {
            settings,
            selected: 0,
            list_state: None,
            mode: Mode::Normal,
            input: String::new(),
            cursor_pos: 0,
            filter: String::new(),
            shell_profile,
            profile_candidates: Vec::new(),
            message: None,
            show_help: false,
            theme_index: 0,
        };
        app.sync_list_state();
        proof {
            lemma_empty_filter_view(app.settings@, app.filter@, 0);
        }
        app
    }

    /// Flips the selected setting when it is a boolean.
    pub fn toggle_current(&mut self)
        requires
            old(self).selected < old(self).settings@.len(),
        ensures
            toggle_post(*old(self), *final(self)),
    {
        let sel = self.selected;
        let ghost before = self.settings@;
        if let SettingKind::Bool { .. } = self.settings[sel].kind {
            let setting = &mut self.settings[sel];
            setting.bool_val = !setting.bool_val;
            setting.modified = true;
            assert(self.settings@ =~= before.update(sel as int, toggled(before[sel as int])));
        }
    }

    /// Opens the editor on the selected string or number setting, with its
    /// current value as the text and the cursor at its end.
    pub fn start_editing(&mut self)
        requires
            old(self).selected < old(self).settings@.len(),
        ensures
            start_editing_post(*old(self), *final(self)),
    {
        let sel = self.selected;
        match &self.settings[sel].kind {
            SettingKind::Str => {
                self.input = self.settings[sel].str_val.clone();
            },
            SettingKind::Num => {
                self.input = match self.settings[sel].num_val {
                    Some(n) => u32_to_string(n),
                    None => String::new(),
                };
            },
            SettingKind::Bool { .. } => return ,
        }
        let v = chars_of(self.input.as_str());
        self.cursor_pos = v.len();
        self.mode = Mode::Editing;
    }

    /// Closes the editor, discarding the text.
    pub fn cancel_edit(&mut self)
        ensures
            cancel_edit_post(*old(self), *final(self)),
    {
        self.mode = Mode::Normal;
        self.input = String::new();
        self.cursor_pos = 0;
    }


    /// Stores the edited text into the selected setting: trimmed for a
    /// string; for a number, empty text means the default and text that does
    /// not parse keeps the editor open with an error message. The setting is
    /// marked modified only when its value changes.
    pub fn confirm_edit(&mut self)
        requires
            old(self).selected < old(self).settings@.len(),
        ensures
            confirm_edit_post(*old(self), *final(self)),
    {
        let sel = self.selected;
        let trimmed = trim_str(self.input.as_str());
        match self.settings[sel].kind {
            SettingKind::Str => {
                let t = from_chars(&trimmed);
                let setting = &mut self.settings[sel];
                if !str_eq(t.as_str(), setting.str_val.as_str()) {
                    setting.str_val = t;
                    setting.modified = true;
                }
            },
            SettingKind::Num => {
                let new_val = if trimmed.len() == 0 {
                    None
                } else {
                    match parse_u32_chars(&trimmed) {
                        Some(n) => Some(n),
                        None => {
                            self.message = Some(("Invalid number".to_owned(), true));
                            return ;
                        },
                    }
                };
                let setting = &mut self.settings[sel];
                let changed = match (new_val, setting.num_val) {
                    (Some(a), Some(b)) => a != b,
                    (None, None) => false,
                    _ => true,
                };
                if changed {
                    setting.num_val = new_val;
                    setting.modified = true;
                }
            },
            SettingKind::Bool { .. } => {},
        }
        self.cancel_edit();
    }

    /// Moves the selection down among the listed settings, wrapping to the
    /// first one.
    pub fn select_next(&mut self)
        requires
            old(self).settings@.len() <= usize::MAX / 3,
        ensures
            select_next_post(*old(self), *final(self)),
    {
        let vis = self.visible();
        if vis.len() == 0 {
            return ;
        }
        proof {
            lemma_visible_upto(self.settings@, self.filter@, self.settings@.len() as int);
            lemma_position(vis@, self.selected);
            if position(vis@, self.selected) < vis@.len() {
                lemma_next_prev_inverse(position(vis@, self.selected), vis@.len() as int);
            }
        }
        let p = find_position(vis.as_slice(), self.selected);
        self.selected = if p < vis.len() {
            vis[(p + 1) % vis.len()]
        } else {
            vis[0]
        };
        self.sync_list_state();
    }

    /// Moves the selection up among the listed settings, wrapping to the
    /// last one.
    pub fn select_prev(&mut self)
        requires
            old(self).settings@.len() <= usize::MAX / 3,
        ensures
            select_prev_post(*old(self), *final(self)),
    {
        let vis = self.visible();
        if vis.len() == 0 {
            return ;
        }
        proof {
            lemma_visible_upto(self.settings@, self.filter@, self.settings@.len() as int);
            lemma_position(vis@, self.selected);
            if position(vis@, self.selected) < vis@.len() {
                lemma_next_prev_inverse(position(vis@, self.selected), vis@.len() as int);
            }
        }
        let p = find_position(vis.as_slice(), self.selected);
        self.selected = if p < vis.len() {
            if p == 0 {
                vis[vis.len() - 1]
            } else {
                vis[p - 1]
            }
        } else {
            vis[vis.len() - 1]
        };
        self.sync_list_state();
    }

    /// Sets the filter text to `f`, moves the selection to the first listed
    /// setting when `f` hides it, and highlights its row.
    fn apply_filter(&mut self, f: String)
        requires
            old(self).settings@.len() <= usize::MAX / 3,
        ensures
            filtered(*old(self), *final(self), f@),
            final(self).mode == old(self).mode,
    {
        self.filter = f;
        let vis = self.visible();
        proof {
            lemma_visible_upto(self.settings@, self.filter@, self.settings@.len() as int);
            lemma_position(vis@, self.selected);
        }
        if vis.len() > 0 && find_position(vis.as_slice(), self.selected) == vis.len() {
            self.selected = vis[0];
        }
        self.sync_list_state();
    }

    /// Starts typing the filter text.
    pub fn start_filter(&mut self)
        ensures
            *final(self) == (App { mode: Mode::Filtering, ..*old(self) }),
    {
        self.mode = Mode::Filtering;
    }

    /// Adds `c` to the filter text.
    pub fn filter_push(&mut self, c: char)
        requires
            old(self).settings@.len() <= usize::MAX / 3,
        ensures
            filtered(*old(self), *final(self), old(self).filter@.push(c)),
            final(self).mode == old(self).mode,
    {
        let mut v = chars_of(self.filter.as_str());
        v.push(c);
        let f = from_chars(&v);
        self.apply_filter(f);
    }

    /// Removes the last character of the filter text, if any.
    pub fn filter_backspace(&mut self)
        requires
            old(self).settings@.len() <= usize::MAX / 3,
        ensures
            filtered(
                *old(self),
                *final(self),
                if old(self).filter@.len() > 0 {
                    old(self).filter@.drop_last()
                } else {
                    old(self).filter@
                },
            ),
            final(self).mode == old(self).mode,
    {
        let mut v = chars_of(self.filter.as_str());
        if v.len() > 0 {
            v.pop();
        }
        let f = from_chars(&v);
        self.apply_filter(f);
    }

    /// Keeps the filter and returns to normal mode.
    pub fn confirm_filter(&mut self)
        ensures
            *final(self) == (App { mode: Mode::Normal, ..*old(self) }),
    {
        self.mode = Mode::Normal;
    }

    /// Empties the filter, so that every setting is listed again, and
    /// returns to normal mode.
    pub fn clear_filter(&mut self)
        requires
            old(self).settings@.len() <= usize::MAX / 3,
        ensures
            filtered(*old(self), *final(self), Seq::empty()),
            final(self).mode == Mode::Normal,
    {
        self.apply_filter(String::new());
        self.mode = Mode::Normal;
    }

    /// Whether any setting was changed since it was last read or applied.
    pub fn has_unsaved_changes(&self) -> (r: bool)
        ensures
            r == any_modified(self.settings@),
    {
        let mut i: usize = 0;
        while i < self.settings.len()
            invariant
                i <= self.settings@.len(),
                forall|j: int| 0 <= j < i ==> !(#[trigger] self.settings@[j]).modified,
            decreases self.settings.len() - i,
        {
            if self.settings[i].modified {
                return true;
            }
            i += 1;
        }
        false
    }

    /// Re-reads every setting from `env_values` (the raw value of each
    /// setting's variable, in order; `None` when unset), discarding edits.
    pub fn reset(&mut self, env_values: &Vec<Option<String>>)
        requires
            old(self).settings@.len() <= usize::MAX / 3,
        ensures
            final(self).settings@.len() == old(self).settings@.len(),
            forall|i: int|
                0 <= i < old(self).settings@.len() ==> reads_env(
                    old(self).settings@[i],
                    #[trigger] final(self).settings@[i],
                    raw_at(env_values@, i),
                ) && !final(self).settings@[i].modified,
            final(self).list_state == highlight(
                final(self).settings@,
                old(self).filter@,
                old(self).selected,
            ),
            message_is(final(self).message, "Reset to current environment"@, false),
            same_ui(*old(self), *final(self)),
    {
        let n = self.settings.len();
        let ghost old_settings = self.settings@;
        let mut i: usize = 0;
        while i < n
            invariant
                i <= n,
                n == self.settings@.len(),
                n == old_settings.len(),
                n <= usize::MAX / 3,
                forall|j: int|
                    0 <= j < i ==> reads_env(
                        old_settings[j],
                        #[trigger] self.settings@[j],
                        raw_at(env_values@, j),
                    ) && !self.settings@[j].modified,
                forall|j: int| i <= j < n ==> #[trigger] self.settings@[j] == old_settings[j],
                same_ui(*old(self), *self),
            decreases n - i,
        {
            let raw = raw_value_at(env_values, i);
            self.settings[i].apply_env_value(raw);
            i += 1;
        }
        self.sync_list_state();
        self.message = Some(("Reset to current environment".to_owned(), false));
    }

    /// Sets the variable `var` to `value` (`None` unsets it) as if read from
    /// the environment, and marks the setting modified. Fails when no
    /// setting has that variable.
    pub fn set_var(&mut self, var: &str, value: Option<String>) -> (r: Result<(), String>)
        ensures
            ({
                let k = setting_index(old(self).settings@, var@);
                if k == old(self).settings@.len() {
                    &&& *final(self) == *old(self)
                    &&& r matches Err(e) && e@ == "unknown variable: "@ + var@
                } else {
                    &&& r is Ok
                    &&& final(self).settings@.len() == old(self).settings@.len()
                    &&& forall|j: int|
                        0 <= j < old(self).settings@.len() && j != k
                            ==> #[trigger] final(self).settings@[j] == old(self).settings@[j]
                    &&& reads_env(old(self).settings@[k], final(self).settings@[k], opt_view(value))
                    &&& final(self).settings@[k].modified
                    &&& final(self).list_state == old(self).list_state
                    &&& final(self).message == old(self).message
                    &&& same_ui(*old(self), *final(self))
                }
            }),
            match assign_var(models(old(self).settings@), var@, opt_view(value)) {
                Some(ms) => {
                    &&& r is Ok
                    &&& models(final(self).settings@) == ms
                    &&& final(self).list_state == old(self).list_state
                    &&& final(self).message == old(self).message
                    &&& same_ui(*old(self), *final(self))
                },
                None => {
                    &&& r matches Err(e) && e@ == "unknown variable: "@ + var@
                    &&& *final(self) == *old(self)
                },
            },
    {
        let n = self.settings.len();
        let mut i: usize = 0;
        while i < n
            invariant
                i <= n,
                n == self.settings@.len(),
                forall|j: int| 0 <= j < i ==> (#[trigger] self.settings@[j]).env_var@ != var@,
                *self == *old(self),
            decreases n - i,
        {
            if str_eq(self.settings[i].env_var, var) {
                proof {
                    lemma_setting_index_unique(self.settings@, var@, i as int);
                    lemma_model_index_unique(models(self.settings@), var@, i as int);
                }
                let ghost before = self.settings@;
                self.settings[i].apply_env_value(value);
                self.settings[i].modified = true;
                assert(models(self.settings@) =~= models(before).update(
                    i as int,
                    assigned(models(before)[i as int], opt_view(value)),
                ));
                return Ok(());
            }
            i += 1;
        }
        proof {
            lemma_setting_index_unique(self.settings@, var@, n as int);
            lemma_model_index_unique(models(self.settings@), var@, n as int);
        }
        let mut msg: Vec<char> = Vec::new();
        push_str(&mut msg, "unknown variable: ");
        push_str(&mut msg, var);
        Err(from_chars(&msg))
    }

    /// The profiles considered for the shell named by `shell` under `home`,
    /// preferred first (see `candidates_spec`).
    pub fn profile_candidates(home: &str, shell: &str) -> (r: Vec<String>)
        ensures
            strings_view(r@) == candidates_spec(home@, shell@),
    {
        let sh = chars_of(shell);
        let h = chars_of(home);
        let zsh = chars_of("zsh");
        let fish = chars_of("fish");
        let mut r: Vec<String> = Vec::new();
        if contains_chars(&sh, &zsh) {
            r.push(from_chars(&join_path(&h, ".zshrc")));
            r.push(from_chars(&join_path(&h, ".zprofile")));
        } else if contains_chars(&sh, &fish) {
            let a = join_path(&h, ".config");
            let b = join_path(&a, "fish");
            r.push(from_chars(&join_path(&b, "config.fish")));
        } else {
            r.push(from_chars(&join_path(&h, ".bashrc")));
            r.push(from_chars(&join_path(&h, ".bash_profile")));
            r.push(from_chars(&join_path(&h, ".profile")));
        }
        assert(strings_view(r@) =~= candidates_spec(home@, shell@));
        r
    }

    /// A fresh state read from `env_values` (as `App::new`), writing to
    /// `profile` when given and otherwise to the candidate that
    /// `pick_profile` picks, cycling among `candidates`, with the palette
    /// named in `config` (the default one when it names none).
    pub fn with_profile<F: Fn(&String) -> bool, G: Fn(&String) -> bool>(
        env_values: &Vec<Option<String>>,
        profile: Option<String>,
        candidates: Vec<String>,
        has_block: F,
        file_exists: G,
        config: &AppConfig,
    ) -> (app: App)
        requires
            profile is Some || candidates@.len() > 0,
            forall|p: &String| has_block.requires((p,)),
            forall|p: &String| file_exists.requires((p,)),
        ensures
            fresh_state(app, env_values@),
            app.profile_candidates@ == candidates@,
            app.theme_index == theme_choice(config.theme),
            match profile {
                Some(p) => app.shell_profile == p,
                None => exists|hb: Seq<bool>, ex: Seq<bool>|
                    #![trigger reports(has_block, candidates@, hb), reports(file_exists, candidates@, ex)]
                    reports(has_block, candidates@, hb) && reports(file_exists, candidates@, ex)
                        && app.shell_profile@ == candidates@[pick_spec(hb, ex)]@,
            },
    {
        let shell_profile = match profile {
            Some(p) => p,
            None => pick_profile(&candidates, has_block, file_exists),
        };
        let mut app = App::new(env_values, shell_profile);
        app.profile_candidates = candidates;
        app.theme_index = match &config.theme {
            Some(name) => match index_of(name.as_str()) {
                Some(i) => i,
                None => 0,
            },
            None => 0,
        };
        app
    }

    /// Writes to the next candidate profile, wrapping around; to the first
    /// one when the current profile is none of them. Nothing changes without
    /// candidates.
    pub fn cycle_profile(&mut self)
        ensures
            profile_cycled(*old(self), *final(self)),
    {
        let n = self.profile_candidates.len();
        if n == 0 {
            return ;
        }
        let ghost cands = strings_view(self.profile_candidates@);
        let mut i: usize = 0;
        while i < n
            invariant
                i <= n,
                n == self.profile_candidates@.len(),
                cands == strings_view(self.profile_candidates@),
                *self == *old(self),
                forall|j: int| 0 <= j < i ==> cands[j] != self.shell_profile@,
            decreases n - i,
        {
            if str_eq(self.profile_candidates[i].as_str(), self.shell_profile.as_str()) {
                proof {
                    lemma_index_in(cands, self.shell_profile@, i as int);
                    lemma_next_prev_inverse(i as int, n as int);
                }
                let next = self.profile_candidates[(i + 1) % n].clone();
                self.shell_profile = next;
                return ;
            }
            i += 1;
        }
        proof {
            lemma_index_in(cands, self.shell_profile@, n as int);
        }
        let first = self.profile_candidates[0].clone();
        self.shell_profile = first;
    }

    /// The active palette.
    pub fn theme(&self) -> (r: Theme)
        ensures
            r == theme_table()[theme_slot(self.theme_index)],
    {
        let all = themes();
        if self.theme_index < all.len() {
            all[self.theme_index]
        } else {
            all[0]
        }
    }

    /// Switches to the next palette, wrapping around.
    pub fn cycle_theme(&mut self)
        ensures
            theme_cycled(*old(self), *final(self)),
    {
        let n = themes().len();
        let cur = if self.theme_index < n {
            self.theme_index
        } else {
            0
        };
        self.theme_index = (cur + 1) % n;
    }

} // impl App


/// Toggling a boolean setting twice restores its feature state.
pub proof fn lemma_toggle_twice(a: App, b: App, c: App)
    requires
        a.selected < a.settings@.len(),
        toggle_post(a, b),
        toggle_post(b, c),
    ensures
        c.settings@.len() == a.settings@.len(),
        c.settings@[a.selected as int].bool_val == a.settings@[a.selected as int].bool_val,
        forall|j: int|
            0 <= j < a.settings@.len() && j != a.selected ==> #[trigger] c.settings@[j]
                == a.settings@[j],
{
}

/// Opening the editor and confirming it untouched leaves the setting as it
/// was, value and modified flag alike, for a number setting and for a string
/// setting without surrounding whitespace.
pub proof fn lemma_edit_round_trip(a: App, b: App, c: App)
    requires
        a.selected < a.settings@.len(),
        a.settings@[a.selected as int].kind != (SettingKind::Bool { inverted: true }),
        a.settings@[a.selected as int].kind != (SettingKind::Bool { inverted: false }),
        a.settings@[a.selected as int].kind == SettingKind::Str ==> trim_ws(
            a.settings@[a.selected as int].str_val@,
        ) == a.settings@[a.selected as int].str_val@,
        start_editing_post(a, b),
        confirm_edit_post(b, c),
    ensures
        c.settings@.len() == a.settings@.len(),
        c.mode == Mode::Normal,
        same_entry(a.settings@[a.selected as int], c.settings@[a.selected as int]),
        c.settings@[a.selected as int].str_val@ == a.settings@[a.selected as int].str_val@,
        c.settings@[a.selected as int].num_val == a.settings@[a.selected as int].num_val,
        c.settings@[a.selected as int].bool_val == a.settings@[a.selected as int].bool_val,
        c.settings@[a.selected as int].modified == a.settings@[a.selected as int].modified,
{
    let s = a.settings@[a.selected as int];
    if s.kind == SettingKind::Num {
        match s.num_val {
            Some(n) => {
                lemma_parse_decimal(n);
            },
            None => {
                assert(trim_ws(Seq::<char>::empty()) == Seq::<char>::empty());
            },
        }
    }
}

/// Moving the selection, up or down, lands on a listed setting whenever
/// the filter lists any.
pub proof fn lemma_moves_stay_listed(a: App, b: App, c: App)
    requires
        a.settings@.len() <= usize::MAX,
        visible_spec(a.settings@, a.filter@).len() > 0,
        select_next_post(a, b),
        select_prev_post(a, c),
    ensures
        b.selected < b.settings@.len(),
        matches_filter(b.settings@[b.selected as int], b.filter@),
        c.selected < c.settings@.len(),
        matches_filter(c.settings@[c.selected as int], c.filter@),
{
    let vis = visible_spec(a.settings@, a.filter@);
    lemma_visible_upto(a.settings@, a.filter@, a.settings@.len() as int);
    lemma_position(vis, a.selected);
    let p = position(vis, a.selected);
    if p < vis.len() {
        lemma_next_prev_inverse(p, vis.len() as int);
    }
    let nb = next_listed(vis, a.selected);
    let nc = prev_listed(vis, a.selected);
    assert(vis.contains(nb));
    assert(vis.contains(nc));
}

/// Moving down then up returns to the selected setting, when the filter
/// lists it.
pub proof fn lemma_next_then_prev(a: App, b: App, c: App)
    requires
        a.settings@.len() <= usize::MAX,
        visible_spec(a.settings@, a.filter@).contains(a.selected),
        select_next_post(a, b),
        select_prev_post(b, c),
    ensures
        c.selected == a.selected,
{
    let vis = visible_spec(a.settings@, a.filter@);
    lemma_visible_upto(a.settings@, a.filter@, a.settings@.len() as int);
    lemma_position(vis, a.selected);
    let p = position(vis, a.selected);
    lemma_next_prev_inverse(p, vis.len() as int);
    let q = next_index(p, vis.len() as int);
    lemma_position_at(vis, q);
    lemma_position_at(vis, p);
}

/// After the filter text changes, the selection is a listed setting
/// whenever the filter lists any.
pub proof fn lemma_filter_selects_listed(a: App, b: App, f: Seq<char>)
    requires
        a.settings@.len() <= usize::MAX,
        visible_spec(a.settings@, f).len() > 0,
        filtered(a, b, f),
    ensures
        b.selected < b.settings@.len(),
        matches_filter(b.settings@[b.selected as int], b.filter@),
        b.list_state is Some,
{
    let vis = visible_spec(a.settings@, f);
    lemma_visible_upto(a.settings@, f, a.settings@.len() as int);
    lemma_position(vis, b.selected);
    assert(vis.contains(b.selected)) by {
        if !vis.contains(a.selected) {
            assert(vis[0] == b.selected);
        }
    }
}

/// The picked profile holds the managed block whenever some candidate
/// does, and otherwise exists whenever some candidate does.
pub proof fn lemma_pick_prefers(has_block: Seq<bool>, present: Seq<bool>)
    requires
        has_block.len() == present.len(),
        has_block.len() > 0,
    ensures
        0 <= pick_spec(has_block, present) < has_block.len(),
        has_block.contains(true) ==> has_block[pick_spec(has_block, present)],
        !has_block.contains(true) && present.contains(true) ==> present[pick_spec(
            has_block,
            present,
        )],
        !has_block.contains(true) && !present.contains(true) ==> pick_spec(has_block, present)
            == 0,
{
    lemma_first_true_found(has_block);
    lemma_first_true_found(present);
}

proof fn lemma_first_true_found(v: Seq<bool>)
    ensures
        first_true(v) matches Some(i) ==> 0 <= i < v.len() && v[i],
        first_true(v) is None <==> !v.contains(true),
    decreases v.len(),
{
    if v.len() > 0 && !v[0] {
        lemma_first_true_found(v.drop_first());
        if v.contains(true) {
            let j = choose|j: int| 0 <= j < v.len() && v[j] == true;
            assert(v.drop_first()[j - 1] == true);
        }
        if v.drop_first().contains(true) {
            let j = choose|j: int| 0 <= j < v.drop_first().len() && v.drop_first()[j] == true;
            assert(v[j + 1] == true);
        }
    } else if v.len() > 0 {
        assert(v[0] == true);
    }
}

/// Cycling the profile always writes to one of the candidates.
pub proof fn lemma_cycled_profile_is_candidate(a: App, b: App)
    requires
        a.profile_candidates@.len() > 0,
        profile_cycled(a, b),
    ensures
        strings_view(a.profile_candidates@).contains(b.shell_profile@),
{
    let cands = strings_view(a.profile_candidates@);
    match index_in(cands, a.shell_profile@) {
        Some(i) => {
            lemma_index_in_bound(cands, a.shell_profile@);
            lemma_next_prev_inverse(i, cands.len() as int);
            assert(cands[next_index(i, cands.len() as int)] == b.shell_profile@);
        },
        None => {
            assert(cands[0] == b.shell_profile@);
        },
    }
}

/// Cycling the palette always lands on a palette: the one after the
/// current one, wrapping around.
pub proof fn lemma_theme_cycle(a: App, b: App)
    requires
        theme_cycled(a, b),
    ensures
        b.theme_index < theme_table().len(),
        theme_slot(b.theme_index) == next_index(theme_slot(a.theme_index), theme_table().len() as int),
{
    lemma_next_prev_inverse(theme_slot(a.theme_index), theme_table().len() as int);
}

/// Confirming an empty (or all-whitespace) edit text on a number setting
/// returns it to the Homebrew default (`None`), whatever it held before; it
/// is marked modified when it held a number (or already was), and the
/// editor closes.
pub proof fn lemma_confirm_empty_number(a: App, b: App)
    requires
        a.selected < a.settings@.len(),
        a.settings@[a.selected as int].kind == SettingKind::Num,
        trim_ws(a.input@).len() == 0,
        confirm_edit_post(a, b),
    ensures
        b.settings@[a.selected as int].num_val is None,
        b.settings@[a.selected as int].modified == (a.settings@[a.selected as int].modified
            || a.settings@[a.selected as int].num_val is Some),
        b.mode == Mode::Normal,
        b.settings@.len() == a.settings@.len(),
{
}

} // verus!
