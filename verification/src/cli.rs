//! Command-line arguments: what they ask for, and whether the interactive
//! interface is skipped.
use vstd::prelude::*;

use crate::text::{
    chars_of, from_chars, has_prefix, has_prefix_chars, index_of_char, index_of_char_from,
    lemma_index_of_char, push_str, slice_chars, str_eq,
};

verus! {

/// The parsed command line.
pub struct Cli {
    /// `--profile`: the profile to write instead of the detected one.
    pub profile: Option<String>,
    /// `--set VAR=VALUE`, in order.
    pub sets: Vec<(String, String)>,
    /// `--unset VAR`, in order.
    pub unsets: Vec<String>,
    pub import_preset: Option<String>,
    pub export_preset: Option<String>,
    pub apply: bool,
    pub dry_run: bool,
    pub list: bool,
    pub json: bool,
    /// `--theme`: the palette to use, by name.
    pub theme: Option<String>,
    /// `--list-themes`: print the palette names.
    pub list_themes: bool,
    /// `--brew-env`: print Homebrew's own view of its variables.
    pub brew_env: bool,
}

impl Default for Cli {
    fn default() -> (r: Self)
        ensures
            r.profile is None,
            r.sets@.len() == 0,
            r.unsets@.len() == 0,
            r.import_preset is None,
            r.export_preset is None,
            !r.apply,
            !r.dry_run,
            !r.list,
            !r.json,
            r.theme is None,
            !r.list_themes,
            !r.brew_env,
    {
        Cli {
            profile: None,
            sets: Vec::new(),
            unsets: Vec::new(),
            import_preset: None,
            export_preset: None,
            apply: false,
            dry_run: false,
            list: false,
            json: false,
            theme: None,
            list_themes: false,
            brew_env: false,
        }
    }
}

impl Cli {
    /// Whether a non-interactive flag is present, so that the interface is
    /// skipped. A profile or a palette alone still launches the interface.
    pub fn is_batch(&self) -> (r: bool)
        ensures
            r == (self.sets@.len() > 0 || self.unsets@.len() > 0 || self.import_preset is Some
                || self.export_preset is Some || self.apply || self.dry_run || self.list
                || self.json || self.list_themes || self.brew_env),
    {
        !self.sets.is_empty() || !self.unsets.is_empty() || self.import_preset.is_some()
            || self.export_preset.is_some() || self.apply || self.dry_run || self.list || self.json
            || self.list_themes || self.brew_env
    }

    /// Whether a non-interactive run writes the profile: `--apply` asks for
    /// it, and `--dry-run` only prints the block, never writing.
    pub fn writes_profile(&self) -> (r: bool)
        ensures
            r == (self.apply && !self.dry_run),
    {
        self.apply && !self.dry_run
    }
}

/// `VAR=VALUE` split at its first `=`, when the name is not empty.
pub open spec fn parse_kv_spec(s: Seq<char>) -> Option<(Seq<char>, Seq<char>)> {
    let k = index_of_char(s, '=');
    if 0 < k < s.len() {
        Some((s.take(k), s.skip(k + 1)))
    } else {
        None
    }
}

/// Splits `VAR=VALUE` at its first `=`; `None` without `=` or with an
/// empty name. The value may be empty or hold more `=`.
pub fn parse_kv(s: &str) -> (r: Option<(String, String)>)
    ensures
        match parse_kv_spec(s@) {
            Some((k, v)) => r matches Some((rk, rv)) && rk@ == k && rv@ == v,
            None => r is None,
        },
{
    let v = chars_of(s);
    let k = index_of_char_from(&v, '=', 0);
    assert(v@.skip(0) == v@);
    proof {
        lemma_index_of_char(v@, '=');
    }
    if k > 0 && k < v.len() {
        let key = slice_chars(&v, 0, k);
        let val = slice_chars(&v, k + 1, v.len());
        assert(key@ == v@.take(k as int));
        assert(val@ == v@.skip(k + 1));
        Some((from_chars(&key), from_chars(&val)))
    } else {
        None
    }
}

/// Splitting `key=value` gives back the name and the value, whenever the
/// name is not empty and holds no `=`.
pub proof fn lemma_parse_kv_round_trip(key: Seq<char>, value: Seq<char>)
    requires
        key.len() > 0,
        forall|i: int| 0 <= i < key.len() ==> key[i] != '=',
    ensures
        parse_kv_spec(key + seq!['='] + value) == Some((key, value)),
{
    let s = key + seq!['='] + value;
    crate::text::lemma_index_of_char_unique(s, '=', key.len() as int);
    assert(s.take(key.len() as int) == key);
    assert(s.skip(key.len() + 1int) == value);
}

// ---------------------------------------------------------------------------
// Parsing the whole command line
// ---------------------------------------------------------------------------

/// The content of a `Cli`.
pub struct CliModel {
    pub profile: Option<Seq<char>>,
    pub sets: Seq<(Seq<char>, Seq<char>)>,
    pub unsets: Seq<Seq<char>>,
    pub import_preset: Option<Seq<char>>,
    pub export_preset: Option<Seq<char>>,
    pub apply: bool,
    pub dry_run: bool,
    pub list: bool,
    pub json: bool,
    pub theme: Option<Seq<char>>,
    pub list_themes: bool,
    pub brew_env: bool,
}

/// What the command line asks for.
pub enum ArgAction {
    /// Run with these options.
    Run(Cli),
    /// Print the help text and exit successfully.
    ShowHelp,
    /// Print the version and exit successfully.
    ShowVersion,
    /// Report this error and exit with a usage failure.
    Fail(String),
}

/// The content of an `ArgAction`.
pub enum ArgOutcome {
    Run(CliModel),
    ShowHelp,
    ShowVersion,
    Fail(Seq<char>),
}

/// The optional string's characters.
pub open spec fn opt_chars(o: Option<String>) -> Option<Seq<char>> {
    match o {
        Some(s) => Some(s@),
        None => None,
    }
}

/// The content of `c`.
pub open spec fn cli_model(c: Cli) -> CliModel {
    CliModel {
        profile: opt_chars(c.profile),
        sets: c.sets@.map_values(|p: (String, String)| (p.0@, p.1@)),
        unsets: c.unsets@.map_values(|s: String| s@),
        import_preset: opt_chars(c.import_preset),
        export_preset: opt_chars(c.export_preset),
        apply: c.apply,
        dry_run: c.dry_run,
        list: c.list,
        json: c.json,
        theme: opt_chars(c.theme),
        list_themes: c.list_themes,
        brew_env: c.brew_env,
    }
}

/// The content of `a`.
pub open spec fn outcome_of(a: ArgAction) -> ArgOutcome {
    match a {
        ArgAction::Run(c) => ArgOutcome::Run(cli_model(c)),
        ArgAction::ShowHelp => ArgOutcome::ShowHelp,
        ArgAction::ShowVersion => ArgOutcome::ShowVersion,
        ArgAction::Fail(m) => ArgOutcome::Fail(m@),
    }
}

/// The options of an empty command line.
pub open spec fn empty_cli() -> CliModel {
    CliModel {
        profile: None,
        sets: Seq::empty(),
        unsets: Seq::empty(),
        import_preset: None,
        export_preset: None,
        apply: false,
        dry_run: false,
        list: false,
        json: false,
        theme: None,
        list_themes: false,
        brew_env: false,
    }
}

/// `text` between single quotes after `before`, then `after`.
pub open spec fn quoted(before: Seq<char>, text: Seq<char>, after: Seq<char>) -> Seq<char> {
    before + text + after
}

/// What the arguments from index `i` on ask for, given the options `c`
/// gathered so far. Help and version win at once; an option that needs a
/// value takes the next argument; `--opt=value` forms are accepted too;
/// anything else is an error.
pub open spec fn parse_from(args: Seq<Seq<char>>, i: int, c: CliModel) -> ArgOutcome
    decreases args.len() - i,
{
    if i < 0 || i >= args.len() {
        ArgOutcome::Run(c)
    } else {
        let a = args[i];
        let has_next = i + 1 < args.len();
        if a == "-h"@ || a == "--help"@ {
            ArgOutcome::ShowHelp
        } else if a == "-V"@ || a == "--version"@ {
            ArgOutcome::ShowVersion
        } else if a == "-p"@ || a == "--profile"@ {
            if has_next {
                parse_from(args, i + 2, CliModel { profile: Some(args[i + 1]), ..c })
            } else {
                ArgOutcome::Fail("--profile requires a path argument"@)
            }
        } else if a == "--set"@ {
            if has_next {
                match parse_kv_spec(args[i + 1]) {
                    Some(p) => parse_from(args, i + 2, CliModel { sets: c.sets.push(p), ..c }),
                    None => ArgOutcome::Fail(
                        quoted("--set expects VAR=VALUE, got '"@, args[i + 1], "'"@),
                    ),
                }
            } else {
                ArgOutcome::Fail("--set requires VAR=VALUE"@)
            }
        } else if a == "--unset"@ {
            if has_next {
                parse_from(args, i + 2, CliModel { unsets: c.unsets.push(args[i + 1]), ..c })
            } else {
                ArgOutcome::Fail("--unset requires a variable name"@)
            }
        } else if a == "--import-preset"@ {
            if has_next {
                parse_from(args, i + 2, CliModel { import_preset: Some(args[i + 1]), ..c })
            } else {
                ArgOutcome::Fail("--import-preset requires a path"@)
            }
        } else if a == "--export-preset"@ {
            if has_next {
                parse_from(args, i + 2, CliModel { export_preset: Some(args[i + 1]), ..c })
            } else {
                ArgOutcome::Fail("--export-preset requires a path"@)
            }
        } else if a == "--apply"@ {
            parse_from(args, i + 1, CliModel { apply: true, ..c })
        } else if a == "--dry-run"@ {
            parse_from(args, i + 1, CliModel { dry_run: true, ..c })
        } else if a == "--list"@ {
            parse_from(args, i + 1, CliModel { list: true, ..c })
        } else if a == "--json"@ {
            parse_from(args, i + 1, CliModel { json: true, ..c })
        } else if a == "--theme"@ {
            if has_next {
                parse_from(args, i + 2, CliModel { theme: Some(args[i + 1]), ..c })
            } else {
                ArgOutcome::Fail("--theme requires a theme name"@)
            }
        } else if a == "--list-themes"@ {
            parse_from(args, i + 1, CliModel { list_themes: true, ..c })
        } else if a == "--brew-env"@ {
            parse_from(args, i + 1, CliModel { brew_env: true, ..c })
        } else if has_prefix(a, "--profile="@) {
            parse_from(
                args,
                i + 1,
                CliModel { profile: Some(a.skip("--profile="@.len() as int)), ..c },
            )
        } else if has_prefix(a, "--set="@) {
            let rest = a.skip("--set="@.len() as int);
            match parse_kv_spec(rest) {
                Some(p) => parse_from(args, i + 1, CliModel { sets: c.sets.push(p), ..c }),
                None => ArgOutcome::Fail(quoted("--set expects VAR=VALUE, got '"@, rest, "'"@)),
            }
        } else if has_prefix(a, "--unset="@) {
            parse_from(
                args,
                i + 1,
                CliModel { unsets: c.unsets.push(a.skip("--unset="@.len() as int)), ..c },
            )
        } else if has_prefix(a, "--import-preset="@) {
            parse_from(
                args,
                i + 1,
                CliModel { import_preset: Some(a.skip("--import-preset="@.len() as int)), ..c },
            )
        } else if has_prefix(a, "--export-preset="@) {
            parse_from(
                args,
                i + 1,
                CliModel { export_preset: Some(a.skip("--export-preset="@.len() as int)), ..c },
            )
        } else if has_prefix(a, "--theme="@) {
            parse_from(
                args,
                i + 1,
                CliModel { theme: Some(a.skip("--theme="@.len() as int)), ..c },
            )
        } else {
            ArgOutcome::Fail(quoted("unknown argument '"@, a, "'. Try --help."@))
        }
    }
}

/// The characters of each argument.
pub open spec fn args_view(args: Seq<String>) -> Seq<Seq<char>> {
    args.map_values(|s: String| s@)
}

/// `before`, then `text`, then `after`.
fn message3(before: &str, text: &Vec<char>, after: &str) -> (r: String)
    ensures
        r@ == quoted(before@, text@, after@),
{
    let mut v: Vec<char> = Vec::new();
    push_str(&mut v, before);
    let mut t = text.clone();
    v.append(&mut t);
    push_str(&mut v, after);
    from_chars(&v)
}

/// If `arg` starts with `prefix`, what follows it.
fn strip_prefix_str(arg: &str, prefix: &str) -> (r: Option<Vec<char>>)
    ensures
        has_prefix(arg@, prefix@) ==> (r matches Some(v) && v@ == arg@.skip(prefix@.len() as int)),
        !has_prefix(arg@, prefix@) ==> r is None,
{
    let a = chars_of(arg);
    let p = chars_of(prefix);
    if has_prefix_chars(&a, &p) {
        Some(slice_chars(&a, p.len(), a.len()))
    } else {
        None
    }
}

/// Parses the command-line arguments (the program name excluded).
pub fn parse_args(args: &Vec<String>) -> (r: ArgAction)
    ensures
        outcome_of(r) == parse_from(args_view(args@), 0, empty_cli()),
{
    let ghost av = args_view(args@);
    let mut cli = Cli::default();
    assert(cli_model(cli) == empty_cli()) by {
        assert(cli_model(cli).sets =~= Seq::<(Seq<char>, Seq<char>)>::empty());
        assert(cli_model(cli).unsets =~= Seq::<Seq<char>>::empty());
    }
    let n = args.len();
    let mut i: usize = 0;
    while i < n
        invariant
            i <= n,
            n == args@.len(),
            av == args_view(args@),
            parse_from(av, 0, empty_cli()) == parse_from(av, i as int, cli_model(cli)),
        decreases n - i,
    {
        let arg = args[i].as_str();
        let ghost c0 = cli_model(cli);
        assert(av[i as int] == arg@);
        let has_next = i + 1 < n;
        if str_eq(arg, "-h") || str_eq(arg, "--help") {
            return ArgAction::ShowHelp;
        } else if str_eq(arg, "-V") || str_eq(arg, "--version") {
            return ArgAction::ShowVersion;
        } else if str_eq(arg, "-p") || str_eq(arg, "--profile") {
            if has_next {
                cli.profile = Some(args[i + 1].clone());
                assert(cli_model(cli) == CliModel { profile: Some(av[i + 1]), ..c0 });
                i += 2;
            } else {
                return ArgAction::Fail("--profile requires a path argument".to_owned());
            }
        } else if str_eq(arg, "--set") {
            if has_next {
                let kv = args[i + 1].as_str();
                match parse_kv(kv) {
                    Some(pair) => {
                        cli.sets.push(pair);
                        assert(cli_model(cli).sets =~= c0.sets.push(
                            parse_kv_spec(av[i + 1]).unwrap(),
                        ));
                        i += 2;
                    },
                    None => {
                        let kvc = chars_of(kv);
                        return ArgAction::Fail(message3("--set expects VAR=VALUE, got '", &kvc, "'"));
                    },
                }
            } else {
                return ArgAction::Fail("--set requires VAR=VALUE".to_owned());
            }
        } else if str_eq(arg, "--unset") {
            if has_next {
                cli.unsets.push(args[i + 1].clone());
                assert(cli_model(cli).unsets =~= c0.unsets.push(av[i + 1]));
                i += 2;
            } else {
                return ArgAction::Fail("--unset requires a variable name".to_owned());
            }
        } else if str_eq(arg, "--import-preset") {
            if has_next {
                cli.import_preset = Some(args[i + 1].clone());
                i += 2;
            } else {
                return ArgAction::Fail("--import-preset requires a path".to_owned());
            }
        } else if str_eq(arg, "--export-preset") {
            if has_next {
                cli.export_preset = Some(args[i + 1].clone());
                i += 2;
            } else {
                return ArgAction::Fail("--export-preset requires a path".to_owned());
            }
        } else if str_eq(arg, "--apply") {
            cli.apply = true;
            i += 1;
        } else if str_eq(arg, "--dry-run") {
            cli.dry_run = true;
            i += 1;
        } else if str_eq(arg, "--list") {
            cli.list = true;
            i += 1;
        } else if str_eq(arg, "--json") {
            cli.json = true;
            i += 1;
        } else if str_eq(arg, "--theme") {
            if has_next {
                cli.theme = Some(args[i + 1].clone());
                i += 2;
            } else {
                return ArgAction::Fail("--theme requires a theme name".to_owned());
            }
        } else if str_eq(arg, "--list-themes") {
            cli.list_themes = true;
            i += 1;
        } else if str_eq(arg, "--brew-env") {
            cli.brew_env = true;
            i += 1;
        } else if let Some(rest) = strip_prefix_str(arg, "--profile=") {
            cli.profile = Some(from_chars(&rest));
            i += 1;
        } else if let Some(rest) = strip_prefix_str(arg, "--set=") {
            let rest_s = from_chars(&rest);
            match parse_kv(rest_s.as_str()) {
                Some(pair) => {
                    cli.sets.push(pair);
                    assert(cli_model(cli).sets =~= c0.sets.push(parse_kv_spec(rest@).unwrap()));
                    i += 1;
                },
                None => {
                    return ArgAction::Fail(message3("--set expects VAR=VALUE, got '", &rest, "'"));
                },
            }
        } else if let Some(rest) = strip_prefix_str(arg, "--unset=") {
            let rest_s = from_chars(&rest);
            cli.unsets.push(rest_s);
            assert(cli_model(cli).unsets =~= c0.unsets.push(rest@));
            i += 1;
        } else if let Some(rest) = strip_prefix_str(arg, "--import-preset=") {
            cli.import_preset = Some(from_chars(&rest));
            i += 1;
        } else if let Some(rest) = strip_prefix_str(arg, "--export-preset=") {
            cli.export_preset = Some(from_chars(&rest));
            i += 1;
        } else if let Some(rest) = strip_prefix_str(arg, "--theme=") {
            cli.theme = Some(from_chars(&rest));
            i += 1;
        } else {
            let ac = chars_of(arg);
            return ArgAction::Fail(message3("unknown argument '", &ac, "'. Try --help."));
        }
    }
    ArgAction::Run(cli)
}

/// An option that takes a value consumes the argument after it, whatever
/// that argument says: `--theme v`, `--profile v` (or `-p v`), `--unset v`,
/// `--import-preset v` and `--export-preset v` alone on the command line
/// run with just that option set to `v`.
pub proof fn lemma_value_options(v: Seq<char>)
    ensures
        parse_from(seq!["--theme"@, v], 0, empty_cli()) == ArgOutcome::Run(
            CliModel { theme: Some(v), ..empty_cli() },
        ),
        parse_from(seq!["--profile"@, v], 0, empty_cli()) == ArgOutcome::Run(
            CliModel { profile: Some(v), ..empty_cli() },
        ),
        parse_from(seq!["-p"@, v], 0, empty_cli()) == ArgOutcome::Run(
            CliModel { profile: Some(v), ..empty_cli() },
        ),
        parse_from(seq!["--unset"@, v], 0, empty_cli()) == ArgOutcome::Run(
            CliModel { unsets: seq![v], ..empty_cli() },
        ),
        parse_from(seq!["--import-preset"@, v], 0, empty_cli()) == ArgOutcome::Run(
            CliModel { import_preset: Some(v), ..empty_cli() },
        ),
        parse_from(seq!["--export-preset"@, v], 0, empty_cli()) == ArgOutcome::Run(
            CliModel { export_preset: Some(v), ..empty_cli() },
        ),
{
    reveal_strlit("-h");
    reveal_strlit("--help");
    reveal_strlit("-V");
    reveal_strlit("--version");
    reveal_strlit("-p");
    reveal_strlit("--profile");
    reveal_strlit("--set");
    reveal_strlit("--unset");
    reveal_strlit("--import-preset");
    reveal_strlit("--export-preset");
    reveal_strlit("--apply");
    reveal_strlit("--dry-run");
    reveal_strlit("--list");
    reveal_strlit("--json");
    reveal_strlit("--theme");
    let c = empty_cli();
    let t = "--theme"@;
    assert(t != "--unset"@) by {
        assert(t[2] != "--unset"@[2]);
    }
    assert(t != "--apply"@) by {
        assert(t[2] != "--apply"@[2]);
    }
    assert(parse_from(seq![t, v], 2, CliModel { theme: Some(v), ..c }) == ArgOutcome::Run(
        CliModel { theme: Some(v), ..c },
    ));
    assert("-p"@ != "-h"@) by {
        assert("-p"@[1] != "-h"@[1]);
    }
    assert("-p"@ != "-V"@) by {
        assert("-p"@[1] != "-V"@[1]);
    }
    assert("--profile"@ != "--version"@) by {
        assert("--profile"@[2] != "--version"@[2]);
    }
    assert(parse_from(seq!["--profile"@, v], 2, CliModel { profile: Some(v), ..c })
        == ArgOutcome::Run(CliModel { profile: Some(v), ..c }));
    assert(parse_from(seq!["-p"@, v], 2, CliModel { profile: Some(v), ..c }) == ArgOutcome::Run(
        CliModel { profile: Some(v), ..c },
    ));
    assert("--unset"@ != "--set"@);
    assert(c.unsets.push(v) == seq![v]);
    assert(parse_from(seq!["--unset"@, v], 2, CliModel { unsets: c.unsets.push(v), ..c })
        == ArgOutcome::Run(CliModel { unsets: seq![v], ..c }));
    assert("--import-preset"@ != "--export-preset"@) by {
        assert("--import-preset"@[2] != "--export-preset"@[2]);
    }
    assert(parse_from(
        seq!["--import-preset"@, v],
        2,
        CliModel { import_preset: Some(v), ..c },
    ) == ArgOutcome::Run(CliModel { import_preset: Some(v), ..c }));
    assert(parse_from(
        seq!["--export-preset"@, v],
        2,
        CliModel { export_preset: Some(v), ..c },
    ) == ArgOutcome::Run(CliModel { export_preset: Some(v), ..c }));
}

} // verus!
