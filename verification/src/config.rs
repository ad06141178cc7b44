//! The export block that the configurator owns in a shell profile: how it is
//! generated from the settings and how it replaces an earlier block.
use vstd::prelude::*;

use crate::app::{bool_exported, catalogue, entry_of, exported_raw_spec, App, Setting, SettingKind};
use crate::text::{
    chars_of, decimal, find, find_chars, from_chars, lemma_find_from, occurs_at, push_chars,
    push_str, str_eq, trim_end_char, trim_end_char_chars, u32_to_decimal, contains_seq,
    contains_chars, slice_chars, lemma_find_from_unique,
};

verus! {

/// The first line of the managed block.
pub const BLOCK_START: &'static str = "# homebrewconfig BEGIN";

/// The last line of the managed block.
pub const BLOCK_END: &'static str = "# homebrewconfig END";

// ---------------------------------------------------------------------------
// Escaping
// ---------------------------------------------------------------------------

/// `s` with every `from` replaced by `to` (`str::replace` with a char pattern).
pub open spec fn replace_char(s: Seq<char>, from: char, to: Seq<char>) -> Seq<char>
    decreases s.len(),
{
    if s.len() == 0 {
        Seq::empty()
    } else {
        replace_char(s.drop_last(), from, to) + if s.last() == from {
            to
        } else {
            seq![s.last()]
        }
    }
}

/// `s` safe inside double quotes in a shell: each `\` doubled, then each
/// `"` preceded by `\`.
pub open spec fn escape_spec(s: Seq<char>) -> Seq<char> {
    replace_char(replace_char(s, '\\', seq!['\\', '\\']), '"', seq!['\\', '"'])
}

fn replace_char_chars(v: &Vec<char>, from: char, to: &Vec<char>) -> (r: Vec<char>)
    ensures
        r@ == replace_char(v@, from, to@),
{
    let mut r: Vec<char> = Vec::new();
    let mut i: usize = 0;
    while i < v.len()
        invariant
            i <= v.len(),
            r@ == replace_char(v@.take(i as int), from, to@),
        decreases v.len() - i,
    {
        assert(v@.take(i + 1).drop_last() == v@.take(i as int));
        if v[i] == from {
            push_chars(&mut r, to);
        } else {
            r.push(v[i]);
        }
        i += 1;
    }
    assert(v@.take(v.len() as int) == v@);
    r
}

/// `value` escaped for a double-quoted shell string.
pub fn escape_value(value: &str) -> (r: String)
    ensures
        r@ == escape_spec(value@),
{
    let v = chars_of(value);
    let mut bs: Vec<char> = Vec::new();
    bs.push('\\');
    bs.push('\\');
    let mut q: Vec<char> = Vec::new();
    q.push('\\');
    q.push('"');
    assert(bs@ == seq!['\\', '\\']);
    assert(q@ == seq!['\\', '"']);
    let a = replace_char_chars(&v, '\\', &bs);
    let b = replace_char_chars(&a, '"', &q);
    from_chars(&b)
}

// ---------------------------------------------------------------------------
// Generating the block
// ---------------------------------------------------------------------------

/// The `export` line for `s`, or `None` when `s` is at its Homebrew default.
pub open spec fn export_line(s: Setting) -> Option<Seq<char>> {
    match s.kind {
        SettingKind::Bool { inverted } => if bool_exported(inverted, s.bool_val) {
            Some("export "@ + s.env_var@ + "=1"@)
        } else {
            None
        },
        SettingKind::Str => if s.str_val@.len() == 0 {
            None
        } else {
            Some("export "@ + s.env_var@ + "=\""@ + escape_spec(s.str_val@) + "\""@)
        },
        SettingKind::Num => match s.num_val {
            Some(n) => Some("export "@ + s.env_var@ + "="@ + decimal(n as nat)),
            None => None,
        },
    }
}

/// The category of the last setting of `ss` that has an export line.
pub open spec fn last_exported_category(ss: Seq<Setting>) -> Option<Seq<char>>
    decreases ss.len(),
{
    if ss.len() == 0 {
        None
    } else if export_line(ss.last()) is Some {
        Some(ss.last().category@)
    } else {
        last_exported_category(ss.drop_last())
    }
}

/// The lines of the block between its markers, each preceded by a newline:
/// every export line, with a `# Category` header line before the first
/// export of each run of settings in the same category.
pub open spec fn block_body(ss: Seq<Setting>) -> Seq<char>
    decreases ss.len(),
{
    if ss.len() == 0 {
        Seq::empty()
    } else {
        let prev = block_body(ss.drop_last());
        let s = ss.last();
        match export_line(s) {
            None => prev,
            Some(line) => prev + (if last_exported_category(ss.drop_last()) == Some(s.category@) {
                Seq::empty()
            } else {
                seq!['\n'] + "# "@ + s.category@
            }) + seq!['\n'] + line,
        }
    }
}

/// The managed block for `ss`: the start marker, the body, and the end
/// marker, one per line.
pub open spec fn block_spec(ss: Seq<Setting>) -> Seq<char> {
    BLOCK_START@ + block_body(ss) + seq!['\n'] + BLOCK_END@
}

/// The export line of `s`, as characters.
fn export_line_chars(s: &Setting) -> (r: Option<Vec<char>>)
    ensures
        match export_line(*s) {
            Some(l) => r matches Some(v) && v@ == l,
            None => r is None,
        },
{
    match &s.kind {
        SettingKind::Bool { inverted } => {
            let should_export = if *inverted {
                !s.bool_val
            } else {
                s.bool_val
            };
            if should_export {
                let mut v: Vec<char> = Vec::new();
                push_str(&mut v, "export ");
                push_str(&mut v, s.env_var);
                push_str(&mut v, "=1");
                Some(v)
            } else {
                None
            }
        },
        SettingKind::Str => {
            if s.str_val.as_str().is_empty() {
                None
            } else {
                let mut v: Vec<char> = Vec::new();
                push_str(&mut v, "export ");
                push_str(&mut v, s.env_var);
                push_str(&mut v, "=\"");
                let e = escape_value(s.str_val.as_str());
                push_str(&mut v, e.as_str());
                push_str(&mut v, "\"");
                Some(v)
            }
        },
        SettingKind::Num => match s.num_val {
            Some(n) => {
                let mut v: Vec<char> = Vec::new();
                push_str(&mut v, "export ");
                push_str(&mut v, s.env_var);
                push_str(&mut v, "=");
                let d = u32_to_decimal(n);
                push_chars(&mut v, &d);
                Some(v)
            },
            None => None,
        },
    }
}

/// The managed block for `settings`: only values that differ from the
/// Homebrew defaults are exported, grouped under their category.
pub fn generate_block(settings: &[Setting]) -> (r: String)
    ensures
        r@ == block_spec(settings@),
{
    let mut out = chars_of(BLOCK_START);
    let mut current_category: Option<&str> = None;
    let n = settings.len();
    let mut i: usize = 0;
    while i < n
        invariant
            i <= n,
            n == settings@.len(),
            out@ == BLOCK_START@ + block_body(settings@.take(i as int)),
            match current_category {
                Some(c) => last_exported_category(settings@.take(i as int)) == Some(c@),
                None => last_exported_category(settings@.take(i as int)) is None,
            },
        decreases n - i,
    {
        let ghost prefix = settings@.take(i as int);
        assert(settings@.take(i + 1).drop_last() == prefix);
        assert(settings@.take(i + 1).last() == settings@[i as int]);
        let s = &settings[i];
        match export_line_chars(s) {
            Some(line) => {
                let same = match current_category {
                    Some(c) => str_eq(c, s.category),
                    None => false,
                };
                if !same {
                    out.push('\n');
                    push_str(&mut out, "# ");
                    push_str(&mut out, s.category);
                    current_category = Some(s.category);
                }
                out.push('\n');
                push_chars(&mut out, &line);
                assert(out@ == BLOCK_START@ + block_body(settings@.take(i + 1)));
            },
            None => {},
        }
        i += 1;
    }
    assert(settings@.take(n as int) == settings@);
    out.push('\n');
    push_str(&mut out, BLOCK_END);
    from_chars(&out)
}

/// The block that applying would write, for the confirmation preview.
pub fn preview_block(app: &App) -> (r: String)
    ensures
        r@ == block_spec(app.settings@),
{
    generate_block(app.settings.as_slice())
}

/// Whether a profile's content (`None` when it could not be read) already
/// holds a managed block.
pub fn file_contains_block(content: Option<&str>) -> (r: bool)
    ensures
        r == match content {
            Some(c) => contains_seq(c@, BLOCK_START@),
            None => false,
        },
{
    match content {
        Some(c) => {
            let v = chars_of(c);
            let m = chars_of(BLOCK_START);
            contains_chars(&v, &m)
        },
        None => false,
    }
}


// ---------------------------------------------------------------------------
// Replacing the block in a profile
// ---------------------------------------------------------------------------

/// `s` without one trailing newline, if it ends with one.
pub open spec fn strip_trailing_newline(s: Seq<char>) -> Seq<char> {
    if s.len() > 0 && s.last() == '\n' {
        s.drop_last()
    } else {
        s
    }
}

/// `s` without one leading newline, if it starts with one.
pub open spec fn strip_leading_newline(s: Seq<char>) -> Seq<char> {
    if s.len() > 0 && s[0] == '\n' {
        s.drop_first()
    } else {
        s
    }
}

/// The positions of the first start marker and of the first end marker in
/// `e`, when both occur and the end marker comes after the start marker.
pub open spec fn block_span(e: Seq<char>) -> Option<(int, int)> {
    match (find(e, BLOCK_START@), find(e, BLOCK_END@)) {
        (Some(st), Some(en)) => if en > st {
            Some((st, en))
        } else {
            None
        },
        _ => None,
    }
}

/// The profile `e` with the block `b` in place of its managed block: the
/// text from the start marker to the end marker is replaced, keeping what
/// surrounds it (one newline on each side is absorbed and rewritten);
/// without a managed block, `b` is appended after a blank line.
pub open spec fn replace_block_spec(e: Seq<char>, b: Seq<char>) -> Seq<char> {
    match block_span(e) {
        Some((st, en)) => {
            let head = strip_trailing_newline(e.take(st));
            let tail = strip_leading_newline(e.skip(en + BLOCK_END@.len()));
            (if head.len() > 0 {
                head.push('\n')
            } else {
                Seq::empty()
            }) + b + (if tail.len() > 0 {
                seq!['\n'] + tail
            } else {
                seq!['\n']
            })
        },
        None => (if e.len() > 0 {
            trim_end_char(e, '\n') + seq!['\n', '\n']
        } else {
            Seq::empty()
        }) + b + seq!['\n'],
    }
}

/// `existing` with `block` in place of its managed block, or with `block`
/// appended when it has none.
pub fn replace_block(existing: &str, block: &str) -> (r: String)
    ensures
        r@ == replace_block_spec(existing@, block@),
{
    let e = chars_of(existing);
    let start_m = chars_of(BLOCK_START);
    let end_m = chars_of(BLOCK_END);
    let start = find_chars(&e, &start_m, 0);
    let end = find_chars(&e, &end_m, 0);
    if let (Some(start), Some(end)) = (start, end) {
        if end > start {
            proof {
                lemma_find_from(e@, end_m@, 0);
                assert(occurs_at(e@, end_m@, end as int));
            }
            let elen = e.len();
            let block_end = end + end_m.len();
            let mut tail = slice_chars(&e, block_end, elen);
            if tail.len() > 0 && tail[0] == '\n' {
                tail = slice_chars(&tail, 1, tail.len());
            }
            let mut head = slice_chars(&e, 0, start);
            if head.len() > 0 && head[head.len() - 1] == '\n' {
                head = slice_chars(&head, 0, head.len() - 1);
            }
            let mut result: Vec<char> = Vec::new();
            if head.len() > 0 {
                push_chars(&mut result, &head);
                result.push('\n');
            }
            push_str(&mut result, block);
            if tail.len() > 0 {
                result.push('\n');
                push_chars(&mut result, &tail);
            } else {
                result.push('\n');
            }
            proof {
                let hd = strip_trailing_newline(e@.take(start as int));
                let tl = strip_leading_newline(e@.skip(block_end as int));
                assert(head@ == hd);
                assert(tail@ == tl);
                if hd.len() > 0 {
                    if tl.len() > 0 {
                        assert(result@ == hd.push('\n') + block@ + (seq!['\n'] + tl));
                    } else {
                        assert(result@ == hd.push('\n') + block@ + seq!['\n']);
                    }
                } else {
                    if tl.len() > 0 {
                        assert(result@ == Seq::<char>::empty() + block@ + (seq!['\n'] + tl));
                    } else {
                        assert(result@ == Seq::<char>::empty() + block@ + seq!['\n']);
                    }
                }
            }
            return from_chars(&result);
        }
    }
    let mut result: Vec<char> = Vec::new();
    if e.len() > 0 {
        let trimmed = trim_end_char_chars(&e, '\n');
        push_chars(&mut result, &trimmed);
        result.push('\n');
        result.push('\n');
    }
    push_str(&mut result, block);
    result.push('\n');
    proof {
        if e@.len() > 0 {
            assert(result@ == trim_end_char(e@, '\n') + seq!['\n', '\n'] + block@ + seq!['\n']);
        } else {
            assert(result@ == Seq::<char>::empty() + block@ + seq!['\n']);
        }
    }
    from_chars(&result)
}


// ---------------------------------------------------------------------------
// Planning a write of the profile
// ---------------------------------------------------------------------------

/// What applying the settings to a profile must do.
pub enum ProfileUpdate {
    /// The profile already holds exactly this content: nothing to write.
    Unchanged,
    /// Write `contents`; first save `backup` next to the profile when given.
    Write { backup: Option<String>, contents: String },
}

/// The profile content after applying `ss` to a profile holding `existing`.
pub open spec fn applied_profile(ss: Seq<Setting>, existing: Seq<char>) -> Seq<char> {
    replace_block_spec(existing, block_spec(ss))
}

/// Where the previous content of `profile` is saved before a write: the
/// profile's path with `.bak` appended.
pub fn backup_path(profile: &str) -> (r: String)
    ensures
        r@ == profile@ + ".bak"@,
{
    let mut v = chars_of(profile);
    push_str(&mut v, ".bak");
    from_chars(&v)
}

/// Decides how to apply the settings of `app` to a profile currently holding
/// `existing` (empty when the file does not exist): write the profile with
/// the block replaced, backing up the old content when there was any; or do
/// nothing when the content would not change.
pub fn plan_apply(app: &App, existing: &str) -> (r: ProfileUpdate)
    ensures
        ({
            let updated = applied_profile(app.settings@, existing@);
            if updated == existing@ {
                r is Unchanged
            } else {
                &&& r matches ProfileUpdate::Write { backup, contents }
                &&& contents@ == updated
                &&& if existing@.len() > 0 {
                    backup matches Some(b) && b@ == existing@
                } else {
                    backup is None
                }
            }
        }),
{
    let block = generate_block(app.settings.as_slice());
    let updated = replace_block(existing, block.as_str());
    if str_eq(updated.as_str(), existing) {
        return ProfileUpdate::Unchanged;
    }
    let backup = if !existing.is_empty() {
        Some(existing.to_owned())
    } else {
        None
    };
    ProfileUpdate::Write { backup, contents: updated }
}

// ---------------------------------------------------------------------------
// Laws of the managed block
// ---------------------------------------------------------------------------

/// Whether `s` ends with `p`.
pub open spec fn has_suffix(s: Seq<char>, p: Seq<char>) -> bool {
    p.len() <= s.len() && s.skip(s.len() - p.len()) == p
}

/// `b` is a well-formed managed block: it starts with the start marker, and
/// the first end marker in it is the one at its end.
pub open spec fn is_block(b: Seq<char>) -> bool {
    &&& b.take(BLOCK_START@.len() as int) == BLOCK_START@
    &&& b.len() >= BLOCK_START@.len() + BLOCK_END@.len()
    &&& find(b, BLOCK_END@) == Some(b.len() - BLOCK_END@.len())
}

/// The markers of profile `e` are consistent: either it holds a managed
/// block (an end marker after the first start marker), or neither marker.
pub open spec fn markers_consistent(e: Seq<char>) -> bool {
    ||| block_span(e) is Some
    ||| find(e, BLOCK_START@) is None && find(e, BLOCK_END@) is None
}

/// Neither marker holds a newline, and each starts with `#`.
proof fn lemma_markers()
    ensures
        forall|i: int| 0 <= i < BLOCK_START@.len() ==> BLOCK_START@[i] != '\n',
        forall|i: int| 0 <= i < BLOCK_END@.len() ==> BLOCK_END@[i] != '\n',
        BLOCK_START@.len() == 22,
        BLOCK_END@.len() == 20,
{
    reveal_strlit("# homebrewconfig BEGIN");
    reveal_strlit("# homebrewconfig END");
}

/// A pattern without newlines that does not occur in `z` does not occur at
/// any index before the end of `z + "\n"` in `z + "\n" + y`.
proof fn lemma_no_occ_before_newline(z: Seq<char>, y: Seq<char>, p: Seq<char>)
    requires
        p.len() > 0,
        forall|i: int| 0 <= i < p.len() ==> p[i] != '\n',
        forall|j: int| 0 <= j ==> !#[trigger] occurs_at(z, p, j),
    ensures
        forall|j: int| 0 <= j <= z.len() ==> !#[trigger] occurs_at(z.push('\n') + y, p, j),
{
    let r = z.push('\n') + y;
    assert forall|j: int| 0 <= j <= z.len() implies !#[trigger] occurs_at(r, p, j) by {
        if occurs_at(r, p, j) {
            if j + p.len() <= z.len() {
                assert(r.subrange(j, j + p.len()) == z.subrange(j, j + p.len()));
                assert(occurs_at(z, p, j));
            } else {
                let k = z.len() - j;
                assert(r[z.len() as int] == '\n');
                assert(r.subrange(j, j + p.len())[k] == r[z.len() as int]);
                assert(p[k] == '\n');
            }
        }
    }
}

/// A pattern without newlines that does not occur in `z` does not occur in
/// `z + "\n"` either.
proof fn lemma_no_occ_push_newline(z: Seq<char>, p: Seq<char>)
    requires
        p.len() > 0,
        forall|i: int| 0 <= i < p.len() ==> p[i] != '\n',
        forall|j: int| 0 <= j ==> !#[trigger] occurs_at(z, p, j),
    ensures
        forall|j: int| 0 <= j ==> !#[trigger] occurs_at(z.push('\n'), p, j),
{
    lemma_no_occ_before_newline(z, Seq::empty(), p);
    assert(z.push('\n') + Seq::<char>::empty() == z.push('\n'));
}

/// No occurrence of `p` lies in a prefix of `e` of length at most `bound`
/// when `e` has none starting before `bound`.
proof fn lemma_no_occ_in_prefix(e: Seq<char>, n: int, p: Seq<char>, bound: int)
    requires
        p.len() > 0,
        0 <= n <= e.len(),
        n <= bound,
        forall|j: int| 0 <= j < bound ==> !#[trigger] occurs_at(e, p, j),
    ensures
        forall|j: int| 0 <= j ==> !#[trigger] occurs_at(e.take(n), p, j),
{
    assert forall|j: int| 0 <= j implies !#[trigger] occurs_at(e.take(n), p, j) by {
        if occurs_at(e.take(n), p, j) {
            assert(e.take(n).subrange(j, j + p.len()) == e.subrange(j, j + p.len()));
            assert(occurs_at(e, p, j));
        }
    }
}

/// The first start marker and the first end marker of `x + b + t`, when
/// neither marker occurs before the end of `x` and `b` is a block.
proof fn lemma_find_markers(x: Seq<char>, b: Seq<char>, t: Seq<char>)
    requires
        is_block(b),
        forall|j: int| 0 <= j < x.len() ==> !#[trigger] occurs_at(x + b + t, BLOCK_START@, j),
        forall|j: int| 0 <= j < x.len() ==> !#[trigger] occurs_at(x + b + t, BLOCK_END@, j),
    ensures
        find(x + b + t, BLOCK_START@) == Some(x.len() as int),
        find(x + b + t, BLOCK_END@) == Some(x.len() + b.len() - BLOCK_END@.len()),
        block_span(x + b + t) == Some((x.len() as int, x.len() + b.len() - BLOCK_END@.len())),
{
    lemma_markers();
    let r = x + b + t;
    let sm = BLOCK_START@;
    let em = BLOCK_END@;
    assert(r.subrange(x.len() as int, (x.len() + sm.len()) as int) == b.take(sm.len() as int));
    lemma_find_from_unique(r, sm, 0, x.len() as int);
    let k = x.len() + b.len() - em.len();
    lemma_find_from(b, em, 0);
    assert(r.subrange(k, k + em.len()) == b.subrange(b.len() - em.len(), b.len() as int));
    assert forall|j: int| 0 <= j < k implies !#[trigger] occurs_at(r, em, j) by {
        if j >= x.len() && occurs_at(r, em, j) {
            assert(r.subrange(j, j + em.len()) == b.subrange(j - x.len(), j - x.len() + em.len()));
            assert(occurs_at(b, em, j - x.len()));
        }
    }
    lemma_find_from_unique(r, em, 0, k);
}

/// The header line of the category group of `s` in the block.
pub open spec fn header_line(s: Setting) -> Seq<char> {
    "# "@ + s.category@
}

/// Neither the export line of `s` nor its category header holds the end
/// marker, so `s` cannot end the block early.
pub open spec fn free_of_end_marker(s: Setting) -> bool {
    &&& !contains_seq(header_line(s), BLOCK_END@)
    &&& match export_line(s) {
        Some(l) => !contains_seq(l, BLOCK_END@),
        None => true,
    }
}

/// A pattern without newlines that occurs neither in `z` nor in `y` does
/// not occur in `z + "\n" + y`.
proof fn lemma_no_occ_join(z: Seq<char>, y: Seq<char>, p: Seq<char>)
    requires
        p.len() > 0,
        forall|i: int| 0 <= i < p.len() ==> p[i] != '\n',
        forall|j: int| 0 <= j ==> !#[trigger] occurs_at(z, p, j),
        forall|j: int| 0 <= j ==> !#[trigger] occurs_at(y, p, j),
    ensures
        forall|j: int| 0 <= j ==> !#[trigger] occurs_at(z.push('\n') + y, p, j),
{
    lemma_no_occ_before_newline(z, y, p);
    let r = z.push('\n') + y;
    assert forall|j: int| 0 <= j implies !#[trigger] occurs_at(r, p, j) by {
        if j > z.len() && occurs_at(r, p, j) {
            let m = j - z.len() - 1;
            assert(r.subrange(j, j + p.len()) == y.subrange(m, m + p.len()));
            assert(occurs_at(y, p, m));
        }
    }
}

/// The end marker does not occur in the start marker followed by the body
/// of a block whose settings are all free of it.
proof fn lemma_head_free(ss: Seq<Setting>)
    requires
        forall|i: int| 0 <= i < ss.len() ==> free_of_end_marker(#[trigger] ss[i]),
    ensures
        forall|j: int| 0 <= j ==> !#[trigger] occurs_at(BLOCK_START@ + block_body(ss), BLOCK_END@, j),
    decreases ss.len(),
{
    lemma_markers();
    let em = BLOCK_END@;
    if ss.len() == 0 {
        reveal_strlit("# homebrewconfig BEGIN");
        reveal_strlit("# homebrewconfig END");
        let z = BLOCK_START@ + block_body(ss);
        assert(z == BLOCK_START@);
        assert forall|j: int| 0 <= j implies !#[trigger] occurs_at(z, em, j) by {
            if occurs_at(z, em, j) {
                let w = z.subrange(j, j + em.len());
                if j == 0 {
                    assert(w[17] == z[17]);
                } else {
                    assert(w[0] == z[j]);
                }
            }
        }
    } else {
        let prev = ss.drop_last();
        let s = ss.last();
        assert forall|i: int| 0 <= i < prev.len() implies free_of_end_marker(#[trigger] prev[i]) by {
            assert(prev[i] == ss[i]);
        }
        lemma_head_free(prev);
        assert(free_of_end_marker(ss[ss.len() - 1]));
        let z = BLOCK_START@ + block_body(prev);
        match export_line(s) {
            None => {
                assert(BLOCK_START@ + block_body(ss) == z);
            },
            Some(line) => {
                lemma_find_from(line, em, 0);
                if last_exported_category(prev) == Some(s.category@) {
                    assert(BLOCK_START@ + block_body(ss) == z.push('\n') + line);
                    lemma_no_occ_join(z, line, em);
                } else {
                    let h = header_line(s);
                    lemma_find_from(h, em, 0);
                    let z2 = z.push('\n') + h;
                    lemma_no_occ_join(z, h, em);
                    assert(BLOCK_START@ + block_body(ss) == z2.push('\n') + line);
                    lemma_no_occ_join(z2, line, em);
                }
            },
        }
    }
}

/// The generated block is well formed whenever no setting's export line or
/// category header holds the end marker.
pub proof fn lemma_block_well_formed(ss: Seq<Setting>)
    requires
        forall|i: int| 0 <= i < ss.len() ==> free_of_end_marker(#[trigger] ss[i]),
    ensures
        is_block(block_spec(ss)),
{
    lemma_markers();
    lemma_block_frame(ss);
    lemma_head_free(ss);
    let em = BLOCK_END@;
    let z = BLOCK_START@ + block_body(ss);
    let b = block_spec(ss);
    assert(b == z.push('\n') + em);
    lemma_no_occ_before_newline(z, em, em);
    let k = b.len() - em.len();
    assert(k == z.len() + 1);
    assert(b.subrange(k, k + em.len()) == em);
    lemma_find_from_unique(b, em, 0, k);
}

/// Writing a block into a profile and writing the same block again gives
/// the same profile: re-applying never duplicates the block or its exports.
/// The profile must have consistent markers and the block must be
/// well formed; the result again has consistent markers.
pub proof fn lemma_replace_block_idempotent(e: Seq<char>, b: Seq<char>)
    requires
        is_block(b),
        markers_consistent(e),
    ensures
        replace_block_spec(replace_block_spec(e, b), b) == replace_block_spec(e, b),
        markers_consistent(replace_block_spec(e, b)),
{
    lemma_markers();
    let sm = BLOCK_START@;
    let em = BLOCK_END@;
    let r = replace_block_spec(e, b);
    match block_span(e) {
        Some((st, en)) => {
            lemma_find_from(e, sm, 0);
            lemma_find_from(e, em, 0);
            let head = strip_trailing_newline(e.take(st));
            let tail = strip_leading_newline(e.skip(en + em.len()));
            let x = if head.len() > 0 {
                head.push('\n')
            } else {
                Seq::empty()
            };
            let t = if tail.len() > 0 {
                seq!['\n'] + tail
            } else {
                seq!['\n']
            };
            assert(r == x + b + t);
            if head.len() > 0 {
                assert(head == e.take(head.len() as int));
                lemma_no_occ_in_prefix(e, head.len() as int, sm, st);
                lemma_no_occ_in_prefix(e, head.len() as int, em, en);
                assert(x + b + t == head.push('\n') + (b + t));
                lemma_no_occ_before_newline(head, b + t, sm);
                lemma_no_occ_before_newline(head, b + t, em);
            }
            lemma_find_markers(x, b, t);
            let k = x.len() + b.len() - em.len();
            assert(r.take(x.len() as int) == x);
            assert(r.skip(k + em.len()) == t);
            assert(strip_trailing_newline(x) == head);
            assert(strip_leading_newline(t) == tail);
        },
        None => {
            lemma_find_from(e, sm, 0);
            lemma_find_from(e, em, 0);
            let x = if e.len() > 0 {
                trim_end_char(e, '\n') + seq!['\n', '\n']
            } else {
                Seq::empty()
            };
            let t = seq!['\n'];
            assert(r == x + b + t);
            if e.len() > 0 {
                let z = trim_end_char(e, '\n');
                crate::text::lemma_trim_end_char_prefix(e, '\n');
                assert(z == e.take(z.len() as int));
                lemma_no_occ_in_prefix(e, z.len() as int, sm, e.len() as int);
                lemma_no_occ_in_prefix(e, z.len() as int, em, e.len() as int);
                lemma_no_occ_push_newline(z, sm);
                lemma_no_occ_push_newline(z, em);
                let z1 = z.push('\n');
                lemma_no_occ_before_newline(z1, b + t, sm);
                lemma_no_occ_before_newline(z1, b + t, em);
                assert(x == z1.push('\n'));
                assert(x + b + t == z1.push('\n') + (b + t));
            }
            lemma_find_markers(x, b, t);
            let k = x.len() + b.len() - em.len();
            assert(r.take(x.len() as int) == x);
            assert(r.skip(k + em.len()) == t);
            if e.len() > 0 {
                assert(strip_trailing_newline(x) == trim_end_char(e, '\n').push('\n'));
            }
            assert(strip_leading_newline(t) == Seq::<char>::empty());
        },
    }
}

/// Applying the same settings twice leaves the profile as the first
/// application wrote it, so the second apply has nothing to write: for a
/// profile with consistent markers, and settings none of whose export lines
/// or category headers holds the end marker.
pub proof fn lemma_apply_twice(ss: Seq<Setting>, existing: Seq<char>)
    requires
        forall|i: int| 0 <= i < ss.len() ==> free_of_end_marker(#[trigger] ss[i]),
        markers_consistent(existing),
    ensures
        applied_profile(ss, applied_profile(ss, existing)) == applied_profile(ss, existing),
{
    lemma_block_well_formed(ss);
    lemma_replace_block_idempotent(existing, block_spec(ss));
}

/// Every generated block starts with the start marker and ends with the
/// end marker.
pub proof fn lemma_block_frame(ss: Seq<Setting>)
    ensures
        block_spec(ss).take(BLOCK_START@.len() as int) == BLOCK_START@,
        has_suffix(block_spec(ss), BLOCK_END@),
        block_spec(ss).len() >= BLOCK_START@.len() + BLOCK_END@.len(),
{
    let b = block_spec(ss);
    assert(b.take(BLOCK_START@.len() as int) == BLOCK_START@);
    assert(b.skip(b.len() - BLOCK_END@.len()) == BLOCK_END@);
}

/// The block and a preset agree: a setting gets an export line exactly when
/// it gets a preset entry, and for a flag or a number the line exports the
/// very raw value of the entry.
pub proof fn lemma_block_agrees_with_preset(s: Setting)
    ensures
        export_line(s) is Some <==> exported_raw_spec(s) is Some,
        s.kind != SettingKind::Str && exported_raw_spec(s) is Some ==> export_line(s)
            == Some("export "@ + s.env_var@ + "="@ + exported_raw_spec(s)->0),
{
    reveal_strlit("=1");
    reveal_strlit("=");
    reveal_strlit("1");
    assert("export "@ + s.env_var@ + "=1"@ =~= "export "@ + s.env_var@ + "="@ + "1"@);
}

/// After an apply, the profile is found to hold the managed block, so the
/// next run picks the same profile.
pub proof fn lemma_applied_profile_holds_block(ss: Seq<Setting>, existing: Seq<char>)
    ensures
        contains_seq(applied_profile(ss, existing), BLOCK_START@),
{
    let b = block_spec(ss);
    let r = applied_profile(ss, existing);
    let sm = BLOCK_START@;
    lemma_block_frame(ss);
    let x = match block_span(existing) {
        Some((st, en)) => {
            let head = strip_trailing_newline(existing.take(st));
            if head.len() > 0 {
                head.push('\n')
            } else {
                Seq::empty()
            }
        },
        None => if existing.len() > 0 {
            trim_end_char(existing, '\n') + seq!['\n', '\n']
        } else {
            Seq::empty()
        },
    };
    let t = match block_span(existing) {
        Some((st, en)) => {
            let tail = strip_leading_newline(existing.skip(en + BLOCK_END@.len()));
            if tail.len() > 0 {
                seq!['\n'] + tail
            } else {
                seq!['\n']
            }
        },
        None => seq!['\n'],
    };
    assert(r == x + b + t);
    assert(r.subrange(x.len() as int, (x.len() + sm.len()) as int) == b.take(sm.len() as int));
    assert(occurs_at(r, sm, x.len() as int));
    lemma_find_from(r, sm, 0);
}

// ---------------------------------------------------------------------------
// When the block is well formed
// ---------------------------------------------------------------------------

/// A character that escaping inserts or rewrites.
pub open spec fn is_escape_char(c: char) -> bool {
    c == '\\' || c == '"'
}

/// `p` holds no character that escaping touches.
pub open spec fn escape_free(p: Seq<char>) -> bool {
    forall|i: int| 0 <= i < p.len() ==> !is_escape_char(#[trigger] p[i])
}

/// `s` holds no `#`.
pub open spec fn no_hash(s: Seq<char>) -> bool {
    forall|i: int| 0 <= i < s.len() ==> #[trigger] s[i] != '#'
}

/// A tail of a replaced text that holds no escape character is the same
/// tail of the original text.
proof fn lemma_replace_tail(s: Seq<char>, c: char, to: Seq<char>, k: int)
    requires
        is_escape_char(c),
        to.len() > 0,
        forall|i: int| 0 <= i < to.len() ==> is_escape_char(#[trigger] to[i]),
        0 <= k <= replace_char(s, c, to).len(),
        forall|i: int|
            replace_char(s, c, to).len() - k <= i < replace_char(s, c, to).len()
                ==> !is_escape_char(#[trigger] replace_char(s, c, to)[i]),
    ensures
        k <= s.len(),
        replace_char(s, c, to).skip(replace_char(s, c, to).len() - k) == s.skip(s.len() - k),
    decreases s.len(),
{
    let r = replace_char(s, c, to);
    if k > 0 {
        if s.len() == 0 {
            assert(r.len() == 0);
        } else {
            let sp = s.drop_last();
            let rp = replace_char(sp, c, to);
            if s.last() == c {
                assert(r == rp + to);
                assert(r[r.len() - 1] == to[to.len() - 1]);
            } else {
                assert(r == rp.push(s.last()));
                assert forall|i: int| rp.len() - (k - 1) <= i < rp.len() implies !is_escape_char(
                    #[trigger] rp[i],
                ) by {
                    assert(r[i] == rp[i]);
                }
                lemma_replace_tail(sp, c, to, k - 1);
                assert(r.skip(r.len() - k) == rp.skip(rp.len() - (k - 1)).push(s.last()));
                assert(s.skip(s.len() - k) == sp.skip(sp.len() - (k - 1)).push(s.last()));
            }
        }
    }
}

/// Replacing a character by escape characters creates no occurrence of a
/// pattern that holds no escape character.
proof fn lemma_replace_no_occ(s: Seq<char>, c: char, to: Seq<char>, p: Seq<char>)
    requires
        is_escape_char(c),
        to.len() > 0,
        forall|i: int| 0 <= i < to.len() ==> is_escape_char(#[trigger] to[i]),
        p.len() > 0,
        escape_free(p),
        forall|j: int| 0 <= j ==> !#[trigger] occurs_at(s, p, j),
    ensures
        forall|j: int| 0 <= j ==> !#[trigger] occurs_at(replace_char(s, c, to), p, j),
    decreases s.len(),
{
    let r = replace_char(s, c, to);
    if s.len() > 0 {
        let sp = s.drop_last();
        let rp = replace_char(sp, c, to);
        assert forall|j: int| 0 <= j implies !#[trigger] occurs_at(sp, p, j) by {
            if occurs_at(sp, p, j) {
                assert(s.subrange(j, j + p.len()) == sp.subrange(j, j + p.len()));
                assert(occurs_at(s, p, j));
            }
        }
        lemma_replace_no_occ(sp, c, to, p);
        assert forall|j: int| 0 <= j implies !#[trigger] occurs_at(r, p, j) by {
            if occurs_at(r, p, j) {
                let w = r.subrange(j, j + p.len());
                if s.last() == c {
                    assert(r == rp + to);
                    if j + p.len() <= rp.len() {
                        assert(rp.subrange(j, j + p.len()) == w);
                        assert(occurs_at(rp, p, j));
                    } else if j <= rp.len() {
                        assert(w[rp.len() - j] == r[rp.len() as int]);
                        assert(r[rp.len() as int] == to[0]);
                        assert(!is_escape_char(p[rp.len() - j]));
                    } else {
                        assert(w[0] == r[j]);
                        assert(r[j] == to[j - rp.len()]);
                        assert(!is_escape_char(p[0]));
                    }
                } else {
                    assert(r == rp.push(s.last()));
                    if j + p.len() <= rp.len() {
                        assert(rp.subrange(j, j + p.len()) == w);
                        assert(occurs_at(rp, p, j));
                    } else {
                        assert(j + p.len() == r.len());
                        assert(r.skip(j) == w);
                        assert forall|i: int| r.len() - p.len() <= i < r.len() implies !is_escape_char(
                            #[trigger] r[i],
                        ) by {
                            assert(r[i] == w[i - j]);
                        }
                        lemma_replace_tail(s, c, to, p.len() as int);
                        let m = s.len() - p.len();
                        assert(s.subrange(m, m + p.len()) == s.skip(m));
                        assert(occurs_at(s, p, m));
                    }
                }
            }
        }
    } else {
        assert(r.len() == 0);
    }
}

/// Escaping a value creates no occurrence of a pattern that holds no escape
/// character.
proof fn lemma_escape_no_occ(v: Seq<char>, p: Seq<char>)
    requires
        p.len() > 0,
        escape_free(p),
        !contains_seq(v, p),
    ensures
        !contains_seq(escape_spec(v), p),
{
    lemma_find_from(v, p, 0);
    lemma_replace_no_occ(v, '\\', seq!['\\', '\\'], p);
    let v1 = replace_char(v, '\\', seq!['\\', '\\']);
    lemma_replace_no_occ(v1, '"', seq!['\\', '"'], p);
    lemma_find_from(escape_spec(v), p, 0);
}

/// The end marker: its length, first and last characters, and that it
/// holds no escape character.
proof fn lemma_end_marker()
    ensures
        BLOCK_END@.len() == 20,
        BLOCK_END@[0] == '#',
        BLOCK_END@[19] == 'D',
        escape_free(BLOCK_END@),
{
    reveal_strlit("# homebrewconfig END");
}

/// A line without `#` does not hold the end marker.
proof fn lemma_no_hash_free(l: Seq<char>)
    requires
        no_hash(l),
    ensures
        !contains_seq(l, BLOCK_END@),
{
    lemma_end_marker();
    lemma_find_from(l, BLOCK_END@, 0);
    if let Some(j) = find(l, BLOCK_END@) {
        assert(l.subrange(j, j + 20)[0] == l[j]);
    }
}

/// A setting is free of the end marker when its variable has no `#`, its
/// category is short, and, for a string, its value does not hold the end
/// marker.
pub proof fn lemma_setting_free_of_end_marker(s: Setting)
    requires
        no_hash(s.env_var@),
        s.category@.len() < 18,
        s.kind == SettingKind::Str ==> !contains_seq(s.str_val@, BLOCK_END@),
    ensures
        free_of_end_marker(s),
{
    lemma_end_marker();
    reveal_strlit("# ");
    reveal_strlit("export ");
    reveal_strlit("=1");
    reveal_strlit("=");
    reveal_strlit("=\"");
    reveal_strlit("\"");
    let em = BLOCK_END@;
    let h = header_line(s);
    lemma_find_from(h, em, 0);
    match s.kind {
        SettingKind::Bool { .. } => {
            let l = "export "@ + s.env_var@ + "=1"@;
            assert(no_hash(l)) by {
                assert forall|i: int| 0 <= i < l.len() implies #[trigger] l[i] != '#' by {
                    if i >= 7 && i < 7 + s.env_var@.len() {
                        assert(l[i] == s.env_var@[i - 7]);
                    }
                }
            }
            lemma_no_hash_free(l);
        },
        SettingKind::Num => {
            if let Some(n) = s.num_val {
                let d = decimal(n as nat);
                crate::text::lemma_decimal(n as nat);
                let l = "export "@ + s.env_var@ + "="@ + d;
                assert(no_hash(l)) by {
                    assert forall|i: int| 0 <= i < l.len() implies #[trigger] l[i] != '#' by {
                        if i >= 7 && i < 7 + s.env_var@.len() {
                            assert(l[i] == s.env_var@[i - 7]);
                        } else if i >= 8 + s.env_var@.len() {
                            assert(l[i] == d[i - 8 - s.env_var@.len()]);
                            assert(crate::text::is_digit(d[i - 8 - s.env_var@.len()]));
                        }
                    }
                }
                lemma_no_hash_free(l);
            }
        },
        SettingKind::Str => {
            if s.str_val@.len() > 0 {
                let e = escape_spec(s.str_val@);
                lemma_escape_no_occ(s.str_val@, em);
                lemma_find_from(e, em, 0);
                let pre = "export "@ + s.env_var@ + "=\""@;
                let l = pre + e + "\""@;
                assert(export_line(s) == Some(l));
                lemma_find_from(l, em, 0);
                if let Some(j) = find(l, em) {
                    let w = l.subrange(j, j + 20);
                    assert(w[0] == l[j]);
                    if j < pre.len() {
                        if j >= 7 && j < 7 + s.env_var@.len() {
                            assert(l[j] == s.env_var@[j - 7]);
                        }
                    } else if j + 20 == l.len() {
                        assert(w[19] == l[l.len() - 1]);
                    } else {
                        let m = j - pre.len();
                        assert(e.subrange(m, m + 20) == w);
                        assert(occurs_at(e, em, m));
                    }
                }
            }
        },
    }
}

/// Every catalogue variable is free of `#`, and every category is short:
/// neither can hold the end marker.
pub proof fn lemma_catalogue_plain()
    ensures
        forall|i: int|
            0 <= i < catalogue().len() ==> no_hash((#[trigger] catalogue()[i]).1)
                && catalogue()[i].4.len() < 18,
{
    assert forall|i: int| 0 <= i < catalogue().len() implies no_hash(
        (#[trigger] catalogue()[i]).1,
    ) && catalogue()[i].4.len() < 18 by {
        if i == 0 {
            reveal_strlit("HOMEBREW_NO_ANALYTICS");
            reveal_strlit("Privacy");
        }
        else if i == 1 {
            reveal_strlit("HOMEBREW_NO_ENV_HINTS");
            reveal_strlit("Privacy");
        }
        else if i == 2 {
            reveal_strlit("HOMEBREW_NO_AUTO_UPDATE");
            reveal_strlit("Updates");
        }
        else if i == 3 {
            reveal_strlit("HOMEBREW_NO_INSTALL_UPGRADE");
            reveal_strlit("Updates");
        }
        else if i == 4 {
            reveal_strlit("HOMEBREW_NO_INSTALL_CLEANUP");
            reveal_strlit("Updates");
        }
        else if i == 5 {
            reveal_strlit("HOMEBREW_CLEANUP_MAX_AGE_DAYS");
            reveal_strlit("Updates");
        }
        else if i == 6 {
            reveal_strlit("HOMEBREW_NO_COLOR");
            reveal_strlit("Display");
        }
        else if i == 7 {
            reveal_strlit("HOMEBREW_NO_EMOJI");
            reveal_strlit("Display");
        }
        else if i == 8 {
            reveal_strlit("HOMEBREW_VERBOSE");
            reveal_strlit("Display");
        }
        else if i == 9 {
            reveal_strlit("HOMEBREW_DEBUG");
            reveal_strlit("Display");
        }
        else if i == 10 {
            reveal_strlit("HOMEBREW_INSTALL_BADGE");
            reveal_strlit("Display");
        }
        else if i == 11 {
            reveal_strlit("HOMEBREW_CACHE");
            reveal_strlit("Directories");
        }
        else if i == 12 {
            reveal_strlit("HOMEBREW_CELLAR");
            reveal_strlit("Directories");
        }
        else if i == 13 {
            reveal_strlit("HOMEBREW_LOGS");
            reveal_strlit("Directories");
        }
        else if i == 14 {
            reveal_strlit("HOMEBREW_TEMP");
            reveal_strlit("Directories");
        }
        else if i == 15 {
            reveal_strlit("HOMEBREW_EDITOR");
            reveal_strlit("Tools");
        }
        else if i == 16 {
            reveal_strlit("HOMEBREW_CURL_RETRIES");
            reveal_strlit("Tools");
        }
        else if i == 17 {
            reveal_strlit("HOMEBREW_NO_INSECURE_REDIRECT");
            reveal_strlit("Security");
        }
        else if i == 18 {
            reveal_strlit("HOMEBREW_BOTTLE_DOMAIN");
            reveal_strlit("Network");
        }
        else if i == 19 {
            reveal_strlit("HOMEBREW_BREW_GIT_REMOTE");
            reveal_strlit("Network");
        }
        else if i == 20 {
            reveal_strlit("HOMEBREW_CORE_GIT_REMOTE");
            reveal_strlit("Network");
        }
        else if i == 21 {
            reveal_strlit("HOMEBREW_GITHUB_API_TOKEN");
            reveal_strlit("Network");
        }
    }
}

/// For the catalogue's settings the generated block is well formed, and
/// applying it twice gives what applying it once gave, whenever no string
/// value holds the end marker.
pub proof fn lemma_catalogue_block_well_formed(ss: Seq<Setting>)
    requires
        ss.len() == catalogue().len(),
        forall|i: int| 0 <= i < ss.len() ==> entry_of(#[trigger] ss[i]) == catalogue()[i],
        forall|i: int|
            0 <= i < ss.len() && (#[trigger] ss[i]).kind == SettingKind::Str ==> !contains_seq(
                ss[i].str_val@,
                BLOCK_END@,
            ),
    ensures
        is_block(block_spec(ss)),
        forall|e: Seq<char>|
            markers_consistent(e) ==> #[trigger] applied_profile(ss, applied_profile(ss, e))
                == applied_profile(ss, e),
{
    lemma_catalogue_plain();
    assert forall|i: int| 0 <= i < ss.len() implies free_of_end_marker(#[trigger] ss[i]) by {
        assert(entry_of(ss[i]) == catalogue()[i]);
        lemma_setting_free_of_end_marker(ss[i]);
    }
    lemma_block_well_formed(ss);
    assert forall|e: Seq<char>| markers_consistent(e) implies #[trigger] applied_profile(
        ss,
        applied_profile(ss, e),
    ) == applied_profile(ss, e) by {
        lemma_replace_block_idempotent(e, block_spec(ss));
    }
}

} // verus!
