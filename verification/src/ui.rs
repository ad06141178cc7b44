//! Text shaping for the settings list.
use vstd::prelude::*;

use crate::app::{
    display_spec, highlight, list_rows, position, starts_group, view_of, visible_spec, Setting,
    SettingKind,
};
use crate::text::{chars_of, from_chars, has_prefix, occurs_at_exec, push_chars, slice_chars, str_eq};

verus! {

/// `s` cut to at most `max` characters: when longer, its first `max - 1`
/// characters followed by an ellipsis.
pub open spec fn truncate_spec(s: Seq<char>, max: int) -> Seq<char> {
    if s.len() <= max {
        s
    } else {
        s.take(if max > 0 {
            max - 1
        } else {
            0
        }).push('…')
    }
}

/// `s` cut to at most `max` characters, with an ellipsis when it was longer.
pub fn truncate(s: &str, max: usize) -> (r: String)
    ensures
        r@ == truncate_spec(s@, max as int),
{
    let v = chars_of(s);
    if v.len() <= max {
        s.to_owned()
    } else {
        let keep = if max > 0 {
            max - 1
        } else {
            0
        };
        let mut t = slice_chars(&v, 0, keep);
        t.push('…');
        from_chars(&t)
    }
}

/// The number of modified settings in `ss`.
pub open spec fn count_modified(ss: Seq<Setting>) -> nat
    decreases ss.len(),
{
    if ss.len() == 0 {
        0
    } else {
        count_modified(ss.drop_last()) + if ss.last().modified {
            1nat
        } else {
            0nat
        }
    }
}

/// The number of modified (unsaved) settings.
pub fn unsaved_count(settings: &[Setting]) -> (r: usize)
    ensures
        r == count_modified(settings@),
{
    let mut n: usize = 0;
    let mut i: usize = 0;
    while i < settings.len()
        invariant
            i <= settings@.len(),
            n == count_modified(settings@.take(i as int)),
            n <= i,
        decreases settings.len() - i,
    {
        assert(settings@.take(i + 1).drop_last() == settings@.take(i as int));
        if settings[i].modified {
            n += 1;
        }
        i += 1;
    }
    assert(settings@.take(settings@.len() as int) == settings@);
    n
}


// ---------------------------------------------------------------------------
// Rows of the settings list
// ---------------------------------------------------------------------------

/// How a setting's value is shown.
#[derive(Debug, Clone, Copy, PartialEq, Eq, Structural)]
pub enum ValueStyle {
    /// A boolean whose feature is on.
    On,
    /// A boolean whose feature is off.
    Off,
    /// A string or number value.
    Text,
}

/// One row of the settings list.
pub enum ListRow {
    /// The empty row between two category groups.
    Blank,
    /// A category header, already indented.
    Header(String),
    /// A setting.
    Entry {
        /// Its index among the settings.
        index: usize,
        /// Whether it is the selected setting.
        selected: bool,
        /// The selection pointer.
        pointer: String,
        /// The name, padded to the name column.
        name: String,
        /// The value label, padded to the value column.
        value: String,
        style: ValueStyle,
        /// Whether it carries the modified marker.
        modified: bool,
    },
}

/// The width of the name and value columns.
pub const COLUMN_WIDTH: usize = 18;

/// `s` followed by spaces up to `width` characters (`{:<width}`).
pub open spec fn pad_spec(s: Seq<char>, width: int) -> Seq<char> {
    if s.len() >= width {
        s
    } else {
        s + Seq::new((width - s.len()) as nat, |i: int| ' ')
    }
}

/// The value label of `s`: a fixed badge for a boolean, else its displayed
/// value cut to the column.
pub open spec fn value_label(s: Setting) -> Seq<char> {
    match s.kind {
        SettingKind::Bool { .. } => if s.bool_val {
            "[  ON  ]"@
        } else {
            "[ OFF  ]"@
        },
        _ => pad_spec(truncate_spec(display_spec(s), COLUMN_WIDTH as int), COLUMN_WIDTH as int),
    }
}

/// The style of the value of `s`.
pub open spec fn value_style(s: Setting) -> ValueStyle {
    match s.kind {
        SettingKind::Bool { .. } => if s.bool_val {
            ValueStyle::On
        } else {
            ValueStyle::Off
        },
        _ => ValueStyle::Text,
    }
}

/// Whether `row` is the entry of the `j`-th listed setting, `ss[vis[j]]`,
/// as shown when `selected` is the selection.
pub open spec fn is_entry_row(
    row: ListRow,
    ss: Seq<Setting>,
    vis: Seq<usize>,
    j: int,
    selected: int,
) -> bool {
    let i = vis[j] as int;
    match row {
        ListRow::Entry { index, selected: sel, pointer, name, value, style, modified } => {
            &&& index == i
            &&& sel == (i == selected)
            &&& pointer@ == (if i == selected {
                "❯ "@
            } else {
                "  "@
            })
            &&& name@ == pad_spec(ss[i].name@, COLUMN_WIDTH as int)
            &&& value@ == value_label(ss[i])
            &&& style == value_style(ss[i])
            &&& modified == ss[i].modified
        },
        _ => false,
    }
}

/// Whether `row` is the header of the category of the `j`-th listed setting.
pub open spec fn is_header_row(row: ListRow, ss: Seq<Setting>, vis: Seq<usize>, j: int) -> bool {
    match row {
        ListRow::Header(h) => h@ == "  "@ + ss[vis[j] as int].category@,
        _ => false,
    }
}

/// The rows of the first `n` listed settings (the settings of `ss` at the
/// indices `vis`): for each one that opens a category group, a blank row
/// (except before the first group) and the header; then its entry.
pub open spec fn rows_ok(
    rows: Seq<ListRow>,
    ss: Seq<Setting>,
    vis: Seq<usize>,
    n: int,
    selected: int,
) -> bool
    decreases n,
{
    let view = view_of(ss, vis);
    if n <= 0 {
        rows.len() == 0
    } else {
        let k = list_rows(view, n - 1);
        &&& rows.len() == list_rows(view, n)
        &&& rows_ok(rows.take(k), ss, vis, n - 1, selected)
        &&& is_entry_row(rows.last(), ss, vis, n - 1, selected)
        &&& if starts_group(view, n - 1) {
            &&& is_header_row(rows[rows.len() - 2], ss, vis, n - 1)
            &&& (n - 1 > 0 ==> rows[k] is Blank)
        } else {
            true
        }
    }
}

/// `s` padded with spaces to `width` characters.
pub fn pad_right(s: &Vec<char>, width: usize) -> (r: Vec<char>)
    ensures
        r@ == pad_spec(s@, width as int),
{
    let mut r = s.clone();
    if r.len() < width {
        let ghost n0 = s@.len();
        while r.len() < width
            invariant
                n0 == s@.len(),
                n0 <= r@.len() <= width,
                r@ == s@ + Seq::new((r@.len() - n0) as nat, |i: int| ' '),
            decreases width - r.len(),
        {
            r.push(' ');
            assert(r@ == s@ + Seq::new((r@.len() - n0) as nat, |i: int| ' '));
        }
    }
    assert(r@ == pad_spec(s@, width as int));
    r
}

fn entry_row(settings: &[Setting], i: usize, selected: usize) -> (r: ListRow)
    requires
        i < settings@.len(),
    ensures
        is_entry_row(r, settings@, seq![i], 0, selected as int),
{
    let s = &settings[i];
    let pointer = if i == selected {
        "❯ ".to_owned()
    } else {
        "  ".to_owned()
    };
    let name = pad_right(&chars_of(s.name), COLUMN_WIDTH);
    let (value, style) = match s.kind {
        SettingKind::Bool { .. } => {
            if s.is_feature_on() {
                ("[  ON  ]".to_owned(), ValueStyle::On)
            } else {
                ("[ OFF  ]".to_owned(), ValueStyle::Off)
            }
        },
        _ => {
            let shown = s.value_display();
            let cut = truncate(shown.as_str(), COLUMN_WIDTH);
            let padded = pad_right(&chars_of(cut.as_str()), COLUMN_WIDTH);
            (from_chars(&padded), ValueStyle::Text)
        },
    };
    ListRow::Entry {
        index: i,
        selected: i == selected,
        pointer,
        name: from_chars(&name),
        value,
        style,
        modified: s.modified,
    }
}

proof fn lemma_rows_ok_prefix(
    rows: Seq<ListRow>,
    ss: Seq<Setting>,
    vis: Seq<usize>,
    n: int,
    selected: int,
)
    requires
        0 <= n,
        rows_ok(rows, ss, vis, n, selected),
    ensures
        rows.len() == list_rows(view_of(ss, vis), n),
        forall|j: int|
            0 <= j < n ==> is_entry_row(
                #[trigger] rows[list_rows(view_of(ss, vis), j + 1) - 1],
                ss,
                vis,
                j,
                selected,
            ),
    decreases n,
{
    let view = view_of(ss, vis);
    if n > 0 {
        let k = list_rows(view, n - 1);
        lemma_rows_ok_prefix(rows.take(k), ss, vis, n - 1, selected);
        crate::app::lemma_list_rows_monotone(view, n - 1);
        assert forall|j: int| 0 <= j < n implies is_entry_row(
            #[trigger] rows[list_rows(view, j + 1) - 1],
            ss,
            vis,
            j,
            selected,
        ) by {
            crate::app::lemma_list_rows_bounds_pub(view, j + 1);
            if j < n - 1 {
                crate::app::lemma_list_rows_le(view, j + 1, n - 1);
                assert(rows[list_rows(view, j + 1) - 1] == rows.take(k)[list_rows(view, j + 1) - 1]);
            }
        }
    }
}

/// The rows of the settings list: the settings at the indices `visible`,
/// in that order, under category headers with a blank row between groups,
/// and `selected` marked.
pub fn list_items(settings: &[Setting], visible: &[usize], selected: usize) -> (rows: Vec<ListRow>)
    requires
        visible@.len() <= usize::MAX / 3,
        forall|j: int| 0 <= j < visible@.len() ==> visible@[j] < settings@.len(),
    ensures
        rows_ok(rows@, settings@, visible@, visible@.len() as int, selected as int),
{
    let ghost view = view_of(settings@, visible@);
    let n = visible.len();
    let mut rows: Vec<ListRow> = Vec::new();
    let mut i: usize = 0;
    while i < n
        invariant
            i <= n,
            n == visible@.len(),
            n <= usize::MAX / 3,
            view == view_of(settings@, visible@),
            forall|j: int| 0 <= j < visible@.len() ==> visible@[j] < settings@.len(),
            rows_ok(rows@, settings@, visible@, i as int, selected as int),
        decreases n - i,
    {
        proof {
            crate::app::lemma_list_rows_bounds_pub(view, i as int);
        }
        let ghost before = rows@;
        let k = visible[i];
        let new_group = i == 0 || !str_eq(settings[k].category, settings[visible[i - 1]].category);
        if new_group {
            if i > 0 {
                rows.push(ListRow::Blank);
            }
            let mut h: Vec<char> = Vec::new();
            h.push(' ');
            h.push(' ');
            let cat = chars_of(settings[k].category);
            push_chars(&mut h, &cat);
            assert(h@ == "  "@ + settings@[k as int].category@) by {
                reveal_strlit("  ");
            }
            rows.push(ListRow::Header(from_chars(&h)));
        }
        let e = entry_row(settings, k, selected);
        rows.push(e);
        assert(rows@.take(list_rows(view, i as int)) == before);
        i += 1;
    }
    rows
}

/// The row that the list state highlights is the entry of the selected
/// setting: under any filter, as long as the selected setting is listed.
pub proof fn lemma_highlighted_row(
    rows: Seq<ListRow>,
    ss: Seq<Setting>,
    f: Seq<char>,
    selected: usize,
)
    requires
        ss.len() <= usize::MAX / 3,
        rows_ok(rows, ss, visible_spec(ss, f), visible_spec(ss, f).len() as int, selected as int),
        highlight(ss, f, selected) is Some,
    ensures
        0 <= highlight(ss, f, selected)->0 < rows.len(),
        rows[highlight(ss, f, selected)->0 as int] matches ListRow::Entry { index, selected: sel, .. }
            && index == selected && sel,
{
    let vis = visible_spec(ss, f);
    let view = view_of(ss, vis);
    crate::app::lemma_position(vis, selected);
    let p = position(vis, selected);
    lemma_rows_ok_prefix(rows, ss, vis, vis.len() as int, selected as int);
    crate::app::lemma_list_rows_le(view, p + 1, vis.len() as int);
    crate::app::lemma_list_rows_bounds_pub(view, p + 1);
    crate::app::lemma_visible_upto(ss, f, ss.len() as int);
    crate::app::lemma_list_rows_bounds_pub(view, vis.len() as int);
    assert(highlight(ss, f, selected)->0 as int == list_rows(view, p + 1) - 1);
    assert(is_entry_row(rows[list_rows(view, p + 1) - 1], ss, vis, p, selected as int));
}

// ---------------------------------------------------------------------------
// Shortened paths and the preview
// ---------------------------------------------------------------------------

/// `s` with every non-overlapping occurrence of `p`, from the left, replaced
/// by `to` (`str::replace`); an empty `p` matches before every character and
/// at the end.
pub open spec fn replace_all(s: Seq<char>, p: Seq<char>, to: Seq<char>) -> Seq<char>
    decreases s.len(),
{
    if p.len() == 0 {
        if s.len() == 0 {
            to
        } else {
            to + seq![s[0]] + replace_all(s.drop_first(), p, to)
        }
    } else if has_prefix(s, p) {
        to + replace_all(s.skip(p.len() as int), p, to)
    } else if s.len() == 0 {
        Seq::empty()
    } else {
        seq![s[0]] + replace_all(s.drop_first(), p, to)
    }
}

/// The profile path with the home directory written `~`.
pub fn shorten_home(path: &str, home: &str) -> (r: String)
    ensures
        r@ == replace_all(path@, home@, "~"@),
{
    let v = chars_of(path);
    let p = chars_of(home);
    let tilde = chars_of("~");
    let mut out: Vec<char> = Vec::new();
    let mut i: usize = 0;
    assert(v@.skip(0) == v@);
    assert(out@ + replace_all(v@, p@, tilde@) == replace_all(v@, p@, tilde@));
    while i < v.len()
        invariant
            i <= v@.len(),
            out@ + replace_all(v@.skip(i as int), p@, tilde@) == replace_all(v@, p@, tilde@),
        decreases v.len() - i,
    {
        let ghost rest = v@.skip(i as int);
        if p.len() > 0 && occurs_at_exec(&v, &p, i) {
            assert(rest.take(p@.len() as int) == v@.subrange(i as int, i + p@.len()));
            assert(rest.skip(p@.len() as int) == v@.skip(i + p@.len()));
            push_chars(&mut out, &tilde);
            i += p.len();
        } else {
            assert(rest.drop_first() == v@.skip(i + 1));
            if p.len() == 0 {
                push_chars(&mut out, &tilde);
            } else {
                assert(!has_prefix(rest, p@)) by {
                    if has_prefix(rest, p@) {
                        assert(v@.subrange(i as int, i + p@.len()) == rest.take(p@.len() as int));
                    }
                }
            }
            out.push(v[i]);
            i += 1;
        }
    }
    if p.len() == 0 {
        push_chars(&mut out, &tilde);
    }
    assert(v@.skip(i as int) == Seq::<char>::empty());
    from_chars(&out)
}

/// The highlighting of one line of the block preview.
#[derive(Debug, Clone, Copy, PartialEq, Eq, Structural)]
pub enum PreviewLine {
    /// A `# homebrewconfig` marker line.
    Marker,
    /// Another comment: a category header.
    Category,
    /// An `export` line.
    Export,
    Other,
}

/// The highlighting of a preview line, by how it begins.
pub open spec fn preview_line_spec(line: Seq<char>) -> PreviewLine {
    if has_prefix(line, "# homebrewconfig"@) {
        PreviewLine::Marker
    } else if has_prefix(line, "#"@) {
        PreviewLine::Category
    } else if has_prefix(line, "export"@) {
        PreviewLine::Export
    } else {
        PreviewLine::Other
    }
}

/// How to highlight a line of the block preview.
pub fn preview_line(line: &str) -> (r: PreviewLine)
    ensures
        r == preview_line_spec(line@),
{
    let v = chars_of(line);
    if crate::text::has_prefix_chars(&v, &chars_of("# homebrewconfig")) {
        PreviewLine::Marker
    } else if crate::text::has_prefix_chars(&v, &chars_of("#")) {
        PreviewLine::Category
    } else if crate::text::has_prefix_chars(&v, &chars_of("export")) {
        PreviewLine::Export
    } else {
        PreviewLine::Other
    }
}

} // verus!
