//! Key handling of the interactive editor: which key does what in each mode.
use vstd::prelude::*;

use crate::app::{
    filtered, profile_cycled, theme_cycled,
    cancel_edit_post, confirm_edit_post, message_is, same_view_state, saved, select_next_post, select_prev_post,
    start_editing_post, toggle_post, App, Mode, SettingKind, visible_spec, lemma_visible_upto,
    lemma_position_at,
};
use crate::text::{chars_of, from_chars, is_digit, push_str};
use vstd::utf8::{char_is_scalar, encode_scalar, encode_utf8};

verus! {

/// A key, as the editor distinguishes them.
#[derive(Debug, Clone, Copy, PartialEq, Eq, Structural)]
pub enum KeyCode {
    Char(char),
    Up,
    Down,
    Left,
    Right,
    Home,
    End,
    Enter,
    Esc,
    Backspace,
    Delete,
    /// Any other key.
    Other,
}

/// A key press, with whether Control was held.
#[derive(Debug, Clone, Copy, PartialEq, Eq, Structural)]
pub struct KeyInput {
    pub code: KeyCode,
    pub ctrl: bool,
}

/// What the event loop must do after a key in normal mode.
#[derive(Debug, Clone, Copy, PartialEq, Eq, Structural)]
pub enum NormalAction {
    Continue,
    Quit,
    /// Re-read the settings from the environment (`App::reset`).
    Reset,
    /// The palette changed; the choice is to be saved.
    ThemeChanged,
}

/// The state the key handlers rely on: the selection is a setting, and the
/// list is small enough to number its rows.
pub open spec fn app_ready(a: App) -> bool {
    &&& a.selected < a.settings@.len()
    &&& a.settings@.len() <= usize::MAX / 3
}

/// `b` is `a` with only the help flag set to `help`.
pub open spec fn help_set(a: App, b: App, help: bool) -> bool {
    b == App { show_help: help, ..a }
}

/// What a key does in normal mode, as the new state `b` from `a` and the
/// action returned.
pub open spec fn normal_key_post(a: App, key: KeyInput, b: App, r: NormalAction) -> bool {
    match key.code {
        KeyCode::Char(c) => if c == 'c' && key.ctrl {
            r == NormalAction::Quit && b == a
        } else if c == 'q' {
            r == NormalAction::Quit && b == a
        } else if c == '?' {
            r == NormalAction::Continue && help_set(a, b, !a.show_help)
        } else if c == 'k' {
            r == NormalAction::Continue && select_prev_post(a, b)
        } else if c == 'j' {
            r == NormalAction::Continue && select_next_post(a, b)
        } else if c == ' ' {
            r == NormalAction::Continue && toggle_post(a, b)
        } else if c == 'r' {
            r == NormalAction::Reset && b == a
        } else if c == '/' {
            r == NormalAction::Continue && b == App { mode: Mode::Filtering, ..a }
        } else if c == 'p' {
            r == NormalAction::Continue && profile_cycled(a, b)
        } else if c == 't' {
            r == NormalAction::ThemeChanged && theme_cycled(a, b)
        } else if c == 'a' {
            r == NormalAction::Continue && b == App { mode: Mode::Confirming, ..a }
        } else {
            r == NormalAction::Continue && b == a
        },
        KeyCode::Esc => if a.show_help {
            r == NormalAction::Continue && help_set(a, b, false)
        } else {
            r == NormalAction::Quit && b == a
        },
        KeyCode::Up => r == NormalAction::Continue && select_prev_post(a, b),
        KeyCode::Down => r == NormalAction::Continue && select_next_post(a, b),
        KeyCode::Enter => r == NormalAction::Continue && start_editing_post(a, b),
        _ => r == NormalAction::Continue && b == a,
    }
}

/// Handles a key in normal mode: quit (`q`, `Ctrl+C`, or `Esc` without
/// help shown), help, navigation, toggling, editing, reset, filtering,
/// cycling the profile or the palette, and apply.
pub fn handle_normal(app: &mut App, key: KeyInput) -> (r: NormalAction)
    requires
        app_ready(*old(app)),
    ensures
        normal_key_post(*old(app), key, *final(app), r),
{
    match key.code {
        KeyCode::Char(c) => {
            if c == 'c' && key.ctrl {
                return NormalAction::Quit;
            } else if c == 'q' {
                return NormalAction::Quit;
            } else if c == '?' {
                app.show_help = !app.show_help;
            } else if c == 'k' {
                app.select_prev();
            } else if c == 'j' {
                app.select_next();
            } else if c == ' ' {
                app.toggle_current();
            } else if c == 'r' {
                return NormalAction::Reset;
            } else if c == '/' {
                app.start_filter();
            } else if c == 'p' {
                app.cycle_profile();
            } else if c == 't' {
                app.cycle_theme();
                return NormalAction::ThemeChanged;
            } else if c == 'a' {
                app.mode = Mode::Confirming;
            }
        },
        KeyCode::Esc => {
            if app.show_help {
                app.show_help = false;
            } else {
                return NormalAction::Quit;
            }
        },
        KeyCode::Up => app.select_prev(),
        KeyCode::Down => app.select_next(),
        KeyCode::Enter => app.start_editing(),
        _ => {},
    }
    NormalAction::Continue
}

/// What a key does while typing the filter, as the new state `b` from `a`.
pub open spec fn filter_key_post(a: App, key: KeyInput, b: App) -> bool {
    match key.code {
        KeyCode::Enter => b == App { mode: Mode::Normal, ..a },
        KeyCode::Esc => filtered(a, b, Seq::empty()) && b.mode == Mode::Normal,
        KeyCode::Backspace => b.mode == a.mode && filtered(
            a,
            b,
            if a.filter@.len() > 0 {
                a.filter@.drop_last()
            } else {
                a.filter@
            },
        ),
        KeyCode::Char(c) => b.mode == a.mode && filtered(a, b, a.filter@.push(c)),
        _ => b == a,
    }
}

/// Handles a key while typing the filter: `Enter` keeps the filter, `Esc`
/// clears it (both return to normal mode), `Backspace` removes a character
/// and any other character is added.
pub fn handle_filter(app: &mut App, key: KeyInput)
    requires
        old(app).settings@.len() <= usize::MAX / 3,
    ensures
        filter_key_post(*old(app), key, *final(app)),
{
    match key.code {
        KeyCode::Enter => app.confirm_filter(),
        KeyCode::Esc => app.clear_filter(),
        KeyCode::Backspace => app.filter_backspace(),
        KeyCode::Char(c) => app.filter_push(c),
        _ => {},
    }
}

/// `b` is `a` with the edit text `text` and the cursor at `cursor`.
pub open spec fn text_edited(a: App, b: App, text: Seq<char>, cursor: int) -> bool {
    &&& b.input@ == text
    &&& b.cursor_pos == cursor
    &&& b.settings == a.settings
    &&& b.selected == a.selected
    &&& b.list_state == a.list_state
    &&& b.mode == a.mode
    &&& b.shell_profile == a.shell_profile
    &&& b.message == a.message
    &&& b.show_help == a.show_help
    &&& same_view_state(a, b)
}

/// What a key does in the editor, as the new state `b` from `a`.
pub open spec fn editing_key_post(a: App, key: KeyInput, b: App) -> bool {
    let t = a.input@;
    let cur = a.cursor_pos as int;
    match key.code {
        KeyCode::Enter => confirm_edit_post(a, b),
        KeyCode::Esc => cancel_edit_post(a, b),
        KeyCode::Char(c) => if a.settings@[a.selected as int].kind == SettingKind::Num
            && !is_digit(c) {
            b == a
        } else {
            text_edited(a, b, t.insert(cur, c), cur + 1)
        },
        KeyCode::Backspace => if cur > 0 {
            text_edited(a, b, t.remove(cur - 1), cur - 1)
        } else {
            b == a
        },
        KeyCode::Delete => if cur < t.len() {
            text_edited(a, b, t.remove(cur), cur)
        } else {
            b == a
        },
        KeyCode::Left => text_edited(a, b, t, if cur > 0 {
            cur - 1
        } else {
            0
        }),
        KeyCode::Right => text_edited(a, b, t, if cur < t.len() {
            cur + 1
        } else {
            cur
        }),
        KeyCode::Home => text_edited(a, b, t, 0),
        KeyCode::End => text_edited(a, b, t, t.len() as int),
        _ => b == a,
    }
}

/// Handles a key in the editor: confirm, cancel, typing at the cursor
/// (digits only for a number), deletion and cursor movement.
pub fn handle_editing(app: &mut App, key: KeyInput)
    requires
        app_ready(*old(app)),
        old(app).cursor_pos <= old(app).input@.len(),
    ensures
        editing_key_post(*old(app), key, *final(app)),
{
    match key.code {
        KeyCode::Enter => app.confirm_edit(),
        KeyCode::Esc => app.cancel_edit(),
        KeyCode::Char(c) => {
            if let SettingKind::Num = app.settings[app.selected].kind {
                let u = c as u32;
                if u < '0' as u32 || u > '9' as u32 {
                    return ;
                }
            }
            let mut v = chars_of(app.input.as_str());
            v.insert(app.cursor_pos, c);
            let len_after = v.len();
            assert(app.cursor_pos < len_after);
            app.input = from_chars(&v);
            app.cursor_pos += 1;
        },
        KeyCode::Backspace => {
            if app.cursor_pos > 0 {
                let mut v = chars_of(app.input.as_str());
                v.remove(app.cursor_pos - 1);
                app.input = from_chars(&v);
                app.cursor_pos -= 1;
            }
        },
        KeyCode::Delete => {
            let mut v = chars_of(app.input.as_str());
            if app.cursor_pos < v.len() {
                v.remove(app.cursor_pos);
                app.input = from_chars(&v);
            }
        },
        KeyCode::Left => {
            app.cursor_pos = if app.cursor_pos > 0 {
                app.cursor_pos - 1
            } else {
                0
            };
        },
        KeyCode::Right => {
            let v = chars_of(app.input.as_str());
            if app.cursor_pos < v.len() {
                app.cursor_pos += 1;
            }
        },
        KeyCode::Home => app.cursor_pos = 0,
        KeyCode::End => {
            let v = chars_of(app.input.as_str());
            app.cursor_pos = v.len();
        },
        _ => {},
    }
}

/// Handles a key in the confirmation popup: `y` or `Enter` asks the caller
/// to apply (returns `true`, leaving the state as is); `n` or `Esc` cancels
/// with a message.
pub fn handle_confirm(app: &mut App, key: KeyInput) -> (apply: bool)
    ensures
        match key.code {
            KeyCode::Enter => apply && *final(app) == *old(app),
            KeyCode::Char(c) => if c == 'y' {
                apply && *final(app) == *old(app)
            } else if c == 'n' {
                !apply && cancelled(*old(app), *final(app))
            } else {
                !apply && *final(app) == *old(app)
            },
            KeyCode::Esc => !apply && cancelled(*old(app), *final(app)),
            _ => !apply && *final(app) == *old(app),
        },
{
    match key.code {
        KeyCode::Enter => return true,
        KeyCode::Char(c) => {
            if c == 'y' {
                return true;
            } else if c == 'n' {
                app.mode = Mode::Normal;
                app.message = Some(("Apply cancelled".to_owned(), false));
            }
        },
        KeyCode::Esc => {
            app.mode = Mode::Normal;
            app.message = Some(("Apply cancelled".to_owned(), false));
        },
        _ => {},
    }
    false
}

/// `b` is `a` back in normal mode with the "Apply cancelled" message.
pub open spec fn cancelled(a: App, b: App) -> bool {
    &&& b.mode == Mode::Normal
    &&& message_is(b.message, "Apply cancelled"@, false)
    &&& b.settings == a.settings
    &&& b.selected == a.selected
    &&& b.list_state == a.list_state
    &&& b.input == a.input
    &&& b.cursor_pos == a.cursor_pos
    &&& b.shell_profile == a.shell_profile
    &&& b.show_help == a.show_help
    &&& same_view_state(a, b)
}

/// Records the outcome of writing the profile: on success every setting is
/// saved (no longer modified) and the profile is named; on failure the error
/// is shown. Either way the editor returns to normal mode.
pub fn finish_apply(app: &mut App, result: Result<(), String>)
    ensures
        final(app).mode == Mode::Normal,
        final(app).selected == old(app).selected,
        final(app).list_state == old(app).list_state,
        final(app).input == old(app).input,
        final(app).cursor_pos == old(app).cursor_pos,
        final(app).shell_profile == old(app).shell_profile,
        final(app).show_help == old(app).show_help,
        same_view_state(*old(app), *final(app)),
        final(app).settings@.len() == old(app).settings@.len(),
        match result {
            Ok(()) => {
                &&& message_is(final(app).message, "Applied to "@ + old(app).shell_profile@, false)
                &&& forall|i: int|
                    0 <= i < old(app).settings@.len() ==> #[trigger] final(app).settings@[i]
                        == saved(old(app).settings@[i])
            },
            Err(e) => {
                &&& message_is(final(app).message, e@, true)
                &&& final(app).settings == old(app).settings
            },
        },
{
    match result {
        Ok(()) => {
            let n = app.settings.len();
            let mut i: usize = 0;
            while i < n
                invariant
                    i <= n,
                    n == app.settings@.len(),
                    n == old(app).settings@.len(),
                    forall|j: int|
                        0 <= j < i ==> #[trigger] app.settings@[j] == saved(old(app).settings@[j]),
                    forall|j: int| i <= j < n ==> #[trigger] app.settings@[j] == old(app).settings@[j],
                    app.selected == old(app).selected,
                    app.list_state == old(app).list_state,
                    app.input == old(app).input,
                    app.cursor_pos == old(app).cursor_pos,
                    app.shell_profile == old(app).shell_profile,
                    app.show_help == old(app).show_help,
                    same_view_state(*old(app), *app),
                decreases n - i,
            {
                app.settings[i].modified = false;
                i += 1;
            }
            let mut m: Vec<char> = Vec::new();
            push_str(&mut m, "Applied to ");
            push_str(&mut m, app.shell_profile.as_str());
            app.message = Some((from_chars(&m), false));
        },
        Err(e) => {
            app.message = Some((e, true));
        },
    }
    app.mode = Mode::Normal;
}


// ---------------------------------------------------------------------------
// Character and byte positions
// ---------------------------------------------------------------------------

/// The number of bytes of the UTF-8 encoding of `c`.
pub open spec fn char_utf8_len(c: char) -> nat {
    let u = c as u32;
    if u < 0x80 {
        1
    } else if u < 0x800 {
        2
    } else if u < 0x10000 {
        3
    } else {
        4
    }
}

proof fn lemma_encode_scalar_len(c: char)
    ensures
        encode_scalar(c as u32).len() == char_utf8_len(c),
{
    char_is_scalar(c);
}

proof fn lemma_encode_utf8_push(s: Seq<char>, c: char)
    ensures
        encode_utf8(s.push(c)) == encode_utf8(s) + encode_scalar(c as u32),
    decreases s.len(),
{
    if s.len() == 0 {
        assert(s.push(c).drop_first() == Seq::<char>::empty());
        assert(encode_utf8(Seq::<char>::empty()) == Seq::<u8>::empty());
        assert(encode_utf8(s.push(c)) == encode_scalar(c as u32) + encode_utf8(Seq::<char>::empty()));
    } else {
        lemma_encode_utf8_push(s.drop_first(), c);
        assert(s.push(c).drop_first() == s.drop_first().push(c));
        assert(s.push(c)[0] == s[0]);
    }
}

/// The byte index in `s` of the character at index `char_idx`, or the byte
/// length of `s` when `char_idx` is past its last character.
pub fn char_to_byte(s: &str, char_idx: usize) -> (r: usize)
    requires
        encode_utf8(s@).len() <= usize::MAX,
    ensures
        r as int == (if char_idx < s@.len() {
            encode_utf8(s@.take(char_idx as int)).len() as int
        } else {
            encode_utf8(s@).len() as int
        }),
{
    let v = chars_of(s);
    let total = s.len();
    let mut bytes: usize = 0;
    let mut i: usize = 0;
    while i < v.len()
        invariant
            i <= v@.len(),
            i <= char_idx,
            v@ == s@,
            total == encode_utf8(s@).len(),
            encode_utf8(s@).len() <= usize::MAX,
            bytes == encode_utf8(v@.take(i as int)).len(),
            encode_utf8(v@.take(i as int)).len() <= encode_utf8(v@).len(),
        decreases v.len() - i,
    {
        if i == char_idx {
            return bytes;
        }
        let c = v[i];
        let u = c as u32;
        let w: usize = if u < 0x80 {
            1
        } else if u < 0x800 {
            2
        } else if u < 0x10000 {
            3
        } else {
            4
        };
        proof {
            lemma_encode_scalar_len(c);
            lemma_encode_utf8_push(v@.take(i as int), c);
            assert(v@.take(i + 1) == v@.take(i as int).push(c));
            lemma_encode_utf8_prefix_len(v@, i + 1);
        }
        bytes += w;
        i += 1;
    }
    total
}

/// Encoding a prefix takes no more bytes than encoding the whole.
proof fn lemma_encode_utf8_prefix_len(s: Seq<char>, n: int)
    requires
        0 <= n <= s.len(),
    ensures
        encode_utf8(s.take(n)).len() <= encode_utf8(s).len(),
    decreases s.len() - n,
{
    if n < s.len() {
        lemma_encode_utf8_prefix_len(s, n + 1);
        lemma_encode_utf8_push(s.take(n), s[n]);
        assert(s.take(n + 1) == s.take(n).push(s[n]));
    } else {
        assert(s.take(n) == s);
    }
}

/// In normal mode `k` and the Up key do the same thing: they move the
/// selection up among the listed settings. From the listed setting at place
/// `p`, the selection lands on the one listed just before it, or on the last
/// listed one from the first.
pub proof fn lemma_up_keys(
    a: App,
    b: App,
    c: App,
    rb: NormalAction,
    rc: NormalAction,
    ctrl_b: bool,
    ctrl_c: bool,
    p: int,
)
    requires
        app_ready(a),
        0 <= p < visible_spec(a.settings@, a.filter@).len(),
        visible_spec(a.settings@, a.filter@)[p] == a.selected,
        normal_key_post(a, KeyInput { code: KeyCode::Char('k'), ctrl: ctrl_b }, b, rb),
        normal_key_post(a, KeyInput { code: KeyCode::Up, ctrl: ctrl_c }, c, rc),
    ensures
        b == c,
        rb == NormalAction::Continue,
        rc == NormalAction::Continue,
        b.selected == visible_spec(a.settings@, a.filter@)[if p > 0 {
            p - 1
        } else {
            visible_spec(a.settings@, a.filter@).len() - 1
        }],
        b.settings == a.settings,
        b.mode == a.mode,
{
    let vis = visible_spec(a.settings@, a.filter@);
    lemma_visible_upto(a.settings@, a.filter@, a.settings@.len() as int);
    lemma_position_at(vis, p);
}

/// In normal mode `j` and the Down key do the same thing: they move the
/// selection down among the listed settings. From the listed setting at
/// place `p`, the selection lands on the one listed just after it, or on the
/// first listed one from the last.
pub proof fn lemma_down_keys(
    a: App,
    b: App,
    c: App,
    rb: NormalAction,
    rc: NormalAction,
    ctrl_b: bool,
    ctrl_c: bool,
    p: int,
)
    requires
        app_ready(a),
        0 <= p < visible_spec(a.settings@, a.filter@).len(),
        visible_spec(a.settings@, a.filter@)[p] == a.selected,
        normal_key_post(a, KeyInput { code: KeyCode::Char('j'), ctrl: ctrl_b }, b, rb),
        normal_key_post(a, KeyInput { code: KeyCode::Down, ctrl: ctrl_c }, c, rc),
    ensures
        b == c,
        rb == NormalAction::Continue,
        rc == NormalAction::Continue,
        b.selected == visible_spec(a.settings@, a.filter@)[if p + 1 < visible_spec(
            a.settings@,
            a.filter@,
        ).len() {
            p + 1
        } else {
            0
        }],
        b.settings == a.settings,
        b.mode == a.mode,
{
    let vis = visible_spec(a.settings@, a.filter@);
    lemma_visible_upto(a.settings@, a.filter@, a.settings@.len() as int);
    lemma_position_at(vis, p);
    if p + 1 < vis.len() {
        assert((p + 1) % (vis.len() as int) == p + 1) by (nonlinear_arith)
            requires
                0 <= p + 1 < vis.len(),
        ;
    } else {
        assert((p + 1) % (vis.len() as int) == 0) by (nonlinear_arith)
            requires
                0 <= p,
                p + 1 == vis.len(),
        ;
    }
}

} // verus!
