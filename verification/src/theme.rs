//! Colour palettes for the interface.
use vstd::prelude::*;

use crate::text::{from_chars, push_str, str_eq};

verus! {

/// A 24-bit colour.
#[derive(Debug, Clone, Copy, PartialEq, Eq, Structural)]
pub struct Rgb {
    pub r: u8,
    pub g: u8,
    pub b: u8,
}

/// A colour palette for the whole interface.
#[derive(Debug, Clone, Copy)]
pub struct Theme {
    pub name: &'static str,
    /// Titles and the selection pointer.
    pub primary: Rgb,
    /// Borders and values.
    pub accent: Rgb,
    /// Enabled features.
    pub on: Rgb,
    /// Disabled features and dim labels.
    pub off: Rgb,
    /// The modified marker and the profile path.
    pub modified: Rgb,
    /// Category headers.
    pub category: Rgb,
    /// Background.
    pub bg: Rgb,
    /// Background of the selected row.
    pub selected_bg: Rgb,
    /// Error messages.
    pub error: Rgb,
    /// Warnings, such as a missing path.
    pub warning: Rgb,
    /// Primary text.
    pub text: Rgb,
    /// Secondary text.
    pub text_dim: Rgb,
}

/// The palettes, in order; the first is the default.
pub open spec fn theme_table() -> Seq<Theme> {
    seq![
        Theme {
            name: "brew",
            primary: Rgb { r: 255, g: 180, b: 0 },
            accent: Rgb { r: 230, g: 120, b: 0 },
            on: Rgb { r: 80, g: 200, b: 120 },
            off: Rgb { r: 120, g: 120, b: 130 },
            modified: Rgb { r: 100, g: 180, b: 255 },
            category: Rgb { r: 180, g: 140, b: 255 },
            bg: Rgb { r: 22, g: 22, b: 32 },
            selected_bg: Rgb { r: 40, g: 40, b: 55 },
            error: Rgb { r: 230, g: 90, b: 90 },
            warning: Rgb { r: 230, g: 160, b: 60 },
            text: Rgb { r: 235, g: 235, b: 240 },
            text_dim: Rgb { r: 150, g: 150, b: 160 },
        },
        Theme {
            name: "midnight",
            primary: Rgb { r: 120, g: 180, b: 255 },
            accent: Rgb { r: 90, g: 140, b: 230 },
            on: Rgb { r: 90, g: 210, b: 160 },
            off: Rgb { r: 100, g: 110, b: 130 },
            modified: Rgb { r: 180, g: 150, b: 255 },
            category: Rgb { r: 130, g: 200, b: 255 },
            bg: Rgb { r: 16, g: 18, b: 28 },
            selected_bg: Rgb { r: 32, g: 38, b: 58 },
            error: Rgb { r: 235, g: 100, b: 110 },
            warning: Rgb { r: 235, g: 180, b: 90 },
            text: Rgb { r: 230, g: 235, b: 245 },
            text_dim: Rgb { r: 150, g: 160, b: 180 },
        },
        Theme {
            name: "forest",
            primary: Rgb { r: 150, g: 220, b: 120 },
            accent: Rgb { r: 90, g: 170, b: 90 },
            on: Rgb { r: 120, g: 220, b: 140 },
            off: Rgb { r: 110, g: 125, b: 110 },
            modified: Rgb { r: 205, g: 200, b: 120 },
            category: Rgb { r: 120, g: 200, b: 180 },
            bg: Rgb { r: 18, g: 24, b: 20 },
            selected_bg: Rgb { r: 32, g: 46, b: 36 },
            error: Rgb { r: 230, g: 120, b: 100 },
            warning: Rgb { r: 220, g: 190, b: 100 },
            text: Rgb { r: 225, g: 235, b: 220 },
            text_dim: Rgb { r: 150, g: 170, b: 150 },
        },
        Theme {
            name: "rose",
            primary: Rgb { r: 255, g: 150, b: 200 },
            accent: Rgb { r: 230, g: 110, b: 160 },
            on: Rgb { r: 150, g: 210, b: 170 },
            off: Rgb { r: 160, g: 125, b: 145 },
            modified: Rgb { r: 200, g: 160, b: 255 },
            category: Rgb { r: 240, g: 160, b: 230 },
            bg: Rgb { r: 28, g: 18, b: 26 },
            selected_bg: Rgb { r: 52, g: 34, b: 48 },
            error: Rgb { r: 240, g: 110, b: 120 },
            warning: Rgb { r: 240, g: 180, b: 120 },
            text: Rgb { r: 245, g: 225, b: 240 },
            text_dim: Rgb { r: 195, g: 165, b: 185 },
        },
        Theme {
            name: "mono",
            primary: Rgb { r: 235, g: 235, b: 235 },
            accent: Rgb { r: 175, g: 175, b: 175 },
            on: Rgb { r: 205, g: 205, b: 205 },
            off: Rgb { r: 110, g: 110, b: 110 },
            modified: Rgb { r: 160, g: 160, b: 160 },
            category: Rgb { r: 200, g: 200, b: 200 },
            bg: Rgb { r: 20, g: 20, b: 20 },
            selected_bg: Rgb { r: 44, g: 44, b: 44 },
            error: Rgb { r: 220, g: 120, b: 120 },
            warning: Rgb { r: 220, g: 190, b: 120 },
            text: Rgb { r: 245, g: 245, b: 245 },
            text_dim: Rgb { r: 150, g: 150, b: 150 },
        },
    ]
}

/// The names of the palettes, in order.
pub open spec fn theme_names() -> Seq<Seq<char>> {
    theme_table().map_values(|t: Theme| t.name@)
}

/// The first index of `x` in `ls`.
pub open spec fn index_in(ls: Seq<Seq<char>>, x: Seq<char>) -> Option<int>
    decreases ls.len(),
{
    if ls.len() == 0 {
        None
    } else if ls[0] == x {
        Some(0)
    } else {
        match index_in(ls.drop_first(), x) {
            Some(i) => Some(i + 1),
            None => None,
        }
    }
}

/// The strings of `ls` separated by `sep`.
pub open spec fn join(ls: Seq<Seq<char>>, sep: Seq<char>) -> Seq<char>
    decreases ls.len(),
{
    if ls.len() == 0 {
        Seq::empty()
    } else if ls.len() == 1 {
        ls[0]
    } else {
        join(ls.drop_last(), sep) + sep + ls.last()
    }
}

/// All available palettes; the first one is the default.
pub fn themes() -> (v: Vec<Theme>)
    ensures
        v@ == theme_table(),
{
    vec![
        Theme {
            name: "brew",
            primary: Rgb { r: 255, g: 180, b: 0 },
            accent: Rgb { r: 230, g: 120, b: 0 },
            on: Rgb { r: 80, g: 200, b: 120 },
            off: Rgb { r: 120, g: 120, b: 130 },
            modified: Rgb { r: 100, g: 180, b: 255 },
            category: Rgb { r: 180, g: 140, b: 255 },
            bg: Rgb { r: 22, g: 22, b: 32 },
            selected_bg: Rgb { r: 40, g: 40, b: 55 },
            error: Rgb { r: 230, g: 90, b: 90 },
            warning: Rgb { r: 230, g: 160, b: 60 },
            text: Rgb { r: 235, g: 235, b: 240 },
            text_dim: Rgb { r: 150, g: 150, b: 160 },
        },
        Theme {
            name: "midnight",
            primary: Rgb { r: 120, g: 180, b: 255 },
            accent: Rgb { r: 90, g: 140, b: 230 },
            on: Rgb { r: 90, g: 210, b: 160 },
            off: Rgb { r: 100, g: 110, b: 130 },
            modified: Rgb { r: 180, g: 150, b: 255 },
            category: Rgb { r: 130, g: 200, b: 255 },
            bg: Rgb { r: 16, g: 18, b: 28 },
            selected_bg: Rgb { r: 32, g: 38, b: 58 },
            error: Rgb { r: 235, g: 100, b: 110 },
            warning: Rgb { r: 235, g: 180, b: 90 },
            text: Rgb { r: 230, g: 235, b: 245 },
            text_dim: Rgb { r: 150, g: 160, b: 180 },
        },
        Theme {
            name: "forest",
            primary: Rgb { r: 150, g: 220, b: 120 },
            accent: Rgb { r: 90, g: 170, b: 90 },
            on: Rgb { r: 120, g: 220, b: 140 },
            off: Rgb { r: 110, g: 125, b: 110 },
            modified: Rgb { r: 205, g: 200, b: 120 },
            category: Rgb { r: 120, g: 200, b: 180 },
            bg: Rgb { r: 18, g: 24, b: 20 },
            selected_bg: Rgb { r: 32, g: 46, b: 36 },
            error: Rgb { r: 230, g: 120, b: 100 },
            warning: Rgb { r: 220, g: 190, b: 100 },
            text: Rgb { r: 225, g: 235, b: 220 },
            text_dim: Rgb { r: 150, g: 170, b: 150 },
        },
        Theme {
            name: "rose",
            primary: Rgb { r: 255, g: 150, b: 200 },
            accent: Rgb { r: 230, g: 110, b: 160 },
            on: Rgb { r: 150, g: 210, b: 170 },
            off: Rgb { r: 160, g: 125, b: 145 },
            modified: Rgb { r: 200, g: 160, b: 255 },
            category: Rgb { r: 240, g: 160, b: 230 },
            bg: Rgb { r: 28, g: 18, b: 26 },
            selected_bg: Rgb { r: 52, g: 34, b: 48 },
            error: Rgb { r: 240, g: 110, b: 120 },
            warning: Rgb { r: 240, g: 180, b: 120 },
            text: Rgb { r: 245, g: 225, b: 240 },
            text_dim: Rgb { r: 195, g: 165, b: 185 },
        },
        Theme {
            name: "mono",
            primary: Rgb { r: 235, g: 235, b: 235 },
            accent: Rgb { r: 175, g: 175, b: 175 },
            on: Rgb { r: 205, g: 205, b: 205 },
            off: Rgb { r: 110, g: 110, b: 110 },
            modified: Rgb { r: 160, g: 160, b: 160 },
            category: Rgb { r: 200, g: 200, b: 200 },
            bg: Rgb { r: 20, g: 20, b: 20 },
            selected_bg: Rgb { r: 44, g: 44, b: 44 },
            error: Rgb { r: 220, g: 120, b: 120 },
            warning: Rgb { r: 220, g: 190, b: 120 },
            text: Rgb { r: 245, g: 245, b: 245 },
            text_dim: Rgb { r: 150, g: 150, b: 150 },
        },
    ]
}

/// `index_in` finds the first place of `x`.
pub proof fn lemma_index_in(ls: Seq<Seq<char>>, x: Seq<char>, k: int)
    requires
        0 <= k <= ls.len(),
        forall|j: int| 0 <= j < k ==> ls[j] != x,
        k < ls.len() ==> ls[k] == x,
    ensures
        index_in(ls, x) == (if k < ls.len() {
            Some(k)
        } else {
            None
        }),
    decreases ls.len(),
{
    if ls.len() > 0 && ls[0] != x {
        assert forall|j: int| 0 <= j < k - 1 implies ls.drop_first()[j] != x by {
            assert(ls.drop_first()[j] == ls[j + 1]);
        }
        lemma_index_in(ls.drop_first(), x, k - 1);
    }
}

/// The index of the palette called `name`, if any.
pub fn index_of(name: &str) -> (r: Option<usize>)
    ensures
        match r {
            Some(k) => index_in(theme_names(), name@) == Some(k as int),
            None => index_in(theme_names(), name@) is None,
        },
{
    let ts = themes();
    let mut i: usize = 0;
    while i < ts.len()
        invariant
            i <= ts@.len(),
            ts@ == theme_table(),
            forall|j: int| 0 <= j < i ==> theme_names()[j] != name@,
        decreases ts.len() - i,
    {
        if str_eq(ts[i].name, name) {
            proof {
                lemma_index_in(theme_names(), name@, i as int);
            }
            return Some(i);
        }
        i += 1;
    }
    proof {
        lemma_index_in(theme_names(), name@, i as int);
    }
    None
}

/// The palette names separated by commas, for help text and error messages.
pub fn names() -> (r: String)
    ensures
        r@ == join(theme_names(), ", "@),
{
    let ts = themes();
    let mut out: Vec<char> = Vec::new();
    let mut i: usize = 0;
    while i < ts.len()
        invariant
            i <= ts@.len(),
            ts@ == theme_table(),
            out@ == join(theme_names().take(i as int), ", "@),
        decreases ts.len() - i,
    {
        let ghost ns = theme_names().take(i + 1);
        assert(ns.drop_last() == theme_names().take(i as int));
        if i > 0 {
            push_str(&mut out, ", ");
        }
        push_str(&mut out, ts[i].name);
        proof {
            if i == 0 {
                assert(out@ == ns[0]);
            }
        }
        i += 1;
    }
    assert(theme_names().take(ts@.len() as int) == theme_names());
    from_chars(&out)
}

/// The palette index that `--theme name` selects, or the error that lists
/// the available names when `name` is none of them.
pub fn resolve_theme(name: &str) -> (r: Result<usize, String>)
    ensures
        match index_in(theme_names(), name@) {
            Some(i) => r == Ok::<usize, String>(i as usize),
            None => r matches Err(e) && e@ == "unknown theme '"@ + name@ + "'. Available: "@
                + join(theme_names(), ", "@),
        },
{
    proof {
        lemma_index_in_bound(theme_names(), name@);
    }
    match index_of(name) {
        Some(i) => Ok(i),
        None => {
            let mut m: Vec<char> = Vec::new();
            push_str(&mut m, "unknown theme '");
            push_str(&mut m, name);
            push_str(&mut m, "'. Available: ");
            let all = names();
            push_str(&mut m, all.as_str());
            Err(from_chars(&m))
        },
    }
}

/// What `index_in` finds is a place of `x` in `ls`.
pub proof fn lemma_index_in_bound(ls: Seq<Seq<char>>, x: Seq<char>)
    ensures
        index_in(ls, x) matches Some(i) ==> 0 <= i < ls.len() && ls[i] == x,
    decreases ls.len(),
{
    if ls.len() > 0 && ls[0] != x {
        lemma_index_in_bound(ls.drop_first(), x);
    }
}

/// No two palettes share a name, so each name finds its own palette.
pub proof fn lemma_theme_names_unique()
    ensures
        forall|i: int, j: int|
            0 <= i < theme_names().len() && 0 <= j < theme_names().len() && i != j
                ==> theme_names()[i] != theme_names()[j],
        forall|i: int|
            0 <= i < theme_names().len() ==> index_in(theme_names(), #[trigger] theme_names()[i])
                == Some(i),
{
    reveal_strlit("brew");
    reveal_strlit("midnight");
    reveal_strlit("forest");
    reveal_strlit("rose");
    reveal_strlit("mono");
    let ns = theme_names();
    assert(ns.len() == 5);
    assert(ns[0] == "brew"@);
    assert(ns[1] == "midnight"@);
    assert(ns[2] == "forest"@);
    assert(ns[3] == "rose"@);
    assert(ns[4] == "mono"@);
    assert forall|i: int, j: int|
        0 <= i < ns.len() && 0 <= j < ns.len() && i != j implies ns[i] != ns[j] by {
        if ns[i] == ns[j] {
            assert(ns[i][0] == ns[j][0]);
            assert(ns[i].len() == ns[j].len());
            assert(ns[i][1] == ns[j][1]);
        }
    }
    assert forall|i: int| 0 <= i < ns.len() implies index_in(ns, #[trigger] ns[i]) == Some(i) by {
        lemma_index_in(ns, ns[i], i);
    }
}

} // verus!
