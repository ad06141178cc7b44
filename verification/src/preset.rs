//! The content of a preset: the non-default settings keyed by variable.
use vstd::prelude::*;

use crate::app::{
    bool_from_env, exported_raw_spec, lemma_export_then_read, num_from_env, str_from_env, App,
    Setting, SettingKind,
};
use crate::config::{export_line, lemma_block_agrees_with_preset};
use crate::brew::pairs_view;

verus! {

/// The (variable, raw value) pairs of the settings of `ss` that differ from
/// their Homebrew defaults, in order.
pub open spec fn preset_pairs(ss: Seq<Setting>) -> Seq<(Seq<char>, Seq<char>)>
    decreases ss.len(),
{
    if ss.len() == 0 {
        Seq::empty()
    } else {
        let prev = preset_pairs(ss.drop_last());
        match exported_raw_spec(ss.last()) {
            Some(raw) => prev.push((ss.last().env_var@, raw)),
            None => prev,
        }
    }
}

/// The entries of a preset of `app`: each non-default setting's variable and
/// the raw value that reproduces it, in catalogue order.
pub fn preset_entries(app: &App) -> (r: Vec<(String, String)>)
    ensures
        pairs_view(r@) == preset_pairs(app.settings@),
{
    let mut r: Vec<(String, String)> = Vec::new();
    let n = app.settings.len();
    let mut i: usize = 0;
    assert(pairs_view(r@) == Seq::<(Seq<char>, Seq<char>)>::empty());
    while i < n
        invariant
            i <= n,
            n == app.settings@.len(),
            pairs_view(r@) == preset_pairs(app.settings@.take(i as int)),
        decreases n - i,
    {
        let s = &app.settings[i];
        assert(app.settings@.take(i + 1).drop_last() == app.settings@.take(i as int));
        assert(app.settings@.take(i + 1).last() == *s);
        match s.exported_raw() {
            Some(raw) => {
                let var = s.env_var.to_owned();
                r.push((var, raw));
                assert(pairs_view(r@) == preset_pairs(app.settings@.take(i + 1)));
            },
            None => {},
        }
        i += 1;
    }
    assert(app.settings@.take(n as int) == app.settings@);
    r
}

/// A (variable, raw value) pair is in the preset of `ss` exactly when some
/// setting of `ss` has that variable and exports that raw value: every
/// non-default setting, of whatever kind, is in the preset, and nothing else.
pub proof fn lemma_preset_members(ss: Seq<Setting>, var: Seq<char>, raw: Seq<char>)
    ensures
        preset_pairs(ss).contains((var, raw)) <==> exists|i: int|
            0 <= i < ss.len() && (#[trigger] ss[i]).env_var@ == var && exported_raw_spec(ss[i])
                == Some(raw),
    decreases ss.len(),
{
    if ss.len() > 0 {
        let prev = ss.drop_last();
        lemma_preset_members(prev, var, raw);
        let pp = preset_pairs(prev);
        let p = preset_pairs(ss);
        if p.contains((var, raw)) {
            let j = choose|j: int| 0 <= j < p.len() && p[j] == (var, raw);
            if j < pp.len() {
                assert(pp[j] == p[j]);
                let i = choose|i: int|
                    0 <= i < prev.len() && (#[trigger] prev[i]).env_var@ == var
                        && exported_raw_spec(prev[i]) == Some(raw);
                assert(prev[i] == ss[i]);
            } else {
                assert(ss[ss.len() - 1] == ss.last());
            }
        }
        if exists|i: int|
            0 <= i < ss.len() && (#[trigger] ss[i]).env_var@ == var && exported_raw_spec(ss[i])
                == Some(raw) {
            let i = choose|i: int|
                0 <= i < ss.len() && (#[trigger] ss[i]).env_var@ == var && exported_raw_spec(ss[i])
                    == Some(raw);
            if i < prev.len() {
                assert(prev[i] == ss[i]);
                let j = choose|j: int| 0 <= j < pp.len() && pp[j] == (var, raw);
                assert(p[j] == pp[j]);
            } else {
                assert(ss[i] == ss.last());
                assert(p[p.len() - 1] == (var, raw));
            }
        }
    }
}

/// Every setting that the block exports is in the preset with the raw value
/// that reads back as the setting's value, so importing the preset
/// reproduces it.
pub proof fn lemma_preset_has_every_export(ss: Seq<Setting>, i: int)
    requires
        0 <= i < ss.len(),
        export_line(ss[i]) is Some,
    ensures
        exported_raw_spec(ss[i]) is Some,
        preset_pairs(ss).contains((ss[i].env_var@, exported_raw_spec(ss[i])->0)),
        match ss[i].kind {
            SettingKind::Bool { inverted } => bool_from_env(inverted, exported_raw_spec(ss[i]))
                == ss[i].bool_val,
            SettingKind::Str => str_from_env(exported_raw_spec(ss[i])) == ss[i].str_val@,
            SettingKind::Num => num_from_env(exported_raw_spec(ss[i])) == ss[i].num_val,
        },
{
    lemma_block_agrees_with_preset(ss[i]);
    lemma_export_then_read(ss[i]);
    lemma_preset_members(ss, ss[i].env_var@, exported_raw_spec(ss[i])->0);
}

} // verus!
