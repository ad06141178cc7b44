//! The edits of a non-interactive run: a preset as the baseline, then the
//! explicit `--set` and `--unset` overrides.
use vstd::prelude::*;

use crate::app::{assign_var, models, same_entries, same_ui, App, SettingModel};
use crate::brew::pairs_view;

verus! {

/// The error for a variable that no setting has.
pub open spec fn unknown_var_message(var: Seq<char>) -> Seq<char> {
    "unknown variable: "@ + var
}

/// The preset entries `pairs` assigned in order to `ms`; an entry whose
/// variable is unknown is skipped. Returns the settings and the skipped
/// variables with their errors.
pub open spec fn preset_applied(ms: Seq<SettingModel>, pairs: Seq<(Seq<char>, Seq<char>)>) -> (
    Seq<SettingModel>,
    Seq<(Seq<char>, Seq<char>)>,
)
    decreases pairs.len(),
{
    if pairs.len() == 0 {
        (ms, Seq::empty())
    } else {
        let prev = preset_applied(ms, pairs.drop_last());
        let (var, raw) = pairs.last();
        match assign_var(prev.0, var, Some(raw)) {
            Some(m2) => (m2, prev.1),
            None => (prev.0, prev.1.push((var, unknown_var_message(var)))),
        }
    }
}

/// The edits assigned in order to `ms` until the first unknown variable.
/// Returns the settings reached and the error that stopped, if any.
pub open spec fn edits_applied(ms: Seq<SettingModel>, edits: Seq<(Seq<char>, Option<Seq<char>>)>) -> (
    Seq<SettingModel>,
    Option<Seq<char>>,
)
    decreases edits.len(),
{
    if edits.len() == 0 {
        (ms, None)
    } else {
        let prev = edits_applied(ms, edits.drop_last());
        if prev.1 is Some {
            prev
        } else {
            let (var, raw) = edits.last();
            match assign_var(prev.0, var, raw) {
                Some(m2) => (m2, None),
                None => (prev.0, Some(unknown_var_message(var))),
            }
        }
    }
}

/// The `--set` pairs followed by the `--unset` variables, as edits.
pub open spec fn batch_edits(sets: Seq<(String, String)>, unsets: Seq<String>) -> Seq<
    (Seq<char>, Option<Seq<char>>),
> {
    sets.map_values(|p: (String, String)| (p.0@, Some(p.1@))) + unsets.map_values(
        |v: String| (v@, None::<Seq<char>>),
    )
}

/// Applies a preset (entries with an unknown variable are skipped and
/// returned with their error), then every `--set`, then every `--unset`;
/// the first unknown variable among the latter stops with its error.
pub fn apply_batch_edits(
    app: &mut App,
    preset: &Vec<(String, String)>,
    sets: &Vec<(String, String)>,
    unsets: &Vec<String>,
) -> (r: (Vec<(String, String)>, Result<(), String>))
    ensures
        ({
            let base = preset_applied(models(old(app).settings@), pairs_view(preset@));
            let done = edits_applied(base.0, batch_edits(sets@, unsets@));
            &&& pairs_view(r.0@) == base.1
            &&& models(final(app).settings@) == done.0
            &&& match done.1 {
                Some(e) => r.1 matches Err(x) && x@ == e,
                None => r.1 is Ok,
            }
            &&& same_entries(old(app).settings@, final(app).settings@)
            &&& final(app).list_state == old(app).list_state
            &&& final(app).message == old(app).message
            &&& same_ui(*old(app), *final(app))
        }),
{
    let ghost m0 = models(app.settings@);
    let ghost pv = pairs_view(preset@);
    let mut skipped: Vec<(String, String)> = Vec::new();
    let mut i: usize = 0;
    assert(pairs_view(skipped@) == Seq::<(Seq<char>, Seq<char>)>::empty());
    assert(pv.take(0) == Seq::<(Seq<char>, Seq<char>)>::empty());
    while i < preset.len()
        invariant
            i <= preset@.len(),
            pv == pairs_view(preset@),
            m0 == models(old(app).settings@),
            models(app.settings@) == preset_applied(m0, pv.take(i as int)).0,
            pairs_view(skipped@) == preset_applied(m0, pv.take(i as int)).1,
            same_entries(old(app).settings@, app.settings@),
            app.list_state == old(app).list_state,
            app.message == old(app).message,
            same_ui(*old(app), *app),
        decreases preset.len() - i,
    {
        assert(pv.take(i + 1).drop_last() == pv.take(i as int));
        assert(pv.take(i + 1).last() == pv[i as int]);
        let var = &preset[i].0;
        let value = preset[i].1.clone();
        match app.set_var(var.as_str(), Some(value)) {
            Ok(()) => {},
            Err(e) => {
                skipped.push((var.clone(), e));
                assert(pairs_view(skipped@) == preset_applied(m0, pv.take(i + 1)).1);
            },
        }
        i += 1;
    }
    assert(pv.take(preset@.len() as int) == pv);
    let ghost m1 = models(app.settings@);
    let ghost edits = batch_edits(sets@, unsets@);
    let ghost ns = sets@.len();
    let mut j: usize = 0;
    while j < sets.len()
        invariant
            j <= sets@.len(),
            ns == sets@.len(),
            edits == batch_edits(sets@, unsets@),
            m1 == preset_applied(m0, pv).0,
            m0 == models(old(app).settings@),
            pv == pairs_view(preset@),
            pairs_view(skipped@) == preset_applied(m0, pv).1,
            models(app.settings@) == edits_applied(m1, edits.take(j as int)).0,
            edits_applied(m1, edits.take(j as int)).1 is None,
            same_entries(old(app).settings@, app.settings@),
            app.list_state == old(app).list_state,
            app.message == old(app).message,
            same_ui(*old(app), *app),
        decreases sets.len() - j,
    {
        assert(edits.take(j + 1).drop_last() == edits.take(j as int));
        assert(edits.take(j + 1).last() == edits[j as int]);
        assert(edits[j as int] == (sets@[j as int].0@, Some(sets@[j as int].1@)));
        let value = sets[j].1.clone();
        match app.set_var(sets[j].0.as_str(), Some(value)) {
            Ok(()) => {},
            Err(e) => {
                proof {
                    assert(edits_applied(m1, edits.take(j + 1)).1 == Some(
                        unknown_var_message(sets@[j as int].0@),
                    ));
                    lemma_edits_stop(m1, edits, j as int + 1);
                }
                return (skipped, Err(e));
            },
        }
        j += 1;
    }
    let mut k: usize = 0;
    while k < unsets.len()
        invariant
            k <= unsets@.len(),
            ns == sets@.len(),
            edits == batch_edits(sets@, unsets@),
            edits.len() == ns + unsets@.len(),
            m1 == preset_applied(m0, pv).0,
            m0 == models(old(app).settings@),
            pv == pairs_view(preset@),
            pairs_view(skipped@) == preset_applied(m0, pv).1,
            models(app.settings@) == edits_applied(m1, edits.take(ns + k)).0,
            edits_applied(m1, edits.take(ns + k)).1 is None,
            same_entries(old(app).settings@, app.settings@),
            app.list_state == old(app).list_state,
            app.message == old(app).message,
            same_ui(*old(app), *app),
        decreases unsets.len() - k,
    {
        assert(edits.take(ns + k + 1).drop_last() == edits.take(ns + k));
        assert(edits.take(ns + k + 1).last() == edits[ns + k]);
        assert(edits[ns + k] == (unsets@[k as int]@, None::<Seq<char>>));
        match app.set_var(unsets[k].as_str(), None) {
            Ok(()) => {},
            Err(e) => {
                proof {
                    assert(edits_applied(m1, edits.take(ns + k + 1)).1 == Some(
                        unknown_var_message(unsets@[k as int]@),
                    ));
                    lemma_edits_stop(m1, edits, ns + k + 1);
                }
                return (skipped, Err(e));
            },
        }
        k += 1;
    }
    assert(edits.take((ns + unsets@.len()) as int) == edits);
    (skipped, Ok(()))
}

/// Once an edit fails, the later edits change nothing and the error stays.
proof fn lemma_edits_stop(ms: Seq<SettingModel>, edits: Seq<(Seq<char>, Option<Seq<char>>)>, n: int)
    requires
        0 <= n <= edits.len(),
        edits_applied(ms, edits.take(n)).1 is Some,
    ensures
        edits_applied(ms, edits) == edits_applied(ms, edits.take(n)),
    decreases edits.len() - n,
{
    if n < edits.len() {
        assert(edits.take(n + 1).drop_last() == edits.take(n));
        lemma_edits_stop(ms, edits, n + 1);
    } else {
        assert(edits.take(n) == edits);
    }
}

} // verus!
