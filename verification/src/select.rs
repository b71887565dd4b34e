//! The workspace selector: filters the workspace snapshot down to the
//! recording candidates and puts focused workspaces first.

use vstd::prelude::*;
use crate::workspace::{Config, Workspace};

verus! {

/// Whether `output` (an output name) occurs in the screen blacklist.
pub open spec fn screen_blacklisted(blacklist: Seq<String>, output: Seq<char>) -> bool {
    exists|i: int| 0 <= i < blacklist.len() && (#[trigger] blacklist[i])@ == output
}

/// Whether `num` (a workspace number) occurs in the workspace blacklist.
pub open spec fn num_blacklisted(blacklist: Seq<usize>, num: usize) -> bool {
    exists|i: int| 0 <= i < blacklist.len() && blacklist[i] == num
}

/// A workspace is a recording candidate iff it is visible, its output is not
/// blacklisted, and its number is not blacklisted.
pub open spec fn selectable(config: Config, w: Workspace) -> bool {
    w.visible && !screen_blacklisted(config.screen_blacklist@, w.output@) && !num_blacklisted(
        config.workspace_blacklist@,
        w.num,
    )
}

/// The candidates that are focused, as a filter predicate.
pub open spec fn keep_focused(config: Config) -> spec_fn(Workspace) -> bool {
    |w: Workspace| selectable(config, w) && w.focused
}

/// The candidates that are not focused, as a filter predicate.
pub open spec fn keep_unfocused(config: Config) -> spec_fn(Workspace) -> bool {
    |w: Workspace| selectable(config, w) && !w.focused
}

/// What `select` returns: the focused candidates, in snapshot order,
/// followed by the unfocused candidates, in snapshot order.
pub open spec fn selected(config: Config, ws: Seq<Workspace>) -> Seq<Workspace> {
    ws.filter(keep_focused(config)) + ws.filter(keep_unfocused(config))
}

/// The recording target the selector yields for a snapshot: the first
/// candidate's output name, or none when no candidate survives the filter.
pub open spec fn selected_target(config: Config, ws: Seq<Workspace>) -> Option<Seq<char>> {
    if selected(config, ws).len() > 0 {
        Option::Some(selected(config, ws)[0].output@)
    } else {
        Option::None
    }
}

fn screen_in_blacklist(blacklist: &Vec<String>, output: &String) -> (r: bool)
    ensures
        r == screen_blacklisted(blacklist@, output@),
{
    let mut i: usize = 0;
    while i < blacklist.len()
        invariant
            0 <= i <= blacklist@.len(),
            forall|k: int| 0 <= k < i ==> (#[trigger] blacklist@[k])@ != output@,
        decreases blacklist@.len() - i,
    {
        if blacklist[i] == *output {
            return true;
        }
        i = i + 1;
    }
    false
}

fn num_in_blacklist(blacklist: &Vec<usize>, num: usize) -> (r: bool)
    ensures
        r == num_blacklisted(blacklist@, num),
{
    let mut i: usize = 0;
    while i < blacklist.len()
        invariant
            0 <= i <= blacklist@.len(),
            forall|k: int| 0 <= k < i ==> blacklist@[k] != num,
        decreases blacklist@.len() - i,
    {
        if blacklist[i] == num {
            return true;
        }
        i = i + 1;
    }
    false
}

fn selectable_exec(config: &Config, w: &Workspace) -> (r: bool)
    ensures
        r == selectable(*config, *w),
{
    w.visible && !screen_in_blacklist(&config.screen_blacklist, &w.output) && !num_in_blacklist(
        &config.workspace_blacklist,
        w.num,
    )
}

/// Filters the workspace snapshot down to the visible, non-blacklisted
/// candidates and stably partitions them so that focused workspaces come
/// first; within each class the snapshot order is preserved. No returned
/// workspace has a blacklisted output or number, and if any focused
/// candidate survives the filter it stands first in the result.
pub fn select(config: &Config, workspaces: Vec<Workspace>) -> (r: Vec<Workspace>)
    ensures
        r@ == selected(*config, workspaces@),
        forall|i: int| 0 <= i < r@.len() ==> selectable(*config, #[trigger] r@[i]),
        (exists|i: int|
            0 <= i < workspaces@.len() && keep_focused(*config)(#[trigger] workspaces@[i]))
            ==> r@.len() > 0 && r@[0].focused,
{
    let ghost orig = workspaces@;
    let mut input = workspaces;
    let mut first: Vec<Workspace> = Vec::new();
    let mut rest: Vec<Workspace> = Vec::new();
    while input.len() > 0
        invariant
            input@.len() <= orig.len(),
            input@ == orig.skip(orig.len() - input@.len()),
            first@ == orig.take(orig.len() - input@.len()).filter(keep_focused(*config)),
            rest@ == orig.take(orig.len() - input@.len()).filter(keep_unfocused(*config)),
        decreases input@.len(),
    {
        let ghost k: int = orig.len() - input@.len();
        let w = input.remove(0);
        proof {
            assert(w == orig.skip(k)[0]);
            assert(w == orig[k]);
            assert(orig.skip(k).remove(0) =~= orig.skip(k + 1));
            assert(orig.take(k + 1) =~= orig.take(k).push(orig[k]));
            orig.take(k).lemma_filter_push(orig[k], keep_focused(*config));
            orig.take(k).lemma_filter_push(orig[k], keep_unfocused(*config));
        }
        let keep = selectable_exec(config, &w);
        if keep {
            if w.focused {
                first.push(w);
            } else {
                rest.push(w);
            }
        }
    }
    proof {
        assert(orig.take(orig.len() as int) =~= orig);
    }
    let mut result = first;
    result.append(&mut rest);
    proof {
        broadcast use vstd::seq_lib::group_filter_ensures;

        let f = orig.filter(keep_focused(*config));
        let u = orig.filter(keep_unfocused(*config));
        assert forall|i: int| 0 <= i < (f + u).len() implies selectable(
            *config,
            #[trigger] (f + u)[i],
        ) by {
            if i < f.len() {
                assert((f + u)[i] == f[i]);
                assert(keep_focused(*config)(f[i]));
            } else {
                assert((f + u)[i] == u[i - f.len()]);
                assert(keep_unfocused(*config)(u[i - f.len()]));
            }
        }
        if exists|i: int|
            0 <= i < orig.len() && keep_focused(*config)(#[trigger] orig[i]) {
            let i = choose|i: int| 0 <= i < orig.len() && keep_focused(*config)(#[trigger] orig[i]);
            assert(f.contains(orig[i]));
            assert(f.len() > 0);
            assert((f + u)[0] == f[0]);
            assert(keep_focused(*config)(f[0]));
        }
    }
    result
}

} // verus!
