//! Plain snapshots of compositor state: outputs, workspaces, and the
//! immutable configuration the selection runs under.

use vstd::prelude::*;
use crate::resolution::Resolution;

verus! {

/// Pixel geometry of an output or workspace.
#[derive(Clone, Copy, PartialEq, Eq, Structural, Debug)]
pub struct Rect {
    pub x: usize,
    pub y: usize,
    pub width: usize,
    pub height: usize,
}

/// The mode an output currently runs in; the refresh rate plays no part in
/// resolution identity.
#[derive(Clone, Copy, PartialEq, Eq, Structural, Debug)]
pub struct OutputMode {
    pub width: usize,
    pub height: usize,
    pub refresh: usize,
}

/// A physical display surface, as reported by the compositor.
#[derive(Debug, PartialEq, Eq)]
pub struct Output {
    pub name: String,
    pub rect: Rect,
    pub current_mode: OutputMode,
}

impl Output {
    /// The output's resolution: its current mode without the refresh rate.
    pub open spec fn resolution(self) -> Resolution {
        Resolution { width: self.current_mode.width, height: self.current_mode.height }
    }
}

impl Clone for Output {
    fn clone(&self) -> (r: Self)
        ensures
            r == *self,
    {
        Output { name: self.name.clone(), rect: self.rect, current_mode: self.current_mode }
    }
}

/// A logical grouping of windows bound to one output, with focus and
/// visibility flags, as reported by the compositor.
#[derive(Debug, PartialEq, Eq)]
pub struct Workspace {
    pub name: String,
    pub focus: Vec<usize>,
    pub output: String,
    pub focused: bool,
    pub rect: Rect,
    pub visible: bool,
    pub num: usize,
}

/// The configuration the core runs under, fixed after startup.
#[derive(Debug)]
pub struct Config {
    pub devices_from: usize,
    pub screen_blacklist: Vec<String>,
    pub workspace_blacklist: Vec<usize>,
    pub verbose: bool,
}

/// The structured error the core surfaces instead of crashing: a recording
/// target's output name is absent from a fresh output snapshot.
#[derive(Clone, Copy, PartialEq, Eq, Structural, Debug)]
pub enum CoreError {
    OutputNotFound,
}

/// The first output in the snapshot whose name is `name`, if any.
pub open spec fn find_output(outs: Seq<Output>, name: Seq<char>) -> Option<Output>
    decreases outs.len(),
{
    if outs.len() == 0 {
        None
    } else if outs[0].name@ == name {
        Some(outs[0])
    } else {
        find_output(outs.drop_first(), name)
    }
}

/// Searching a snapshot whose first `i` outputs do not match is the same as
/// searching from position `i` on.
proof fn lemma_find_output_skip(outs: Seq<Output>, name: Seq<char>, i: int)
    requires
        0 <= i <= outs.len(),
        forall|k: int| 0 <= k < i ==> (#[trigger] outs[k]).name@ != name,
    ensures
        find_output(outs, name) == find_output(outs.skip(i), name),
    decreases i,
{
    if i == 0 {
        assert(outs.skip(0) =~= outs);
    } else {
        lemma_find_output_skip(outs, name, i - 1);
        assert(outs.skip(i - 1)[0] == outs[i - 1]);
        assert(outs.skip(i - 1).drop_first() =~= outs.skip(i));
    }
}

/// A successful lookup returns an element of the snapshot.
pub proof fn lemma_find_output_element(outs: Seq<Output>, name: Seq<char>)
    requires
        find_output(outs, name) is Some,
    ensures
        exists|i: int| 0 <= i < outs.len() && outs[i] == find_output(outs, name).unwrap(),
    decreases outs.len(),
{
    if outs.len() > 0 && outs[0].name@ != name {
        lemma_find_output_element(outs.drop_first(), name);
        let i = choose|i: int|
            0 <= i < outs.drop_first().len() && outs.drop_first()[i] == find_output(
                outs.drop_first(),
                name,
            ).unwrap();
        assert(outs[i + 1] == outs.drop_first()[i]);
    }
}

/// Looks an output up by name in a fresh snapshot. Succeeds with the first
/// match iff some output carries the name; otherwise surfaces the lookup
/// error.
pub fn get_output(outputs: &Vec<Output>, name: &String) -> (r: Result<Output, CoreError>)
    ensures
        match r {
            Ok(o) => find_output(outputs@, name@) == Some(o),
            Err(e) => find_output(outputs@, name@) is None && e == CoreError::OutputNotFound,
        },
        r is Ok <==> exists|i: int| 0 <= i < outputs@.len() && (#[trigger] outputs@[i]).name@
            == name@,
{
    let mut i: usize = 0;
    while i < outputs.len()
        invariant
            0 <= i <= outputs@.len(),
            forall|k: int| 0 <= k < i ==> (#[trigger] outputs@[k]).name@ != name@,
        decreases outputs@.len() - i,
    {
        if outputs[i].name == *name {
            proof {
                lemma_find_output_skip(outputs@, name@, i as int);
                assert(outputs@.skip(i as int)[0] == outputs@[i as int]);
            }
            return Ok(outputs[i].clone());
        }
        i = i + 1;
    }
    proof {
        lemma_find_output_skip(outputs@, name@, outputs@.len() as int);
        assert(outputs@.skip(outputs@.len() as int) =~= Seq::<Output>::empty());
    }
    Err(CoreError::OutputNotFound)
}

} // verus!
