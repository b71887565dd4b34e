//! The device-allocation table: a stable mapping from each distinct observed
//! output resolution to a virtual capture device index.

use vstd::prelude::*;
use crate::resolution::Resolution;

verus! {

/// Maps each resolution that has been seen to a device index. The canonical
/// resolution sits at entry 0, bound to `devices_from`, for the lifetime of
/// the registry; every later distinct resolution is bound, exactly once, to
/// the next free index. Entries are never removed or reassigned.
#[derive(Debug, PartialEq, Eq)]
pub struct Registry {
    pub devices_from: usize,
    pub last_device_index: usize,
    pub entries: Vec<(Resolution, usize)>,
}

impl Registry {
    /// The table invariant: at least the canonical entry is present, indices
    /// run consecutively from `devices_from` in insertion order, and no
    /// resolution occurs twice.
    pub open spec fn wf(self) -> bool {
        &&& self.entries@.len() >= 1
        &&& self.last_device_index == self.devices_from + self.entries@.len() - 1
        &&& forall|i: int|
            0 <= i < self.entries@.len() ==> (#[trigger] self.entries@[i]).1 == self.devices_from
                + i
        &&& forall|i: int, j: int|
            0 <= i < j < self.entries@.len() ==> self.entries@[i].0 != self.entries@[j].0
    }

    /// The canonical resolution: the one bound to `devices_from`.
    pub open spec fn canonical(self) -> Resolution {
        self.entries@[0].0
    }

    /// Whether `r` already has a device index.
    pub open spec fn contains_res(self, r: Resolution) -> bool {
        exists|i: int| 0 <= i < self.entries@.len() && (#[trigger] self.entries@[i]).0 == r
    }

    /// The position of `r` in the table; meaningful only when
    /// `contains_res(r)` holds (positions are unique under `wf`).
    pub open spec fn position_of(self, r: Resolution) -> int {
        choose|i: int| 0 <= i < self.entries@.len() && (#[trigger] self.entries@[i]).0 == r
    }

    /// The device index bound to `r`; meaningful only when `contains_res(r)`.
    pub open spec fn index_of(self, r: Resolution) -> usize {
        self.entries@[self.position_of(r)].1
    }

    /// Builds the table from the startup resolution list: `resolutions[0]`
    /// (the canonical resolution) is bound to `devices_from`, and each later
    /// resolution to the next consecutive index.
    pub fn new(devices_from: usize, resolutions: &Vec<Resolution>) -> (reg: Registry)
        requires
            resolutions@.len() >= 1,
            forall|i: int, j: int|
                0 <= i < j < resolutions@.len() ==> resolutions@[i] != resolutions@[j],
            devices_from + resolutions@.len() - 1 <= usize::MAX,
        ensures
            reg.wf(),
            reg.devices_from == devices_from,
            reg.entries@.len() == resolutions@.len(),
            forall|i: int|
                0 <= i < resolutions@.len() ==> (#[trigger] reg.entries@[i]).0 == resolutions@[i],
            reg.canonical() == resolutions@[0],
    {
        let mut entries: Vec<(Resolution, usize)> = Vec::new();
        let mut i: usize = 0;
        while i < resolutions.len()
            invariant
                0 <= i <= resolutions@.len(),
                devices_from + resolutions@.len() - 1 <= usize::MAX,
                entries@.len() == i,
                forall|k: int|
                    0 <= k < i ==> (#[trigger] entries@[k]) == (
                    resolutions@[k],
                    (devices_from + k) as usize,
                ),
            decreases resolutions@.len() - i,
        {
            entries.push((resolutions[i], devices_from + i));
            i = i + 1;
        }
        Registry {
            devices_from,
            last_device_index: devices_from + (resolutions.len() - 1),
            entries,
        }
    }

    /// Returns the device index for `r`: the existing binding if `r` has been
    /// seen before, otherwise a fresh index one past the last assigned.
    pub fn allocate(&mut self, r: Resolution) -> (idx: usize)
        requires
            old(self).wf(),
            old(self).last_device_index < usize::MAX,
        ensures
            final(self).wf(),
            alloc_post(*old(self), r, *final(self), idx),
    {
        let n = self.entries.len();
        let mut i: usize = 0;
        while i < n
            invariant
                0 <= i <= n,
                n == self.entries@.len(),
                self == old(self),
                self.wf(),
                self.last_device_index < usize::MAX,
                forall|k: int| 0 <= k < i ==> (#[trigger] self.entries@[k]).0 != r,
            decreases n - i,
        {
            let entry = self.entries[i];
            if entry.0 == r {
                proof {
                    assert(self.contains_res(r));
                    let p = self.position_of(r);
                    assert(self.entries@[p].0 == r);
                    if p < i as int {
                        assert(self.entries@[p].0 != self.entries@[i as int].0);
                    } else if p > i as int {
                        assert(self.entries@[i as int].0 != self.entries@[p].0);
                    }
                    assert(p == i as int);
                }
                return entry.1;
            }
            i = i + 1;
        }
        let idx = self.last_device_index + 1;
        self.entries.push((r, idx));
        self.last_device_index = idx;
        proof {
            assert(!old(self).contains_res(r));
            assert(self.entries@[self.entries@.len() - 1].0 == r);
            assert(self.contains_res(r));
            let p = self.position_of(r);
            assert(self.entries@[p].0 == r);
            assert(forall|k: int|
                0 <= k < self.entries@.len() - 1 ==> (#[trigger] self.entries@[k])
                    == old(self).entries@[k]);
            if p < self.entries@.len() - 1 {
                assert(old(self).entries@[p].0 == r);
                assert(old(self).contains_res(r));
            }
            assert(p == self.entries@.len() - 1);
        }
        idx
    }
}

/// What `Registry::allocate` guarantees, relating the table before the call,
/// the table after it, and the returned index.
pub open spec fn alloc_post(pre: Registry, r: Resolution, post: Registry, idx: usize) -> bool {
    &&& post.devices_from == pre.devices_from
    &&& post.canonical() == pre.canonical()
    &&& (pre.contains_res(r) ==> post == pre && idx == pre.index_of(r))
    &&& (!pre.contains_res(r) ==> idx == pre.last_device_index + 1 && post.last_device_index == idx
        && post.entries@ == pre.entries@.push((r, idx)))
    &&& post.contains_res(r)
    &&& post.index_of(r) == idx
}

/// Allocation is idempotent: allocating a resolution a second time yields the
/// index the first call returned and leaves the table untouched.
pub proof fn lemma_allocate_idempotent(
    pre: Registry,
    r: Resolution,
    mid: Registry,
    idx1: usize,
    post: Registry,
    idx2: usize,
)
    requires
        alloc_post(pre, r, mid, idx1),
        alloc_post(mid, r, post, idx2),
    ensures
        idx2 == idx1,
        post == mid,
{
}

/// Distinct resolutions hold distinct, strictly increasing device indices:
/// the canonical resolution is bound to `devices_from`, and every other
/// resolution to a strictly larger index, consecutive in allocation order.
pub proof fn lemma_indices_strictly_increasing(reg: Registry)
    requires
        reg.wf(),
    ensures
        reg.entries@[0].1 == reg.devices_from,
        forall|i: int, j: int|
            0 <= i < j < reg.entries@.len() ==> reg.entries@[i].1 < reg.entries@[j].1,
        forall|i: int|
            1 <= i < reg.entries@.len() ==> (#[trigger] reg.entries@[i]).1 >= reg.devices_from + 1,
{
}

/// A resolution is bound to `devices_from` exactly when it is the canonical
/// resolution: the canonical binding is never reassigned.
pub proof fn lemma_devices_from_is_canonical(reg: Registry, r: Resolution)
    requires
        reg.wf(),
        reg.contains_res(r),
    ensures
        reg.index_of(r) == reg.devices_from <==> r == reg.canonical(),
{
    let p = reg.position_of(r);
    assert(reg.entries@[p].0 == r);
    if reg.index_of(r) == reg.devices_from {
        assert(p == 0);
    }
}

} // verus!
