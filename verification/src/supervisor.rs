//! The pipeline supervisor and event step: describes the capture processes
//! that should run for a target and decides, on each focus-change
//! notification, whether and how to swap the running pipeline.

use vstd::prelude::*;
use crate::registry::{alloc_post, Registry};
use crate::resolution::{
    canonical_spec, dedup_first, get_resolutions, lemma_dedup_first_elements,
    resolution_table_spec, Resolution,
};
use crate::select::{select, selected_target};
use crate::workspace::{
    find_output, get_output, lemma_find_output_element, Config, CoreError, Output, Workspace,
};

verus! {

/// A process the supervisor owns, as plain data. The layer around the
/// library turns each description into an actual child process.
#[derive(Debug, PartialEq, Eq, Clone)]
pub enum ProcessSpec {
    /// A generator writing a fixed-framerate solid-black raw stream at the
    /// given (canonical) resolution into `/dev/video<device>`.
    BlackSource { width: usize, height: usize, device: usize },
    /// The primary capture of the named output into `/dev/video<device>`.
    Capture { output: String, device: usize },
    /// A scaler reading `/dev/video<src_device>`, scaling with preserved
    /// aspect ratio to fit `width`×`height`, letterboxing the remainder
    /// black, and writing into `/dev/video<dst_device>`.
    Scaler { src_device: usize, dst_device: usize, width: usize, height: usize },
}

/// The currently live pipeline: its recording target (none while the black
/// fallback runs) and the processes it exclusively owns.
#[derive(Debug, PartialEq, Eq)]
pub struct ActivePipeline {
    pub target: Option<String>,
    pub processes: Vec<ProcessSpec>,
}

/// The single process of the black fallback pipeline: a black stream at the
/// canonical resolution into the canonical device.
pub open spec fn black_plan_spec(reg: Registry) -> Seq<ProcessSpec> {
    seq![
        ProcessSpec::BlackSource {
            width: reg.canonical().width,
            height: reg.canonical().height,
            device: reg.devices_from,
        },
    ]
}

/// The processes recording output `o` through device `device`: the primary
/// capture, plus a scaler into the canonical device whenever `device` is not
/// the canonical device itself.
pub open spec fn record_plan_spec(reg: Registry, o: Output, device: usize) -> Seq<ProcessSpec> {
    let capture = ProcessSpec::Capture { output: o.name, device };
    if device == reg.devices_from {
        seq![capture]
    } else {
        seq![
            capture,
            ProcessSpec::Scaler {
                src_device: device,
                dst_device: reg.devices_from,
                width: reg.canonical().width,
                height: reg.canonical().height,
            },
        ]
    }
}

/// Describes the black fallback pipeline for the current canonical
/// resolution and device.
pub fn black_plan(registry: &Registry) -> (r: Vec<ProcessSpec>)
    requires
        registry.wf(),
    ensures
        r@ == black_plan_spec(*registry),
{
    let canonical = registry.entries[0].0;
    let mut v: Vec<ProcessSpec> = Vec::new();
    v.push(
        ProcessSpec::BlackSource {
            width: canonical.width,
            height: canonical.height,
            device: registry.devices_from,
        },
    );
    v
}

/// Describes the recording pipeline for `output`, allocating (or reusing)
/// the device bound to its resolution. A scaler into the canonical device is
/// included exactly when the output's resolution is not the canonical one.
pub fn record_plan(registry: &mut Registry, output: &Output) -> (r: Vec<ProcessSpec>)
    requires
        old(registry).wf(),
        old(registry).last_device_index < usize::MAX,
    ensures
        final(registry).wf(),
        alloc_post(
            *old(registry),
            output.resolution(),
            *final(registry),
            final(registry).index_of(output.resolution()),
        ),
        r@ == record_plan_spec(
            *final(registry),
            *output,
            final(registry).index_of(output.resolution()),
        ),
        r@.len() == 1 <==> output.resolution() == old(registry).canonical(),
{
    let resolution = Resolution {
        width: output.current_mode.width,
        height: output.current_mode.height,
    };
    let device = registry.allocate(resolution);
    let mut v: Vec<ProcessSpec> = Vec::new();
    v.push(ProcessSpec::Capture { output: output.name.clone(), device });
    if device != registry.devices_from {
        let canonical = registry.entries[0].0;
        v.push(
            ProcessSpec::Scaler {
                src_device: device,
                dst_device: registry.devices_from,
                width: canonical.width,
                height: canonical.height,
            },
        );
    }
    proof {
        crate::registry::lemma_devices_from_is_canonical(*registry, resolution);
    }
    v
}

/// A target as a plain value: the recorded output's name, or none for the
/// black fallback.
pub open spec fn target_view(t: Option<String>) -> Option<Seq<char>> {
    match t {
        Option::None => Option::None,
        Option::Some(s) => Option::Some(s@),
    }
}

fn same_target(a: &Option<String>, b: &Option<String>) -> (r: bool)
    ensures
        r == (target_view(*a) == target_view(*b)),
{
    match (a, b) {
        (Option::None, Option::None) => true,
        (Option::Some(x), Option::Some(y)) => *x == *y,
        _ => false,
    }
}

/// Whether `p` is exactly the pipeline that should run for its own target,
/// judged against registry `reg` and output snapshot `outs`: the black
/// fallback when there is no target, else the recording pipeline of the
/// target output, whose resolution is bound in the registry.
pub open spec fn pipeline_matches(reg: Registry, outs: Seq<Output>, p: ActivePipeline) -> bool {
    match p.target {
        Option::None => p.processes@ == black_plan_spec(reg),
        Option::Some(name) => {
            &&& find_output(outs, name@) is Some
            &&& {
                let o = find_output(outs, name@).unwrap();
                let device = reg.index_of(o.resolution());
                &&& reg.contains_res(o.resolution())
                &&& p.processes@ == record_plan_spec(reg, o, device)
                &&& (p.processes@.len() == 1 <==> o.resolution() == reg.canonical())
            }
        },
    }
}

/// Builds the pipeline for `target`: the black fallback when there is none,
/// else the recording pipeline of the named output, allocating the device
/// for its resolution. Fails, leaving the registry untouched, exactly when
/// the named output is absent from the snapshot.
pub fn build_for_target(registry: &mut Registry, target: Option<String>, outputs: &Vec<Output>) -> (r:
    Result<ActivePipeline, CoreError>)
    requires
        old(registry).wf(),
        old(registry).last_device_index < usize::MAX,
    ensures
        final(registry).wf(),
        final(registry).devices_from == old(registry).devices_from,
        final(registry).canonical() == old(registry).canonical(),
        match r {
            Ok(p) => {
                &&& p.target == target
                &&& pipeline_matches(*final(registry), outputs@, p)
                &&& (target is None ==> *final(registry) == *old(registry))
                &&& (target is Some ==> alloc_post(
                    *old(registry),
                    find_output(outputs@, target.unwrap()@).unwrap().resolution(),
                    *final(registry),
                    final(registry).index_of(
                        find_output(outputs@, target.unwrap()@).unwrap().resolution(),
                    ),
                ))
            },
            Err(e) => {
                &&& *final(registry) == *old(registry)
                &&& e == CoreError::OutputNotFound
                &&& target is Some
                &&& find_output(outputs@, target.unwrap()@) is None
            },
        },
        r is Err <==> target is Some && find_output(outputs@, target.unwrap()@) is None,
{
    match target {
        Option::None => {
            let procs = black_plan(registry);
            Ok(ActivePipeline { target: Option::None, processes: procs })
        },
        Option::Some(name) => {
            match get_output(outputs, &name) {
                Ok(o) => {
                    let procs = record_plan(registry, &o);
                    proof {
                        assert(find_output(outputs@, name@).unwrap() == o);
                    }
                    Ok(ActivePipeline { target: Option::Some(name), processes: procs })
                },
                Err(e) => Err(e),
            }
        },
    }
}

/// What an event step asks the layer around the library to do.
#[derive(Debug, PartialEq, Eq)]
pub enum SwapAction {
    /// The recomputed target equals the current one; no state was changed
    /// and no process is to be spawned or terminated.
    NoChange,
    /// The pipeline was replaced: `kill` holds the previous pipeline's
    /// processes, to be terminated before the processes of the new pipeline
    /// (now in the supervisor state) are spawned.
    Swap { kill: Vec<ProcessSpec> },
}

/// One step of the event loop, run for each focus-change notification:
/// recomputes the selection target from the fresh workspace snapshot, does
/// nothing when it equals the current target, and otherwise hands the old
/// pipeline's processes out for termination and installs the pipeline for
/// the new target.
pub fn handle_notification(
    pipeline: &mut ActivePipeline,
    registry: &mut Registry,
    config: &Config,
    workspaces: Vec<Workspace>,
    outputs: &Vec<Output>,
) -> (r: Result<SwapAction, CoreError>)
    requires
        old(registry).wf(),
        old(registry).last_device_index < usize::MAX,
    ensures
        final(registry).wf(),
        final(registry).devices_from == old(registry).devices_from,
        final(registry).canonical() == old(registry).canonical(),
        r == Ok::<SwapAction, CoreError>(SwapAction::NoChange) <==> target_view(
            old(pipeline).target,
        ) == selected_target(*config, workspaces@),
        r == Ok::<SwapAction, CoreError>(SwapAction::NoChange) ==> *final(pipeline) == *old(
            pipeline,
        ) && *final(registry) == *old(registry),
        (r matches Ok(SwapAction::Swap { kill }) ==> {
            &&& kill@ == old(pipeline).processes@
            &&& target_view(final(pipeline).target) == selected_target(*config, workspaces@)
            &&& pipeline_matches(*final(registry), outputs@, *final(pipeline))
        }),
        r is Err <==> target_view(old(pipeline).target) != selected_target(*config, workspaces@)
            && (selected_target(*config, workspaces@) matches Some(n) && find_output(outputs@, n)
            is None),
        r is Err ==> *final(pipeline) == *old(pipeline) && *final(registry) == *old(registry),
{
    let mut cands = select(config, workspaces);
    let new_target: Option<String> = if cands.len() > 0 {
        let w = cands.remove(0);
        Option::Some(w.output)
    } else {
        Option::None
    };
    proof {
        assert(target_view(new_target) == selected_target(*config, workspaces@));
    }
    if same_target(&pipeline.target, &new_target) {
        return Ok(SwapAction::NoChange);
    }
    match build_for_target(registry, new_target, outputs) {
        Ok(newp) => {
            let mut displaced = newp;
            core::mem::swap(pipeline, &mut displaced);
            Ok(SwapAction::Swap { kill: displaced.processes })
        },
        Err(e) => Err(e),
    }
}

/// Brings the system up from the initial snapshots: computes the resolution
/// table (canonical resolution first), builds the device registry from it,
/// selects the first recording target, and builds the initial pipeline —
/// the black fallback when no workspace is a candidate. Fails exactly when
/// the selected target's output is absent from the output snapshot.
pub fn startup(config: &Config, workspaces: Vec<Workspace>, outputs: &Vec<Output>) -> (r: Result<
    (Registry, ActivePipeline),
    CoreError,
>)
    requires
        config.devices_from + outputs@.len() + 1 <= usize::MAX,
    ensures
        match r {
            Ok((reg, p)) => {
                &&& reg.wf()
                &&& reg.devices_from == config.devices_from
                &&& reg.entries@.len() == resolution_table_spec(outputs@).len()
                &&& forall|i: int|
                    0 <= i < reg.entries@.len() ==> (#[trigger] reg.entries@[i]).0
                        == resolution_table_spec(outputs@)[i]
                &&& reg.canonical() == canonical_spec(
                    dedup_first(outputs@.map_values(|o: Output| o.resolution())),
                )
                &&& target_view(p.target) == selected_target(*config, workspaces@)
                &&& pipeline_matches(reg, outputs@, p)
            },
            Err(e) => e == CoreError::OutputNotFound,
        },
        r is Err <==> (selected_target(*config, workspaces@) matches Some(n) && find_output(
            outputs@,
            n,
        ) is None),
{
    let resolutions = get_resolutions(outputs);
    proof {
        let mapped = outputs@.map_values(|o: Output| o.resolution());
        lemma_dedup_first_elements(mapped);
        let distinct = dedup_first(mapped);
        lemma_dedup_first_elements(seq![canonical_spec(distinct)] + distinct);
        assert(resolutions@.len() <= outputs@.len() + 1);
    }
    let mut registry = Registry::new(config.devices_from, &resolutions);
    let ghost reg0 = registry;
    let mut cands = select(config, workspaces);
    let new_target: Option<String> = if cands.len() > 0 {
        let w = cands.remove(0);
        Option::Some(w.output)
    } else {
        Option::None
    };
    proof {
        assert(target_view(new_target) == selected_target(*config, workspaces@));
    }
    match build_for_target(&mut registry, new_target, outputs) {
        Ok(p) => {
            proof {
                if p.target is Some {
                    let name = p.target.unwrap()@;
                    let o = find_output(outputs@, name).unwrap();
                    lemma_find_output_element(outputs@, name);
                    let i = choose|i: int| 0 <= i < outputs@.len() && outputs@[i] == o;
                    let mapped = outputs@.map_values(|ou: Output| ou.resolution());
                    assert(mapped[i] == o.resolution());
                    assert(mapped.contains(o.resolution()));
                    lemma_dedup_first_elements(mapped);
                    let distinct = dedup_first(mapped);
                    assert(distinct.contains(o.resolution()));
                    let table = seq![canonical_spec(distinct)] + distinct;
                    let j = choose|j: int| 0 <= j < distinct.len() && distinct[j] == o.resolution();
                    assert(table[j + 1] == o.resolution());
                    assert(table.contains(o.resolution()));
                    lemma_dedup_first_elements(table);
                    assert(dedup_first(table).contains(o.resolution()));
                    let k = choose|k: int|
                        0 <= k < dedup_first(table).len() && dedup_first(table)[k]
                            == o.resolution();
                    assert(reg0.entries@[k].0 == o.resolution());
                    assert(reg0.contains_res(o.resolution()));
                }
            }
            Ok((registry, p))
        },
        Err(e) => Err(e),
    }
}

} // verus!
