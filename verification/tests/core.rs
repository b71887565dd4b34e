use wlstreamer::registry::Registry;
use wlstreamer::resolution::{canonical_resolution, get_resolutions, Resolution};
use wlstreamer::select::select;
use wlstreamer::supervisor::{
    black_plan, build_for_target, handle_notification, record_plan, startup, ActivePipeline,
    ProcessSpec, SwapAction,
};
use wlstreamer::workspace::{get_output, Config, CoreError, Output, OutputMode, Rect, Workspace};

fn res(width: usize, height: usize) -> Resolution {
    Resolution { width, height }
}

fn output(name: &str, width: usize, height: usize) -> Output {
    Output {
        name: name.to_string(),
        rect: Rect { x: 0, y: 0, width, height },
        current_mode: OutputMode { width, height, refresh: 60000 },
    }
}

fn workspace(name: &str, out: &str, focused: bool, visible: bool, num: usize) -> Workspace {
    Workspace {
        name: name.to_string(),
        focus: Vec::new(),
        output: out.to_string(),
        focused,
        rect: Rect { x: 0, y: 0, width: 0, height: 0 },
        visible,
        num,
    }
}

fn config(devices_from: usize) -> Config {
    Config {
        devices_from,
        screen_blacklist: Vec::new(),
        workspace_blacklist: Vec::new(),
        verbose: false,
    }
}

#[test]
fn canonical_of_two_resolutions() {
    let rs = vec![res(1600, 1200), res(1920, 1080)];
    assert_eq!(canonical_resolution(&rs), res(1920, 1200));
}

#[test]
fn canonical_independent_of_order() {
    let a = vec![res(1600, 1200), res(1920, 1080), res(640, 480)];
    let b = vec![res(640, 480), res(1920, 1080), res(1600, 1200)];
    assert_eq!(canonical_resolution(&a), canonical_resolution(&b));
    assert_eq!(canonical_resolution(&a), res(1920, 1200));
}

#[test]
fn canonical_of_empty_is_zero() {
    let rs: Vec<Resolution> = Vec::new();
    assert_eq!(canonical_resolution(&rs), res(0, 0));
}

#[test]
fn allocate_is_idempotent() {
    let table = vec![res(1920, 1200), res(1600, 1200)];
    let mut reg = Registry::new(3, &table);
    let first = reg.allocate(res(1600, 1200));
    let entries_before = reg.entries.clone();
    let second = reg.allocate(res(1600, 1200));
    assert_eq!(first, second);
    assert_eq!(reg.entries, entries_before);
}

#[test]
fn allocate_distinct_strictly_increasing() {
    let table = vec![res(3840, 2160)];
    let mut reg = Registry::new(5, &table);
    let a = reg.allocate(res(1920, 1080));
    let b = reg.allocate(res(1600, 1200));
    let c = reg.allocate(res(640, 480));
    assert_eq!(a, 6);
    assert_eq!(b, 7);
    assert_eq!(c, 8);
    assert_eq!(reg.allocate(res(3840, 2160)), 5);
}

#[test]
fn devices_used_from_configured_index() {
    let outs = vec![output("DP-1", 1600, 1200), output("HDMI-A-1", 1920, 1080)];
    let resolutions = get_resolutions(&outs);
    assert_eq!(
        resolutions,
        vec![res(1920, 1200), res(1600, 1200), res(1920, 1080)]
    );
    let mut reg = Registry::new(3, &resolutions);
    assert_eq!(reg.allocate(res(1920, 1200)), 3);
    assert_eq!(reg.allocate(res(1600, 1200)), 4);
    assert_eq!(reg.allocate(res(1920, 1080)), 5);
}

#[test]
fn canonical_output_records_without_scaler() {
    let outs = vec![output("DP-1", 640, 480), output("HDMI-A-1", 1920, 1080)];
    let resolutions = get_resolutions(&outs);
    assert_eq!(resolutions[0], res(1920, 1080));
    let mut reg = Registry::new(0, &resolutions);

    let plan = record_plan(&mut reg, &outs[1]);
    assert_eq!(
        plan,
        vec![ProcessSpec::Capture { output: "HDMI-A-1".to_string(), device: 0 }]
    );

    let small_plan = record_plan(&mut reg, &outs[0]);
    assert_eq!(
        small_plan,
        vec![
            ProcessSpec::Capture { output: "DP-1".to_string(), device: 1 },
            ProcessSpec::Scaler { src_device: 1, dst_device: 0, width: 1920, height: 1080 },
        ]
    );
}

#[test]
fn select_filters_blacklisted_and_invisible() {
    let mut cfg = config(0);
    cfg.screen_blacklist.push("HDMI-A-1".to_string());
    cfg.workspace_blacklist.push(9);
    let ws = vec![
        workspace("1", "DP-1", false, true, 1),
        workspace("2", "HDMI-A-1", true, true, 2),
        workspace("9", "DP-2", false, true, 9),
        workspace("3", "DP-3", false, false, 3),
    ];
    let picked = select(&cfg, ws);
    assert_eq!(picked.len(), 1);
    assert_eq!(picked[0].output, "DP-1");
    for w in &picked {
        assert!(w.visible);
        assert!(!cfg.screen_blacklist.contains(&w.output));
        assert!(!cfg.workspace_blacklist.contains(&w.num));
    }
}

#[test]
fn select_puts_focused_first_and_keeps_order() {
    let cfg = config(0);
    let ws = vec![
        workspace("u1", "DP-1", false, true, 1),
        workspace("f1", "DP-2", true, true, 2),
        workspace("u2", "DP-3", false, true, 3),
        workspace("f2", "DP-4", true, true, 4),
    ];
    let picked = select(&cfg, ws);
    let names: Vec<&str> = picked.iter().map(|w| w.name.as_str()).collect();
    assert_eq!(names, vec!["f1", "f2", "u1", "u2"]);
    assert!(picked[0].focused);
}

#[test]
fn select_empty_when_nothing_visible() {
    let cfg = config(0);
    let ws = vec![
        workspace("1", "DP-1", true, false, 1),
        workspace("2", "DP-2", false, false, 2),
    ];
    assert_eq!(select(&cfg, ws).len(), 0);
}

#[test]
fn startup_black_when_no_candidates() {
    let cfg = config(2);
    let outs = vec![output("DP-1", 1280, 1024)];
    let ws = vec![workspace("1", "DP-1", true, false, 1)];
    let (reg, pipeline) = startup(&cfg, ws, &outs).unwrap();
    assert_eq!(pipeline.target, None);
    assert_eq!(
        pipeline.processes,
        vec![ProcessSpec::BlackSource { width: 1280, height: 1024, device: 2 }]
    );
    assert_eq!(reg.devices_from, 2);
}

#[test]
fn notification_same_target_changes_nothing() {
    let cfg = config(0);
    let outs = vec![output("DP-1", 1920, 1080), output("DP-2", 1920, 1080)];
    let ws = vec![
        workspace("1", "DP-1", true, true, 1),
        workspace("2", "DP-2", false, true, 2),
    ];
    let (mut reg, mut pipeline) = startup(&cfg, ws, &outs).unwrap();
    assert_eq!(pipeline.target.as_deref(), Some("DP-1"));
    let entries_before = reg.entries.clone();
    let procs_before = pipeline.processes.len();

    let again = vec![
        workspace("1", "DP-1", true, true, 1),
        workspace("2", "DP-2", false, true, 2),
    ];
    let action = handle_notification(&mut pipeline, &mut reg, &cfg, again, &outs).unwrap();
    assert_eq!(action, SwapAction::NoChange);
    assert_eq!(pipeline.target.as_deref(), Some("DP-1"));
    assert_eq!(pipeline.processes.len(), procs_before);
    assert_eq!(reg.entries, entries_before);
}

#[test]
fn notification_focus_move_kills_old_then_installs_new() {
    let cfg = config(0);
    let outs = vec![output("DP-1", 1920, 1080), output("DP-2", 1600, 1200)];
    let ws = vec![
        workspace("1", "DP-1", true, true, 1),
        workspace("2", "DP-2", false, true, 2),
    ];
    let (mut reg, mut pipeline) = startup(&cfg, ws, &outs).unwrap();
    assert_eq!(pipeline.target.as_deref(), Some("DP-1"));
    let old_processes = pipeline.processes.clone();

    let moved = vec![
        workspace("1", "DP-1", false, true, 1),
        workspace("2", "DP-2", true, true, 2),
    ];
    let action = handle_notification(&mut pipeline, &mut reg, &cfg, moved, &outs).unwrap();
    match action {
        SwapAction::Swap { kill } => assert_eq!(kill, old_processes),
        SwapAction::NoChange => panic!("expected a swap"),
    }
    assert_eq!(pipeline.target.as_deref(), Some("DP-2"));
    assert_eq!(pipeline.processes.len(), 2);
    match &pipeline.processes[0] {
        ProcessSpec::Capture { output: o, device } => {
            assert_eq!(o, "DP-2");
            assert_eq!(*device, reg.devices_from + 2);
        }
        other => panic!("expected a capture, got {:?}", other),
    }
}

#[test]
fn notification_to_black_when_candidates_vanish() {
    let cfg = config(0);
    let outs = vec![output("DP-1", 1920, 1080)];
    let ws = vec![workspace("1", "DP-1", true, true, 1)];
    let (mut reg, mut pipeline) = startup(&cfg, ws, &outs).unwrap();
    assert_eq!(pipeline.target.as_deref(), Some("DP-1"));

    let gone = vec![workspace("1", "DP-1", true, false, 1)];
    let action = handle_notification(&mut pipeline, &mut reg, &cfg, gone, &outs).unwrap();
    assert!(matches!(action, SwapAction::Swap { .. }));
    assert_eq!(pipeline.target, None);
    assert_eq!(
        pipeline.processes,
        vec![ProcessSpec::BlackSource { width: 1920, height: 1080, device: 0 }]
    );
}

#[test]
fn notification_missing_output_surfaces_error() {
    let cfg = config(0);
    let outs = vec![output("DP-1", 1920, 1080)];
    let ws = vec![workspace("1", "DP-1", true, true, 1)];
    let (mut reg, mut pipeline) = startup(&cfg, ws, &outs).unwrap();

    let moved = vec![workspace("2", "DP-GONE", true, true, 2)];
    let r = handle_notification(&mut pipeline, &mut reg, &cfg, moved, &outs);
    assert_eq!(r, Err(CoreError::OutputNotFound));
    assert_eq!(pipeline.target.as_deref(), Some("DP-1"));
}

#[test]
fn startup_missing_selected_output_errors() {
    let cfg = config(0);
    let outs = vec![output("DP-1", 1920, 1080)];
    let ws = vec![workspace("1", "DP-GONE", true, true, 1)];
    assert_eq!(startup(&cfg, ws, &outs), Err(CoreError::OutputNotFound));
}

#[test]
fn get_output_finds_first_match() {
    let outs = vec![output("DP-1", 1920, 1080), output("HDMI-A-1", 640, 480)];
    let found = get_output(&outs, &"HDMI-A-1".to_string()).unwrap();
    assert_eq!(found, outs[1]);
    assert_eq!(
        get_output(&outs, &"DP-9".to_string()),
        Err(CoreError::OutputNotFound)
    );
}

#[test]
fn duplicate_resolutions_collapse() {
    let outs = vec![
        output("DP-1", 1920, 1080),
        output("DP-2", 1920, 1080),
        output("DP-3", 1920, 1080),
    ];
    let resolutions = get_resolutions(&outs);
    assert_eq!(resolutions, vec![res(1920, 1080)]);
}

#[test]
fn new_resolution_after_startup_gets_next_device() {
    let outs = vec![output("DP-1", 1920, 1080), output("DP-2", 1600, 1200)];
    let resolutions = get_resolutions(&outs);
    let mut reg = Registry::new(0, &resolutions);
    assert_eq!(reg.last_device_index, 2);
    let hotplugged = output("DP-3", 2560, 1440);
    let plan = record_plan(&mut reg, &hotplugged);
    assert_eq!(reg.last_device_index, 3);
    assert_eq!(
        plan,
        vec![
            ProcessSpec::Capture { output: "DP-3".to_string(), device: 3 },
            ProcessSpec::Scaler { src_device: 3, dst_device: 0, width: 1920, height: 1200 },
        ]
    );
}

#[test]
fn black_plan_uses_canonical_resolution_and_device() {
    let resolutions = vec![res(2560, 1440), res(1920, 1080)];
    let reg = Registry::new(7, &resolutions);
    let plan = black_plan(&reg);
    assert_eq!(
        plan,
        vec![ProcessSpec::BlackSource { width: 2560, height: 1440, device: 7 }]
    );
}

#[test]
fn build_for_target_none_is_black() {
    let resolutions = vec![res(1920, 1080)];
    let mut reg = Registry::new(0, &resolutions);
    let outs = vec![output("DP-1", 1920, 1080)];
    let p = build_for_target(&mut reg, None, &outs).unwrap();
    assert_eq!(
        p,
        ActivePipeline {
            target: None,
            processes: vec![ProcessSpec::BlackSource { width: 1920, height: 1080, device: 0 }],
        }
    );
}
