use persistent_windows::{
    is_capture_eligible, is_restore_eligible, MonitorInfo, OsError, PlacementEngine,
    PlacementStore, Point, Rect, ResolvedWindow, WindowDisplay, WindowIdentity, SW_MAXIMIZE,
    SW_SHOWNORMAL,
};

const SW_SHOWMINIMIZED: u32 = 2;

fn rect(left: i32, top: i32, right: i32, bottom: i32) -> Rect {
    Rect { left, top, right, bottom }
}

fn monitor(r: Rect) -> Result<MonitorInfo, OsError> {
    Ok(MonitorInfo { primary: true, rect: r, work: r, name: String::from("DISPLAY1") })
}

fn display(show: u32, r: Rect) -> WindowDisplay {
    WindowDisplay { show, min: Point { x: -1, y: -1 }, max: Point { x: -1, y: -1 }, rect: r }
}

fn notepad() -> WindowIdentity {
    WindowIdentity::new(
        String::from("C:\\Windows\\System32\\notepad.exe"),
        String::from("Notepad"),
        String::from("Untitled - Notepad"),
    )
}

fn other(title: &str) -> WindowIdentity {
    WindowIdentity::new(String::from("C:\\Tools\\editor.exe"), String::from("Editor"), String::from(title))
}

fn resolved(identity: WindowIdentity, placement: WindowDisplay) -> Result<ResolvedWindow, OsError> {
    Ok(ResolvedWindow { identity, placement })
}

fn started(layout: Rect) -> PlacementEngine {
    let mut e = PlacementEngine::new();
    e.switch_topology(&vec![monitor(layout)]).unwrap();
    e
}

#[test]
fn eligibility_rules() {
    assert!(is_capture_eligible(true, true));
    assert!(!is_capture_eligible(true, false));
    assert!(!is_capture_eligible(false, true));
    assert!(is_restore_eligible(true));
    assert!(!is_restore_eligible(false));
}

#[test]
fn unchanged_layout_gives_the_same_topology_id() {
    let mut e = PlacementEngine::new();
    let monitors = vec![monitor(rect(0, 0, 1920, 1080)), monitor(rect(1920, 0, 3840, 1080))];
    let a = e.capture_topology(&monitors).unwrap();
    let b = e.capture_topology(&monitors).unwrap();
    assert_eq!(a, b);
    assert_eq!(e.topology_count(), 1);
    assert_eq!(e.active_topology(), None);
}

#[test]
fn failed_topology_capture_keeps_the_active_layout() {
    let mut e = started(rect(0, 0, 1920, 1080));
    let before = e.active_topology();
    let r = e.switch_topology(&vec![monitor(rect(0, 0, 1280, 1024)), Err(OsError { code: 87 })]);
    assert_eq!(r, Err(OsError { code: 87 }));
    assert_eq!(e.active_topology(), before);
    assert_eq!(e.topology_count(), 1);
}

#[test]
fn capture_then_restore_round_trip() {
    let mut e = started(rect(0, 0, 1920, 1080));
    let p = display(SW_SHOWNORMAL, rect(100, 100, 740, 580));
    e.capture_window(&resolved(notepad(), p)).unwrap();
    let plan = e.restore_window(&Ok(notepad())).unwrap();
    assert_eq!(plan.len(), 1);
    assert_eq!(plan[0].rect, rect(100, 100, 740, 580));
    assert_eq!(plan[0].show, SW_SHOWNORMAL);
}

#[test]
fn minimized_placement_is_applied_once() {
    let mut e = started(rect(0, 0, 1920, 1080));
    let p = display(SW_SHOWMINIMIZED, rect(10, 20, 30, 40));
    e.capture_window(&resolved(notepad(), p)).unwrap();
    assert_eq!(e.restore_window(&Ok(notepad())).unwrap(), vec![p]);
}

#[test]
fn maximized_placement_is_applied_in_two_steps() {
    let mut e = started(rect(0, 0, 1920, 1080));
    let p = WindowDisplay {
        show: SW_MAXIMIZE,
        min: Point { x: -32000, y: -32000 },
        max: Point { x: -1, y: -1 },
        rect: rect(200, 150, 1000, 750),
    };
    e.capture_window(&resolved(notepad(), p)).unwrap();
    let plan = e.restore_window(&Ok(notepad())).unwrap();
    assert_eq!(plan.len(), 2);
    assert_eq!(plan[0].show, SW_SHOWNORMAL);
    assert_eq!(plan[0].rect, p.rect);
    assert_eq!(plan[0].min, p.min);
    assert_eq!(plan[0].max, p.max);
    assert_eq!(plan[1], p);
}

#[test]
fn unknown_window_restore_is_a_no_op() {
    let e = started(rect(0, 0, 1920, 1080));
    assert_eq!(e.restore_window(&Ok(notepad())), Ok(Vec::new()));
}

#[test]
fn unresolved_window_is_reported() {
    let mut e = started(rect(0, 0, 1920, 1080));
    assert_eq!(e.capture_window(&Err(OsError { code: 5 })), Err(OsError { code: 5 }));
    assert_eq!(e.placement_count(), 0);
    assert_eq!(e.restore_window(&Err(OsError { code: 5 })), Err(OsError { code: 5 }));
}

#[test]
fn placements_under_distinct_topologies_are_independent() {
    let mut e = PlacementEngine::new();
    let t1 = e.switch_topology(&vec![monitor(rect(0, 0, 1920, 1080))]).unwrap();
    let p1 = display(SW_SHOWNORMAL, rect(0, 0, 800, 600));
    e.capture_window(&resolved(notepad(), p1)).unwrap();
    let t2 = e.switch_topology(&vec![monitor(rect(0, 0, 1280, 1024))]).unwrap();
    assert_ne!(t1, t2);
    assert_eq!(e.find_window(t2, &notepad()), None);
    let p2 = display(SW_SHOWNORMAL, rect(10, 10, 500, 400));
    e.capture_window(&resolved(notepad(), p2)).unwrap();
    assert_eq!(e.find_window(t1, &notepad()), Some(p1));
    assert_eq!(e.find_window(t2, &notepad()), Some(p2));
}

#[test]
fn recapture_replaces_the_placement() {
    let mut e = started(rect(0, 0, 1920, 1080));
    let t = e.active_topology().unwrap();
    e.capture_window(&resolved(notepad(), display(SW_SHOWNORMAL, rect(0, 0, 10, 10)))).unwrap();
    e.capture_window(&resolved(notepad(), display(SW_SHOWNORMAL, rect(5, 5, 50, 50)))).unwrap();
    assert_eq!(e.placement_count(), 1);
    assert_eq!(e.find_window(t, &notepad()), Some(display(SW_SHOWNORMAL, rect(5, 5, 50, 50))));
}

#[test]
fn lookup_needs_an_exact_identity() {
    let mut e = started(rect(0, 0, 1920, 1080));
    let t = e.active_topology().unwrap();
    e.capture_window(&resolved(notepad(), display(SW_SHOWNORMAL, rect(0, 0, 10, 10)))).unwrap();
    let mut almost = notepad();
    almost.title = String::from("Untitled - Notepad ");
    assert_eq!(e.find_window(t, &almost), None);
    let mut lower = notepad();
    lower.class_name = String::from("notepad");
    assert_eq!(e.find_window(t, &lower), None);
}

#[test]
fn one_failed_window_does_not_stop_a_capture_pass() {
    let mut e = started(rect(0, 0, 1920, 1080));
    let t = e.active_topology().unwrap();
    let a = display(SW_SHOWNORMAL, rect(0, 0, 100, 100));
    let c = display(SW_SHOWNORMAL, rect(50, 50, 300, 300));
    e.capture_windows(&vec![
        resolved(other("a"), a),
        Err(OsError { code: 5 }),
        resolved(other("c"), c),
    ]);
    assert_eq!(e.placement_count(), 2);
    assert_eq!(e.find_window(t, &other("a")), Some(a));
    assert_eq!(e.find_window(t, &other("c")), Some(c));
}

#[test]
fn one_failed_window_does_not_stop_a_restore_pass() {
    let mut e = started(rect(0, 0, 1920, 1080));
    let a = display(SW_SHOWNORMAL, rect(0, 0, 100, 100));
    let c = display(SW_SHOWNORMAL, rect(50, 50, 300, 300));
    e.capture_windows(&vec![resolved(other("a"), a), resolved(other("c"), c)]);
    let plans = e.restore_windows(&vec![Ok(other("a")), Err(OsError { code: 5 }), Ok(other("c")), Ok(other("z"))]);
    assert_eq!(plans, vec![vec![a], Vec::new(), vec![c], Vec::new()]);
}

#[test]
fn later_window_of_a_pass_wins_on_equal_identity() {
    let mut e = started(rect(0, 0, 1920, 1080));
    let t = e.active_topology().unwrap();
    let a = display(SW_SHOWNORMAL, rect(0, 0, 100, 100));
    let b = display(SW_SHOWNORMAL, rect(1, 1, 200, 200));
    e.capture_windows(&vec![resolved(other("x"), a), resolved(other("x"), b)]);
    assert_eq!(e.placement_count(), 1);
    assert_eq!(e.find_window(t, &other("x")), Some(b));
}

#[test]
fn monitor_disconnect_and_reconnect() {
    let mut e = PlacementEngine::new();
    let t0 = e.switch_topology(&vec![monitor(rect(0, 0, 1920, 1080))]).unwrap();
    let r0 = display(SW_SHOWNORMAL, rect(300, 200, 1100, 800));
    e.capture_windows(&vec![resolved(notepad(), r0)]);

    let t1 = e.switch_topology(&vec![monitor(rect(0, 0, 1280, 1024))]).unwrap();
    assert_ne!(t1, t0);
    assert_eq!(e.restore_windows(&vec![Ok(notepad())]), vec![Vec::new()]);

    let t2 = e.switch_topology(&vec![monitor(rect(0, 0, 1920, 1080))]).unwrap();
    assert_eq!(t2, t0);
    assert_eq!(e.active_topology(), Some(t0));
    assert_eq!(e.topology_count(), 2);
    assert_eq!(e.restore_windows(&vec![Ok(notepad())]), vec![vec![r0]]);
}

#[test]
fn placement_store_upsert_and_lookup() {
    let mut s = PlacementStore::new();
    let p = display(SW_SHOWNORMAL, rect(1, 2, 3, 4));
    let q = display(SW_MAXIMIZE, rect(5, 6, 7, 8));
    assert_eq!(s.lookup(0, &notepad()), None);
    s.upsert(0, &notepad(), p);
    s.upsert(1, &notepad(), q);
    assert_eq!(s.len(), 2);
    assert_eq!(s.lookup(0, &notepad()), Some(p));
    assert_eq!(s.lookup(1, &notepad()), Some(q));
    s.upsert(0, &notepad(), q);
    assert_eq!(s.len(), 2);
    assert_eq!(s.lookup(0, &notepad()), Some(q));
}

#[test]
fn identity_comparison_and_copy() {
    let a = notepad();
    let b = a.copied();
    assert!(a.same_as(&b));
    assert_eq!(a, b);
    assert!(!a.same_as(&other("Untitled - Notepad")));
}
