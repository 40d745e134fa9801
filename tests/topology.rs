use persistent_windows::{same_layout, topology_of, MonitorInfo, OsError, Rect, TopologyStore};

fn rect(left: i32, top: i32, right: i32, bottom: i32) -> Rect {
    Rect { left, top, right, bottom }
}

fn monitor(r: Rect, primary: bool) -> MonitorInfo {
    MonitorInfo { primary, rect: r, work: rect(r.left, r.top, r.right, r.bottom - 40), name: String::from("\\\\.\\DISPLAY1") }
}

#[test]
fn layout_keeps_enumeration_order_and_ignores_work_area() {
    let monitors = vec![
        Ok(monitor(rect(0, 0, 1920, 1080), true)),
        Ok(monitor(rect(1920, 0, 3200, 1024), false)),
    ];
    let rects = topology_of(&monitors).unwrap();
    assert_eq!(rects, vec![rect(0, 0, 1920, 1080), rect(1920, 0, 3200, 1024)]);
}

#[test]
fn failed_monitor_query_fails_the_layout() {
    let monitors = vec![
        Ok(monitor(rect(0, 0, 1920, 1080), true)),
        Err(OsError { code: 5 }),
        Err(OsError { code: 6 }),
    ];
    assert_eq!(topology_of(&monitors), Err(OsError { code: 5 }));
}

#[test]
fn no_monitors_is_an_empty_layout() {
    let monitors: Vec<Result<MonitorInfo, OsError>> = Vec::new();
    assert_eq!(topology_of(&monitors), Ok(Vec::new()));
}

#[test]
fn same_layout_compares_order() {
    let a = vec![rect(0, 0, 1, 1), rect(1, 1, 2, 2)];
    let b = vec![rect(1, 1, 2, 2), rect(0, 0, 1, 1)];
    assert!(same_layout(&a, &a.clone()));
    assert!(!same_layout(&a, &b));
    assert!(!same_layout(&a, &vec![rect(0, 0, 1, 1)]));
}

#[test]
fn interning_a_layout_twice_gives_one_id() {
    let mut store = TopologyStore::new();
    let a = store.intern(vec![rect(0, 0, 1920, 1080)]);
    let b = store.intern(vec![rect(0, 0, 1280, 1024)]);
    let c = store.intern(vec![rect(0, 0, 1920, 1080)]);
    assert_eq!(a, c);
    assert_ne!(a, b);
    assert_eq!(store.len(), 2);
    assert_eq!(store.layout(b), Some(&vec![rect(0, 0, 1280, 1024)]));
    assert_eq!(store.layout(2), None);
    assert_eq!(store.find(&vec![rect(0, 0, 1280, 1024)]), Some(b));
    assert_eq!(store.find(&vec![rect(0, 0, 800, 600)]), None);
}

#[test]
fn monitor_order_matters_for_identity() {
    let mut store = TopologyStore::new();
    let a = store.intern(vec![rect(0, 0, 10, 10), rect(10, 0, 20, 10)]);
    let b = store.intern(vec![rect(10, 0, 20, 10), rect(0, 0, 10, 10)]);
    assert_ne!(a, b);
}
