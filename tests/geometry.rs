use persistent_windows::{MonitorDpiType, Point, Rect, WindowDisplay, SW_MAXIMIZE, SW_SHOWNORMAL};

fn rect(left: i32, top: i32, right: i32, bottom: i32) -> Rect {
    Rect { left, top, right, bottom }
}

#[test]
fn width_and_height_of_ordinary_rect() {
    let r = rect(100, 100, 740, 580);
    assert_eq!(r.width(), 640);
    assert_eq!(r.height(), 480);
}

#[test]
fn width_and_height_are_absolute() {
    let r = rect(740, 580, 100, 100);
    assert_eq!(r.width(), 640);
    assert_eq!(r.height(), 480);
}

#[test]
fn width_of_extreme_rect_does_not_overflow() {
    let r = rect(i32::MIN, i32::MAX, i32::MAX, i32::MIN);
    assert_eq!(r.width(), u32::MAX);
    assert_eq!(r.height(), u32::MAX);
}

#[test]
fn empty_rect_has_no_extent() {
    let r = rect(5, 5, 5, 5);
    assert_eq!(r.width(), 0);
    assert_eq!(r.height(), 0);
}

#[test]
fn with_show_keeps_geometry() {
    let d = WindowDisplay {
        show: SW_MAXIMIZE,
        min: Point { x: -1, y: -1 },
        max: Point { x: 0, y: 0 },
        rect: rect(1, 2, 3, 4),
    };
    let n = d.with_show(SW_SHOWNORMAL);
    assert_eq!(n.show, SW_SHOWNORMAL);
    assert_eq!(n.min, d.min);
    assert_eq!(n.max, d.max);
    assert_eq!(n.rect, d.rect);
    assert!(d.is_maximized());
    assert!(!n.is_maximized());
}

#[test]
fn dpi_type_codes() {
    assert_eq!(MonitorDpiType::Effective.code(), 0);
    assert_eq!(MonitorDpiType::Angular.code(), 1);
    assert_eq!(MonitorDpiType::Raw.code(), 2);
    assert_eq!(MonitorDpiType::default(), MonitorDpiType::Effective);
}
