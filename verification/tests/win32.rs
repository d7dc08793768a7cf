use atref::win32::{clamp_to_work_area, picker_origin};

#[test]
fn clamps_window_to_work_area() {
    let work = (0, 0, 1920, 1080);
    assert_eq!(clamp_to_work_area(100, 100, 720, 460, work), (100, 100));
    assert_eq!(clamp_to_work_area(1900, 500, 720, 460, work), (1200, 500));
    assert_eq!(clamp_to_work_area(100, 1000, 720, 460, work), (100, 620));
    let left_monitor = (-1920, 0, 0, 1080);
    assert_eq!(
        clamp_to_work_area(-50, 100, 720, 460, left_monitor),
        (-720, 100)
    );
}

#[test]
fn clamps_below_the_top_left_corner() {
    let work = (100, 50, 1920, 1080);
    assert_eq!(clamp_to_work_area(0, 0, 720, 460, work), (100, 50));
}

#[test]
fn picker_opens_below_right_of_the_cursor() {
    let work = (0, 0, 1920, 1080);
    assert_eq!(picker_origin(100, 100, work), (112, 124));
    assert_eq!(picker_origin(1900, 1000, work), (1200, 620));
    let unknown = (0, 0, i32::MAX, i32::MAX);
    assert_eq!(picker_origin(10, 20, unknown), (22, 44));
}
