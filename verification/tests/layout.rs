use file_picker::layout::{picker_areas, Area};

#[test]
fn picker_needs_three_rows() {
    assert!(picker_areas(Area { x: 0, y: 0, width: 80, height: 2 }).is_none());
    assert!(picker_areas(Area { x: 0, y: 0, width: 80, height: 0 }).is_none());
    assert!(picker_areas(Area { x: 0, y: 0, width: 80, height: 3 }).is_some());
}

#[test]
fn picker_parts_of_a_full_terminal() {
    let areas = picker_areas(Area { x: 1, y: 1, width: 78, height: 22 }).unwrap();
    assert_eq!(areas.path_bar, Area { x: 1, y: 1, width: 78, height: 1 });
    assert_eq!(areas.list, Area { x: 1, y: 2, width: 78, height: 20 });
    assert_eq!(areas.status_bar, Area { x: 1, y: 22, width: 78, height: 1 });
}

#[test]
fn picker_parts_of_the_smallest_area() {
    let areas = picker_areas(Area { x: 0, y: 5, width: 10, height: 3 }).unwrap();
    assert_eq!(areas.path_bar.y, 5);
    assert_eq!(areas.list, Area { x: 0, y: 6, width: 10, height: 1 });
    assert_eq!(areas.status_bar.y, 7);
}

#[test]
fn picker_parts_for_many_heights() {
    for h in 3..60u16 {
        let areas = picker_areas(Area { x: 2, y: 4, width: 33, height: h }).unwrap();
        assert_eq!(areas.path_bar, Area { x: 2, y: 4, width: 33, height: 1 });
        assert_eq!(areas.list, Area { x: 2, y: 5, width: 33, height: h - 2 });
        assert_eq!(areas.status_bar, Area { x: 2, y: 4 + h - 1, width: 33, height: 1 });
    }
}

#[test]
fn picker_area_cut_at_the_last_row() {
    let areas = picker_areas(Area { x: 0, y: 65530, width: 10, height: 10 }).unwrap();
    assert_eq!(areas.path_bar, Area { x: 0, y: 65530, width: 10, height: 1 });
    assert_eq!(areas.list, Area { x: 0, y: 65531, width: 10, height: 3 });
    assert_eq!(areas.status_bar, Area { x: 0, y: 65534, width: 10, height: 1 });
    assert!(picker_areas(Area { x: 0, y: 65534, width: 10, height: 5 }).is_none());
}
