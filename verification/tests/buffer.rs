use kludgine::render::DrawVertex;
use kludgine::buffer::{plan_update, update_data};

fn mask(bits: &str) -> Vec<bool> {
    bits.chars().map(|c| c == '1').collect()
}

#[test]
fn unchanged_contents_copy_nothing() {
    let plan = plan_update(&mask("0000"), 4, 4, 4);
    assert!(plan.copies.is_empty());
    assert!(!plan.rebuild);
}

#[test]
fn nearby_changes_share_a_copy() {
    let plan = plan_update(&mask("0100100000"), 4, 4, 10);
    assert_eq!(plan.copies, vec![(1, 4)]);
    assert!(!plan.rebuild);
}

#[test]
fn distant_changes_are_copied_separately() {
    let mut changed = vec![false; 40];
    changed[0] = true;
    changed[17] = true;
    changed[39] = true;
    let plan = plan_update(&changed, 4, 4, 40);
    assert_eq!(plan.copies, vec![(0, 17), (39, 39)]);
    assert!(!plan.rebuild);
}

#[test]
fn ranges_widen_to_the_alignment() {
    // Two-byte elements: a copy must start and end on an even element.
    let plan = plan_update(&mask("000100"), 2, 4, 6);
    assert_eq!(plan.copies, vec![(2, 3)]);
    let plan = plan_update(&mask("001000"), 2, 4, 6);
    assert_eq!(plan.copies, vec![(2, 3)]);
    assert!(!plan.rebuild);
}

#[test]
fn unalignable_ranges_rebuild() {
    // One-byte elements can only be widened by one element at each end.
    let plan = plan_update(&mask("01"), 1, 4, 2);
    assert!(plan.rebuild);
}

#[test]
fn growing_contents_rebuild() {
    let plan = plan_update(&mask("111"), 4, 4, 2);
    assert!(plan.copies.is_empty());
    assert!(plan.rebuild);
}

#[test]
fn update_data_holds_the_new_contents() {
    let mut data: Vec<u32> = (0..40).collect();
    let mut new_contents = data.clone();
    new_contents[3] = 100;
    new_contents[30] = 200;
    let plan = update_data(&mut data, &new_contents, 4, 4).unwrap();
    assert!(!plan.rebuild);
    assert_eq!(plan.copies, vec![(3, 30)]);
    assert_eq!(data, new_contents);

    let shorter: Vec<u32> = vec![0, 1, 7];
    let plan = update_data(&mut data, &shorter, 4, 4).unwrap();
    assert_eq!(plan.copies, vec![(2, 2)]);
    assert_eq!(&data[..3], &shorter[..]);
    assert_eq!(data.len(), 40);

    let longer: Vec<u32> = (0..50).collect();
    let plan = update_data(&mut data, &longer, 4, 4).unwrap();
    assert!(plan.rebuild);
    assert_eq!(data, longer);
}

#[test]
fn update_data_refuses_a_copy_past_the_end() {
    // Two-byte elements on four-byte alignment: a change at the end of
    // shorter contents widens one element past them.
    let mut data: Vec<u16> = vec![0, 0, 0, 0, 0, 0];
    let before = data.clone();
    assert!(update_data(&mut data, &vec![0, 0, 0, 0, 1], 2, 4).is_none());
    assert_eq!(data, before);
}

#[test]
fn update_data_on_vertices() {
    let vertex = |x: i32| DrawVertex { x, y: 0, texture_x: 0, texture_y: 0, color: 1 };
    let mut data = vec![vertex(0), vertex(1), vertex(2)];
    let new_contents = vec![vertex(0), vertex(5), vertex(2)];
    let plan = update_data(&mut data, &new_contents, 20, 4).unwrap();
    assert_eq!(plan.copies, vec![(1, 1)]);
    assert_eq!(data, new_contents);
}
