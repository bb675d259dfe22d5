use badge_designer::frame::GRID_HEIGHT;
use badge_designer::frame::GRID_WIDTH;
use badge_designer::store::FrameStore;

fn single_on_cell(store: &mut FrameStore, frame: usize, x: usize, y: usize) {
    store.clear_frame(frame);
    store.set_cell(frame, x, y, true);
}

fn frame_matches_single_cell(store: &FrameStore, frame: usize, x: usize, y: usize) -> bool {
    for yy in 0..GRID_HEIGHT {
        for xx in 0..GRID_WIDTH {
            let expected = xx == x && yy == y;
            if store.get_cell(frame, xx, yy) != expected {
                return false;
            }
        }
    }
    true
}

#[test]
fn new_session_has_one_blank_frame() {
    let store = FrameStore::new_session();
    assert_eq!(store.frames.len(), 1);
    assert_eq!(store.padding, 0);
    assert_eq!(store.speed, 5);
    for y in 0..11 {
        for x in 0..44 {
            assert!(!store.get_cell(0, x, y));
        }
    }
}

#[test]
fn make_cycle_on_two_frames_yields_ping_pong() {
    let mut store = FrameStore::new_session();
    store.add_frame();
    single_on_cell(&mut store, 0, 1, 1);
    single_on_cell(&mut store, 1, 2, 2);
    store.make_cycle();
    assert_eq!(store.frames.len(), 4);
    assert!(frame_matches_single_cell(&store, 0, 1, 1));
    assert!(frame_matches_single_cell(&store, 1, 2, 2));
    assert!(frame_matches_single_cell(&store, 2, 2, 2));
    assert!(frame_matches_single_cell(&store, 3, 1, 1));
}

#[test]
fn make_cycle_on_one_frame_doubles_it() {
    let mut store = FrameStore::new_session();
    single_on_cell(&mut store, 0, 5, 5);
    store.make_cycle();
    assert_eq!(store.frames.len(), 2);
    assert!(frame_matches_single_cell(&store, 0, 5, 5));
    assert!(frame_matches_single_cell(&store, 1, 5, 5));
}

#[test]
fn invert_frame_twice_restores_the_grid() {
    let mut store = FrameStore::new_session();
    store.set_cell(0, 3, 4, true);
    store.set_cell(0, 40, 9, true);
    let before: Vec<bool> = (0..11)
        .flat_map(|y| (0..44).map(move |x| (x, y)))
        .map(|(x, y)| store.get_cell(0, x, y))
        .collect();
    store.invert_frame(0);
    assert!(!store.get_cell(0, 3, 4));
    assert!(store.get_cell(0, 0, 0));
    store.invert_frame(0);
    let after: Vec<bool> = (0..11)
        .flat_map(|y| (0..44).map(move |x| (x, y)))
        .map(|(x, y)| store.get_cell(0, x, y))
        .collect();
    assert_eq!(before, after);
}

#[test]
fn add_frame_copies_the_last_frame() {
    let mut store = FrameStore::new_session();
    single_on_cell(&mut store, 0, 10, 3);
    store.add_frame();
    assert_eq!(store.frames.len(), 2);
    assert!(frame_matches_single_cell(&store, 1, 10, 3));
}

#[test]
fn add_frame_on_empty_store_adds_a_blank_frame() {
    let mut store = FrameStore::new_session();
    store.remove_frame(0);
    assert_eq!(store.frames.len(), 0);
    store.add_frame();
    assert_eq!(store.frames.len(), 1);
    for y in 0..11 {
        for x in 0..44 {
            assert!(!store.get_cell(0, x, y));
        }
    }
}

#[test]
fn remove_frame_deletes_the_indexed_frame() {
    let mut store = FrameStore::new_session();
    store.add_frame();
    store.add_frame();
    single_on_cell(&mut store, 0, 1, 0);
    single_on_cell(&mut store, 1, 2, 0);
    single_on_cell(&mut store, 2, 3, 0);
    store.remove_frame(1);
    assert_eq!(store.frames.len(), 2);
    assert!(frame_matches_single_cell(&store, 0, 1, 0));
    assert!(frame_matches_single_cell(&store, 1, 3, 0));
    store.remove_frame(5);
    assert_eq!(store.frames.len(), 2);
}

#[test]
fn clone_frame_inserts_a_duplicate_after_it() {
    let mut store = FrameStore::new_session();
    store.add_frame();
    single_on_cell(&mut store, 0, 4, 4);
    single_on_cell(&mut store, 1, 6, 6);
    store.clone_frame(0);
    assert_eq!(store.frames.len(), 3);
    assert!(frame_matches_single_cell(&store, 0, 4, 4));
    assert!(frame_matches_single_cell(&store, 1, 4, 4));
    assert!(frame_matches_single_cell(&store, 2, 6, 6));
}

#[test]
fn set_cell_out_of_bounds_is_a_no_op() {
    let mut store = FrameStore::new_session();
    store.set_cell(1, 0, 0, true);
    store.set_cell(0, 44, 0, true);
    store.set_cell(0, 0, 11, true);
    for y in 0..11 {
        for x in 0..44 {
            assert!(!store.get_cell(0, x, y));
        }
    }
}

#[test]
fn toggle_cell_flips_one_cell() {
    let mut store = FrameStore::new_session();
    store.toggle_cell(0, 8, 2);
    assert!(store.get_cell(0, 8, 2));
    store.toggle_cell(0, 8, 2);
    assert!(!store.get_cell(0, 8, 2));
}

#[test]
fn clear_frame_turns_every_cell_off() {
    let mut store = FrameStore::new_session();
    store.set_cell(0, 1, 1, true);
    store.set_cell(0, 2, 2, true);
    store.clear_frame(0);
    for y in 0..11 {
        for x in 0..44 {
            assert!(!store.get_cell(0, x, y));
        }
    }
}

#[test]
fn speed_input_is_accepted_only_between_one_and_seven() {
    let mut store = FrameStore::new_session();
    store.set_speed_input(3);
    assert_eq!(store.speed, 3);
    store.set_speed_input(0);
    assert_eq!(store.speed, 3);
    store.set_speed_input(8);
    assert_eq!(store.speed, 3);
    store.set_speed_input(7);
    assert_eq!(store.speed, 7);
}
