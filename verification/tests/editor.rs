use badge_designer::codec::load_config;
use badge_designer::editor::apply_loaded_config;
use badge_designer::editor::ArrowKey;
use badge_designer::editor::EditSession;
use badge_designer::store::FrameStore;

fn count_on_cells(store: &FrameStore, frame: usize) -> usize {
    let mut n = 0;
    for y in 0..11 {
        for x in 0..44 {
            if store.get_cell(frame, x, y) {
                n += 1;
            }
        }
    }
    n
}

#[test]
fn drag_paints_exactly_the_visited_cells() {
    let mut store = FrameStore::new_session();
    let mut session = EditSession::new();
    session.pointer_down(&mut store, 0, 5, 5);
    session.pointer_enter(&mut store, 0, 6, 5);
    session.pointer_enter(&mut store, 0, 7, 5);
    session.pointer_up();
    assert_eq!(count_on_cells(&store, 0), 3);
    assert!(store.get_cell(0, 5, 5));
    assert!(store.get_cell(0, 6, 5));
    assert!(store.get_cell(0, 7, 5));
}

#[test]
fn drag_starting_on_an_on_cell_erases() {
    let mut store = FrameStore::new_session();
    let mut session = EditSession::new();
    session.pointer_down(&mut store, 0, 5, 5);
    session.pointer_enter(&mut store, 0, 6, 5);
    session.pointer_enter(&mut store, 0, 7, 5);
    session.pointer_up();
    session.pointer_down(&mut store, 0, 6, 5);
    assert!(!session.paint_value);
    session.pointer_enter(&mut store, 0, 7, 5);
    session.pointer_up();
    assert_eq!(count_on_cells(&store, 0), 1);
    assert!(store.get_cell(0, 5, 5));
    assert!(!store.get_cell(0, 6, 5));
    assert!(!store.get_cell(0, 7, 5));
}

#[test]
fn pointer_enter_without_drag_paints_nothing() {
    let mut store = FrameStore::new_session();
    let session = EditSession::new();
    session.pointer_enter(&mut store, 0, 3, 3);
    assert_eq!(count_on_cells(&store, 0), 0);
}

#[test]
fn arrow_up_at_top_edge_leaves_focus_unchanged() {
    let mut session = EditSession::new();
    assert_eq!(session.focused_y, 0);
    session.arrow_key(ArrowKey::Up);
    assert_eq!(session.focused_x, 0);
    assert_eq!(session.focused_y, 0);
}

#[test]
fn arrow_keys_clamp_at_every_edge() {
    let mut session = EditSession::new();
    session.arrow_key(ArrowKey::Left);
    assert_eq!((session.focused_x, session.focused_y), (0, 0));
    session.arrow_key(ArrowKey::Right);
    assert_eq!((session.focused_x, session.focused_y), (1, 0));
    session.arrow_key(ArrowKey::Down);
    assert_eq!((session.focused_x, session.focused_y), (1, 1));
    session.arrow_key(ArrowKey::Up);
    assert_eq!((session.focused_x, session.focused_y), (1, 0));
    for _ in 0..60 {
        session.arrow_key(ArrowKey::Right);
    }
    assert_eq!(session.focused_x, 43);
    for _ in 0..20 {
        session.arrow_key(ArrowKey::Down);
    }
    assert_eq!(session.focused_y, 10);
    session.arrow_key(ArrowKey::Right);
    session.arrow_key(ArrowKey::Down);
    assert_eq!((session.focused_x, session.focused_y), (43, 10));
}

#[test]
fn space_toggles_the_focused_cell() {
    let mut store = FrameStore::new_session();
    let mut session = EditSession::new();
    session.arrow_key(ArrowKey::Right);
    session.arrow_key(ArrowKey::Down);
    session.space_key(&mut store);
    assert!(store.get_cell(0, 1, 1));
    session.space_key(&mut store);
    assert!(!store.get_cell(0, 1, 1));
}

#[test]
fn space_on_a_stale_frame_index_is_a_no_op() {
    let mut store = FrameStore::new_session();
    let mut session = EditSession::new();
    session.pointer_down(&mut store, 0, 0, 0);
    session.pointer_up();
    store.remove_frame(0);
    store.add_frame();
    session.focused_frame = 3;
    session.space_key(&mut store);
    assert_eq!(count_on_cells(&store, 0), 0);
}

#[test]
fn nothing_is_persisted_before_the_initial_load_finishes() {
    let mut store = FrameStore::new_session();
    let mut session = EditSession::new();
    assert!(session.config_to_save(&store).is_none());
    session.mark_loaded();
    let saved = session.config_to_save(&store).unwrap();
    let (frames, padding, speed) = load_config(&saved, 0);
    assert_eq!(frames.len(), 1);
    assert_eq!(padding, 0);
    assert_eq!(speed, 5);
}

#[test]
fn a_change_after_load_is_persisted_and_round_trips() {
    let mut store = FrameStore::new_session();
    let mut session = EditSession::new();
    session.mark_loaded();
    session.pointer_down(&mut store, 0, 9, 9);
    session.pointer_up();
    let saved = session.config_to_save(&store).unwrap();
    let (frames, _, _) = load_config(&saved, 0);
    assert!(frames[0].get(9, 9));
    assert!(!frames[0].get(8, 9));
}

#[test]
fn loading_a_valid_config_replaces_the_whole_state() {
    let mut source = FrameStore::new_session();
    source.padding = 2;
    source.speed = 3;
    source.add_frame();
    source.set_cell(1, 20, 4, true);
    let session = {
        let mut s = EditSession::new();
        s.ready = true;
        s
    };
    let config = session.config_to_save(&source).unwrap();
    let mut target = FrameStore::new_session();
    target.set_cell(0, 0, 0, true);
    apply_loaded_config(&mut target, &config, 0);
    assert_eq!(target.frames.len(), 2);
    assert_eq!(target.padding, 2);
    assert_eq!(target.speed, 3);
    assert!(target.get_cell(1, 20, 4));
    assert!(!target.get_cell(0, 0, 0));
}

#[test]
fn loading_a_config_without_frames_keeps_the_state() {
    let mut store = FrameStore::new_session();
    store.set_cell(0, 2, 2, true);
    store.speed = 6;
    apply_loaded_config(&mut store, "speed = 1", 0);
    assert_eq!(store.speed, 6);
    assert!(store.get_cell(0, 2, 2));
    assert_eq!(store.frames.len(), 1);
}
