use badge_designer::codec::create_config;
use badge_designer::codec::load_config;
use badge_designer::frame::Frame;
use badge_designer::frame::GRID_CELLS;
use badge_designer::store::FrameStore;

fn blank_header(speed: u8, padding: u8) -> String {
    format!(
        "[[message]]\nspeed = {}\nmode = \"fast\"\n# the padding value is editor metadata; the badge flashing tool ignores it\npadding = {}\nbitstring = \"\"\"\n",
        speed, padding
    )
}

fn bitstring_lines(config: &str) -> Vec<String> {
    let mut in_bits = false;
    let mut rows: Vec<String> = Vec::new();
    for line in config.lines() {
        if line.starts_with("bitstring =") {
            in_bits = true;
        } else if in_bits {
            if line.trim() == "\"\"\"" {
                in_bits = false;
            } else {
                rows.push(line.to_string());
            }
        }
    }
    rows
}

#[test]
fn blank_frame_encodes_to_expected_document() {
    let store = FrameStore::new_session();
    let config = create_config(&store.frames, store.padding, store.speed);
    let mut expected = blank_header(5, 0);
    for _ in 0..11 {
        expected.push_str(&"_".repeat(44));
        expected.push('\n');
    }
    expected.push_str("\"\"\"");
    assert_eq!(config, expected);
}

#[test]
fn blank_document_decodes_to_blank_frame() {
    let store = FrameStore::new_session();
    let config = create_config(&store.frames, store.padding, store.speed);
    let (frames, padding, speed) = load_config(&config, 9);
    assert_eq!(frames.len(), 1);
    assert_eq!(padding, 0);
    assert_eq!(speed, 5);
    for y in 0..11 {
        for x in 0..44 {
            assert!(!frames[0].get(x, y));
        }
    }
}

#[test]
fn round_trip_preserves_frames_padding_and_speed() {
    let mut store = FrameStore::new_session();
    store.padding = 3;
    store.speed = 2;
    store.add_frame();
    store.set_cell(0, 0, 0, true);
    store.set_cell(0, 43, 10, true);
    store.set_cell(0, 7, 4, true);
    store.set_cell(1, 21, 5, true);
    store.set_cell(1, 0, 10, true);
    let config = create_config(&store.frames, store.padding, store.speed);
    let (frames, padding, speed) = load_config(&config, 0);
    assert_eq!(padding, 3);
    assert_eq!(speed, 2);
    assert_eq!(frames.len(), 2);
    for f in 0..2 {
        for y in 0..11 {
            for x in 0..44 {
                assert_eq!(frames[f].get(x, y), store.get_cell(f, x, y));
            }
        }
    }
}

#[test]
fn encoded_bitstring_has_eleven_lines_of_expected_width() {
    let mut store = FrameStore::new_session();
    store.padding = 5;
    store.add_frame();
    store.set_cell(1, 3, 3, true);
    let config = create_config(&store.frames, store.padding, store.speed);
    let rows = bitstring_lines(&config);
    assert_eq!(rows.len(), 11);
    for row in &rows {
        assert_eq!(row.len(), 2 * (44 + 5));
    }
}

#[test]
fn truncated_data_row_reads_as_off_cells() {
    let mut doc = String::from("[[message]]\nspeed = 3\npadding = 0\nbitstring = \"\"\"\n");
    doc.push_str("XX\n");
    for _ in 0..10 {
        doc.push_str(&"X".repeat(44));
        doc.push('\n');
    }
    doc.push_str("\"\"\"");
    let (frames, padding, speed) = load_config(&doc, 0);
    assert_eq!(padding, 0);
    assert_eq!(speed, 3);
    assert_eq!(frames.len(), 1);
    for x in 0..44 {
        assert!(!frames[0].get(x, 0));
    }
    for y in 1..11 {
        for x in 0..44 {
            assert!(frames[0].get(x, y));
        }
    }
}

#[test]
fn unparsable_speed_falls_back_to_five() {
    let doc = "[[message]]\nspeed = fast\npadding = 2\nbitstring = \"\"\"\n____\n\"\"\"";
    let (_, padding, speed) = load_config(doc, 0);
    assert_eq!(speed, 5);
    assert_eq!(padding, 2);
}

#[test]
fn unparsable_padding_falls_back_to_caller_value() {
    let doc = "[[message]]\nspeed = 4\npadding = wide\nbitstring = \"\"\"\n\"\"\"";
    let (_, padding, speed) = load_config(doc, 7);
    assert_eq!(padding, 7);
    assert_eq!(speed, 4);
}

#[test]
fn missing_padding_field_keeps_caller_value() {
    let doc = "[[message]]\nspeed = 6\nbitstring = \"\"\"\n\"\"\"";
    let (_, padding, speed) = load_config(doc, 4);
    assert_eq!(padding, 4);
    assert_eq!(speed, 6);
}

#[test]
fn out_of_range_speed_is_stored_as_found() {
    let doc = "[[message]]\nspeed = 200\npadding = 0\nbitstring = \"\"\"\n\"\"\"";
    let (_, _, speed) = load_config(doc, 0);
    assert_eq!(speed, 200);
    let doc2 = "[[message]]\nspeed = 300\npadding = 0\nbitstring = \"\"\"\n\"\"\"";
    let (_, _, speed2) = load_config(doc2, 0);
    assert_eq!(speed2, 5);
}

#[test]
fn empty_document_yields_no_frames() {
    let (frames, padding, speed) = load_config("", 6);
    assert!(frames.is_empty());
    assert_eq!(padding, 6);
    assert_eq!(speed, 5);
}

#[test]
fn nonzero_padding_round_trips_from_document() {
    let mut store = FrameStore::new_session();
    store.padding = 9;
    store.speed = 7;
    store.set_cell(0, 12, 6, true);
    let config = create_config(&store.frames, store.padding, store.speed);
    let (frames, padding, speed) = load_config(&config, 0);
    assert_eq!(padding, 9);
    assert_eq!(speed, 7);
    assert_eq!(frames.len(), 1);
    assert!(frames[0].get(12, 6));
    assert!(!frames[0].get(11, 6));
}

#[test]
fn padding_filler_columns_are_underscores() {
    let mut store = FrameStore::new_session();
    store.padding = 2;
    for x in 0..44 {
        store.set_cell(0, x, 0, true);
    }
    let config = create_config(&store.frames, store.padding, store.speed);
    let rows = bitstring_lines(&config);
    assert_eq!(rows[0], format!("{}__", "X".repeat(44)));
}

#[test]
fn frame_blank_is_all_off() {
    let f = Frame::blank();
    let mut off = 0;
    for y in 0..11 {
        for x in 0..44 {
            if !f.get(x, y) {
                off += 1;
            }
        }
    }
    assert_eq!(off, GRID_CELLS);
}

#[test]
fn data_rows_beyond_the_eleventh_are_ignored() {
    let mut doc = String::from("[[message]]\nspeed = 2\npadding = 0\nbitstring = \"\"\"\n");
    for _ in 0..11 {
        doc.push_str(&"_".repeat(44));
        doc.push('\n');
    }
    doc.push_str(&"X".repeat(44));
    doc.push('\n');
    doc.push_str("\"\"\"");
    let (frames, _, speed) = load_config(&doc, 0);
    assert_eq!(speed, 2);
    assert_eq!(frames.len(), 1);
    for y in 0..11 {
        for x in 0..44 {
            assert!(!frames[0].get(x, y));
        }
    }
}
