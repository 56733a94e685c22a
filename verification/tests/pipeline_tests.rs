use tp_led_matrix::Color;
use tp_led_matrix::pipeline::Pipeline;

/// Feed every byte of `bytes`, returning how many of them completed a
/// frame.
fn feed(pipeline: &mut Pipeline, bytes: &[u8]) -> usize {
    let mut completed = 0;
    for &b in bytes {
        if pipeline.receive_byte(b) {
            completed += 1;
        }
    }
    completed
}

/// A full frame whose 64 pixels all have the given channel bytes.
fn solid_payload(r: u8, g: u8, b: u8) -> Vec<u8> {
    let mut payload = Vec::new();
    for _ in 0..64 {
        payload.push(r);
        payload.push(g);
        payload.push(b);
    }
    payload
}

#[test]
fn write_offset_stays_in_range_and_sentinel_resets_it() {
    let mut p = Pipeline::new();
    assert_eq!(p.next_pos(), 0);
    feed(&mut p, &[1, 2, 3, 4, 5]);
    assert_eq!(p.next_pos(), 5);
    p.receive_byte(0xFF);
    assert_eq!(p.next_pos(), 0);
    // A longer mixed stream never pushes the offset out of [0, 192).
    for i in 0..1000u32 {
        let b = if i % 97 == 0 { 0xFF } else { (i % 251) as u8 };
        p.receive_byte(b);
        assert!(p.next_pos() < 192);
        if b == 0xFF {
            assert_eq!(p.next_pos(), 0);
        }
    }
}

#[test]
fn frame_completes_after_192_payload_bytes() {
    let mut p = Pipeline::new();
    assert!(!p.has_pending());
    let payload = solid_payload(1, 2, 3);
    assert_eq!(payload.len(), 192);
    let completed = feed(&mut p, &payload);
    assert_eq!(completed, 1);
    assert_eq!(p.next_pos(), 0);
    assert!(p.has_pending());
    assert_eq!(p.pending_pixel(4, 4), Some(Color { r: 1, g: 2, b: 3 }));
}

#[test]
fn back_to_back_frames_replace_the_pending_one() {
    let mut p = Pipeline::new();
    feed(&mut p, &solid_payload(10, 0, 0));
    assert!(p.has_pending());
    assert_eq!(p.pending_pixel(0, 0), Some(Color { r: 10, g: 0, b: 0 }));
    // The second frame installs over the occupied pending cell: the
    // first frame's buffer is released and reused, nothing leaks, and
    // the pool still serves a third, fourth, fifth frame.
    feed(&mut p, &solid_payload(0, 20, 0));
    assert!(p.has_pending());
    assert_eq!(p.pending_pixel(0, 0), Some(Color { r: 0, g: 20, b: 0 }));
    for n in 1..4u8 {
        feed(&mut p, &solid_payload(n, n, n));
        assert_eq!(p.pending_pixel(7, 7), Some(Color { r: n, g: n, b: n }));
    }
}

#[test]
fn display_swaps_only_at_the_frame_boundary() {
    let mut p = Pipeline::new();
    feed(&mut p, &solid_payload(99, 0, 0));
    assert!(p.has_pending());
    // Rows 0 through 6: the displayed buffer stays the initial black
    // frame and the pending frame stays put.
    for expected_row in 0..7 {
        assert_eq!(p.next_line(), expected_row);
        let row = p.display_tick();
        assert_eq!(row.len(), 8);
        assert!(row.iter().all(|c| *c == Color { r: 0, g: 0, b: 0 }));
        assert!(p.has_pending());
        assert_eq!(p.current_pixel(0, 0), Color { r: 0, g: 0, b: 0 });
    }
    // Row 7 is emitted from the old frame; then the wraparound swaps.
    let row = p.display_tick();
    assert!(row.iter().all(|c| *c == Color { r: 0, g: 0, b: 0 }));
    assert_eq!(p.next_line(), 0);
    assert!(!p.has_pending());
    assert_eq!(p.current_pixel(0, 0), Color { r: 99, g: 0, b: 0 });
    let row = p.display_tick();
    assert!(row.iter().all(|c| *c == Color { r: 99, g: 0, b: 0 }));
}

#[test]
fn same_payload_twice_gives_identical_frames() {
    let mut p = Pipeline::new();
    // Put the decoder somewhere mid-frame first.
    feed(&mut p, &[7, 7, 7]);
    let payload = solid_payload(5, 6, 7);
    p.receive_byte(0xFF);
    feed(&mut p, &payload);
    let mut first = Vec::new();
    for row in 0..8 {
        for col in 0..8 {
            first.push(p.pending_pixel(row, col).unwrap());
        }
    }
    p.receive_byte(0xFF);
    feed(&mut p, &payload);
    let mut second = Vec::new();
    for row in 0..8 {
        for col in 0..8 {
            second.push(p.pending_pixel(row, col).unwrap());
        }
    }
    assert_eq!(first, second);
}

#[test]
fn brightest_red_frame_reaches_the_display() {
    // 255 is the sentinel and can never travel as a payload byte, so
    // the brightest red a frame can carry is 254.
    let mut p = Pipeline::new();
    p.receive_byte(0xFF);
    feed(&mut p, &solid_payload(0xFE, 0x00, 0x00));
    p.notice_change();
    // Swap in at the next frame boundary.
    for _ in 0..8 {
        p.display_tick();
    }
    let row = p.display_tick();
    assert_eq!(row.len(), 8);
    for pixel in row {
        assert_eq!(pixel, Color { r: 0xFE, g: 0x00, b: 0x00 });
    }
}

#[test]
fn sentinel_valued_payload_never_completes_a_frame() {
    // A stream that tries to carry 0xFF as payload only keeps
    // resynchronizing: no frame ever completes.
    let mut p = Pipeline::new();
    let mut stream = Vec::new();
    for _ in 0..64 {
        stream.push(0xFF);
        stream.push(0x00);
        stream.push(0x00);
    }
    let completed = feed(&mut p, &stream);
    assert_eq!(completed, 0);
    assert!(!p.has_pending());
    assert_eq!(p.next_pos(), 2);
}

#[test]
fn partial_frame_is_discarded_by_the_sentinel() {
    let mut p = Pipeline::new();
    // 100 bytes of a frame that never finishes.
    feed(&mut p, &vec![0xAB; 100]);
    assert_eq!(p.next_pos(), 100);
    assert!(!p.has_pending());
    // Resynchronize, then send a full valid frame.
    p.receive_byte(0xFF);
    let completed = feed(&mut p, &solid_payload(1, 2, 3));
    assert_eq!(completed, 1);
    for row in 0..8 {
        for col in 0..8 {
            assert_eq!(p.pending_pixel(row, col), Some(Color { r: 1, g: 2, b: 3 }));
        }
    }
}

#[test]
fn idle_ticks_install_palette_colors_round_robin() {
    let mut p = Pipeline::new();
    assert!(!p.has_pending());
    // Three ticks with no input: red, green, blue gradients in turn,
    // each replacing the previous uninstalled frame.
    p.screensaver_tick();
    assert!(p.has_pending());
    assert_eq!(p.pending_pixel(0, 0), Some(Color { r: 255, g: 0, b: 0 }));
    assert_eq!(p.pending_pixel(0, 1), Some(Color { r: 128, g: 0, b: 0 }));
    p.screensaver_tick();
    assert_eq!(p.pending_pixel(0, 0), Some(Color { r: 0, g: 255, b: 0 }));
    p.screensaver_tick();
    assert_eq!(p.pending_pixel(0, 0), Some(Color { r: 0, g: 0, b: 255 }));
    // And the palette wraps around.
    p.screensaver_tick();
    assert_eq!(p.pending_pixel(0, 0), Some(Color { r: 255, g: 0, b: 0 }));
}

#[test]
fn flowing_input_keeps_the_screensaver_away() {
    let mut p = Pipeline::new();
    let mut payload = Vec::new();
    for i in 0..192u32 {
        payload.push((i % 200) as u8);
    }
    for _ in 0..3 {
        // A frame arrives (and is noticed) between ticks.
        feed(&mut p, &payload);
        p.notice_change();
        // Let the display consume it so the pending cell is empty when
        // the screensaver looks.
        for _ in 0..8 {
            p.display_tick();
        }
        assert!(!p.has_pending());
        p.screensaver_tick();
        // The counter moved, so the screensaver installed nothing.
        assert!(!p.has_pending());
    }
}

#[test]
fn change_counter_counts_notifications() {
    let mut p = Pipeline::new();
    assert_eq!(p.changes(), 0);
    p.notice_change();
    p.notice_change();
    assert_eq!(p.changes(), 2);
}
