use chip8::framebuffer::FrameBuffer;

#[test]
fn draw_sets_pixels_and_reports_no_collision_on_clear_grid() {
    let mut fb = FrameBuffer::new();
    // 0xF0: the four high bits set
    let collision = fb.draw(0, 0, &[0xF0]);
    assert!(!collision);
    for cx in 0..4 {
        assert!(fb.is_set(cx, 0));
    }
    for cx in 4..8 {
        assert!(!fb.is_set(cx, 0));
    }
}

#[test]
fn draw_wraps_at_right_edge() {
    let mut fb = FrameBuffer::new();
    // an 8x1 sprite at x = 60 lands on columns 60..63 and 0..3
    let collision = fb.draw(60, 0, &[0xFF]);
    assert!(!collision);
    for cx in [60usize, 61, 62, 63, 0, 1, 2, 3] {
        assert!(fb.is_set(cx, 0));
    }
    for cx in 4..60 {
        assert!(!fb.is_set(cx, 0));
    }
}

#[test]
fn draw_wraps_at_bottom_edge() {
    let mut fb = FrameBuffer::new();
    let collision = fb.draw(0, 30, &[0x80, 0x80, 0x80, 0x80]);
    assert!(!collision);
    assert!(fb.is_set(0, 30));
    assert!(fb.is_set(0, 31));
    assert!(fb.is_set(0, 0));
    assert!(fb.is_set(0, 1));
}

#[test]
fn redraw_restores_prior_state_and_reports_collision() {
    let mut fb = FrameBuffer::new();
    let first = fb.draw(10, 5, &[0xF0, 0x90, 0x90, 0x90, 0xF0]);
    assert!(!first);
    let second = fb.draw(10, 5, &[0xF0, 0x90, 0x90, 0x90, 0xF0]);
    // the second draw erases everything the first set
    assert!(second);
    for cy in 0..32 {
        for cx in 0..64 {
            assert!(!fb.is_set(cx, cy));
        }
    }
}

#[test]
fn draw_over_set_pixels_reports_collision() {
    let mut fb = FrameBuffer::new();
    assert!(!fb.draw(0, 0, &[0xFF]));
    // overlaps in its low four bits only
    assert!(fb.draw(4, 0, &[0xF0]));
    // XOR turned the overlap off
    for cx in 0..4 {
        assert!(fb.is_set(cx, 0));
    }
    for cx in 4..8 {
        assert!(!fb.is_set(cx, 0));
    }
}

#[test]
fn clear_resets_every_pixel() {
    let mut fb = FrameBuffer::new();
    fb.draw(3, 3, &[0xFF, 0xFF]);
    fb.clear();
    for cy in 0..32 {
        for cx in 0..64 {
            assert!(!fb.is_set(cx, cy));
        }
    }
}
