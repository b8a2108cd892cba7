use daw::render::{
    BarHeights, LevelMeter, RenderTarget, RendererBackend, METER_HOLD_COLOR, METER_PEAK_COLOR, METER_RMS_COLOR,
    OPAQUE_BLACK,
};

#[test]
fn test_render_target_bounds() {
    let mut target = RenderTarget::new(100, 50);
    target.set_pixel(99, 49, 0xFFFFFFFF);
    target.set_pixel(100, 50, 0xDEADBEEF); // out of bounds: ignored
    assert_eq!(target.pixels[49 * 100 + 99], 0xFFFFFFFF);
}

#[test]
fn render_target_new_is_black() {
    let target = RenderTarget::new(8, 4);
    assert_eq!(target.pixels.len(), 32);
    assert!(target.pixels.iter().all(|&p| p == OPAQUE_BLACK));
    let empty = RenderTarget::new(0, 10);
    assert!(empty.pixels.is_empty());
}

#[test]
fn render_target_clear_and_set() {
    let mut target = RenderTarget::new(4, 3);
    target.clear(0x11223344);
    assert!(target.pixels.iter().all(|&p| p == 0x11223344));
    target.set_pixel(2, 1, 7);
    assert_eq!(target.pixels[1 * 4 + 2], 7);
    target.set_pixel(4, 0, 9);
    target.set_pixel(0, 3, 9);
    assert_eq!(target.pixels.iter().filter(|&&p| p == 9).count(), 0);
    assert_eq!(RendererBackend::Cpu, RendererBackend::Cpu);
    assert_ne!(RendererBackend::Cpu, RendererBackend::Gpu);
}

#[test]
fn level_meter_hold_counters() {
    let mut meter = LevelMeter::new(2, 300);
    let mut held = vec![0u32, 0u32];
    assert_eq!(meter.hold_remaining(0), 0);
    assert_eq!(meter.hold_remaining(1), 0);
    // Channel 0 reaches a new peak; channel 1 has no hold and follows its peak.
    meter.advance_holds(&mut held, &vec![80, 20], &vec![true, false], &vec![128, 128]);
    assert_eq!((meter.hold_remaining(0), meter.hold_remaining(1)), (300, 0));
    assert_eq!(held, vec![80, 20]);
    // Below the held peak: the hold counts the samples off and keeps the level.
    meter.advance_holds(&mut held, &vec![50, 30], &vec![false, true], &vec![128, 128]);
    assert_eq!((meter.hold_remaining(0), meter.hold_remaining(1)), (172, 300));
    assert_eq!(held, vec![80, 30]);
    meter.advance_holds(&mut held, &vec![40, 10], &vec![false, false], &vec![128, 128]);
    assert_eq!((meter.hold_remaining(0), meter.hold_remaining(1)), (44, 172));
    assert_eq!(held, vec![80, 30]);
    // The hold on channel 0 runs out: its level falls to the current peak.
    meter.advance_holds(&mut held, &vec![40, 10], &vec![false, false], &vec![128, 128]);
    assert_eq!((meter.hold_remaining(0), meter.hold_remaining(1)), (0, 44));
    assert_eq!(held, vec![40, 30]);
    assert_eq!(meter.channels, 2);
    assert_eq!(meter.peak_hold_samples, 300);
}

#[test]
fn render_fill_rect_clips_to_target() {
    let mut target = RenderTarget::new(4, 4);
    target.fill_rect(1, 3, 0, 2, 5);
    for y in 0..4u32 {
        for x in 0..4u32 {
            let expected = if (1..3).contains(&x) && y < 2 { 5 } else { OPAQUE_BLACK };
            assert_eq!(target.pixels[(y * 4 + x) as usize], expected, "pixel ({}, {})", x, y);
        }
    }
    target.fill_rect(2, 10, 3, 10, 6);
    assert_eq!(target.pixels[3 * 4 + 2], 6);
    assert_eq!(target.pixels[3 * 4 + 3], 6);
    assert_eq!(target.pixels[3 * 4 + 1], OPAQUE_BLACK);
    target.fill_rect(3, 1, 0, 4, 7);
    assert!(!target.pixels.contains(&7));
}

#[test]
fn render_meter_bars_layout() {
    let mut target = RenderTarget::new(4, 4);
    let bars = vec![BarHeights { rms: 2, peak: 3, hold: 4 }, BarHeights { rms: 0, peak: 0, hold: 0 }];
    LevelMeter::render_bars(&bars, &mut target);
    for x in 0..2usize {
        assert_eq!(target.pixels[0 * 4 + x], METER_HOLD_COLOR);
        assert_eq!(target.pixels[1 * 4 + x], METER_PEAK_COLOR);
        assert_eq!(target.pixels[2 * 4 + x], METER_RMS_COLOR);
        assert_eq!(target.pixels[3 * 4 + x], METER_RMS_COLOR);
    }
    for y in 0..4usize {
        assert_eq!(target.pixels[y * 4 + 2], OPAQUE_BLACK);
        assert_eq!(target.pixels[y * 4 + 3], OPAQUE_BLACK);
    }
}

#[test]
fn render_meter_bars_more_channels_than_columns() {
    let mut target = RenderTarget::new(2, 2);
    let bars = vec![BarHeights { rms: 2, peak: 0, hold: 0 }; 5];
    LevelMeter::render_bars(&bars, &mut target);
    assert!(target.pixels.iter().all(|&p| p == METER_RMS_COLOR));
    let mut untouched = RenderTarget::new(3, 3);
    LevelMeter::render_bars(&Vec::new(), &mut untouched);
    assert!(untouched.pixels.iter().all(|&p| p == OPAQUE_BLACK));
}

#[test]
fn render_paste_rows_places_source_below_offset() {
    let mut target = RenderTarget::new(3, 4);
    let mut top = RenderTarget::new(3, 2);
    top.clear(1);
    top.set_pixel(2, 1, 9);
    let mut bottom = RenderTarget::new(3, 2);
    bottom.clear(2);
    target.paste_rows(&top, 0);
    target.paste_rows(&bottom, 2);
    assert_eq!(target.pixels, vec![1, 1, 1, 1, 1, 9, 2, 2, 2, 2, 2, 2]);
    // Rows that fall below the target are dropped.
    let mut short = RenderTarget::new(3, 3);
    short.paste_rows(&bottom, 2);
    assert_eq!(short.pixels[6..], [2, 2, 2]);
    assert_eq!(short.pixels[..6], [OPAQUE_BLACK; 6]);
    short.paste_rows(&bottom, 7);
    assert_eq!(short.pixels[6..], [2, 2, 2]);
}

#[test]
fn render_set_pixel_on_a_longer_buffer() {
    let mut target = RenderTarget { pixels: vec![0u32; 60], width: 5, height: 10 };
    target.set_pixel(4, 9, 7);
    target.set_pixel(5, 9, 8);
    target.set_pixel(0, 10, 9);
    assert_eq!(target.pixels[49], 7);
    assert_eq!(target.pixels.len(), 60);
    assert_eq!(target.pixels.iter().filter(|&&p| p != 0).count(), 1);
}
