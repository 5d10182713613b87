use touchhle::gles::wgpu::oriented_frame;
use touchhle::gles::present::{
    hud_architecture_label, onscreen_hud_text, overlay_software_hud, set_onscreen_fps_enabled,
    set_onscreen_hud_architecture, set_onscreen_hud_text, FpsCounter, HudState,
};

#[test]
fn fps_counter_closes_one_second_windows() {
    let mut counter = FpsCounter::start(1_000);
    assert_eq!(counter.count_frame(500_000_000), None);
    assert_eq!(counter.count_frame(900_000_000), None);
    assert_eq!(counter.count_frame(1_000_001_000), Some((3, 1_000_000_000)));
    assert_eq!(counter.frames, 0);
    assert_eq!(counter.time_ns, 1_000_001_000);
    // A clock that went backwards counts as no time passed.
    assert_eq!(counter.count_frame(5), None);
    assert_eq!(counter.frames, 1);
}

#[test]
fn hud_settings() {
    let mut hud = HudState::new();
    assert_eq!(hud_architecture_label(&hud), "ARM32/ARM64");
    set_onscreen_fps_enabled(&mut hud, true);
    set_onscreen_hud_architecture(&mut hud, "ARM64");
    assert!(hud.onscreen_fps_enabled);
    assert_eq!(hud_architecture_label(&hud), "ARM64");
}

#[test]
fn hud_text_is_drawn_as_scaled_glyphs() {
    let width = 320u32;
    let height = 60u32;
    let mut pixels = vec![0u8; (width * height * 4) as usize];
    overlay_software_hud(&mut pixels, width, height, Some("1"));
    let at = |x: u32, y: u32| ((y * width + x) * 4) as usize;
    // The top row of "1" is 0x18: its pixels 3 and 4, six screen pixels
    // each, from x = 8 + 3 * 6 on.
    assert_eq!(&pixels[at(26, 8)..at(26, 8) + 4], &[255, 255, 255, 255]);
    assert_eq!(&pixels[at(37, 13)..at(37, 13) + 4], &[255, 255, 255, 255]);
    assert_eq!(pixels[at(25, 8)], 0);
    assert_eq!(pixels[at(38, 8)], 0);
    assert_eq!(pixels[at(26, 7)], 0);
    assert_eq!(pixels[at(8, 8)], 0);
    let lit = pixels.iter().filter(|&&b| b == 255).count();
    // "1" has 19 pixels set, each a 6x6 square of 4 bytes.
    assert_eq!(lit, 19 * 36 * 4);
}

#[test]
fn hud_off_leaves_the_frame_alone() {
    let mut pixels = vec![7u8; 64 * 64 * 4];
    overlay_software_hud(&mut pixels, 64, 64, None);
    assert!(pixels.iter().all(|&b| b == 7));
    let mut pixels = vec![0u8; 16 * 16 * 4];
    overlay_software_hud(&mut pixels, 16, 16, Some("1"));
    assert!(pixels.iter().all(|&b| b == 0));
}

#[test]
fn hud_on_an_empty_frame_draws_nothing() {
    let mut pixels: Vec<u8> = vec![7; 16];
    overlay_software_hud(&mut pixels, 0x8000_0000, 0, Some("FPS 60"));
    assert_eq!(pixels, vec![7; 16]);
}

#[test]
fn the_last_enable_call_decides_the_hud_text() {
    let mut hud = HudState::new();
    assert_eq!(onscreen_hud_text(&hud, false), None);
    set_onscreen_hud_text(&mut hud, "60.0 FPS");
    assert_eq!(onscreen_hud_text(&hud, false), None);
    assert_eq!(onscreen_hud_text(&hud, true), Some("60.0 FPS".to_string()));
    set_onscreen_fps_enabled(&mut hud, true);
    assert_eq!(onscreen_hud_text(&hud, false), Some("60.0 FPS".to_string()));
    set_onscreen_fps_enabled(&mut hud, false);
    assert_eq!(onscreen_hud_text(&hud, false), None);
    let mut pixels = vec![7u8; 320 * 20 * 4];
    overlay_software_hud(&mut pixels, 320, 20, onscreen_hud_text(&hud, false).as_deref());
    assert!(pixels.iter().all(|&b| b == 7));
    set_onscreen_fps_enabled(&mut hud, true);
    set_onscreen_hud_text(&mut hud, "");
    assert_eq!(onscreen_hud_text(&hud, false), None);
}

#[test]
fn frames_are_turned_over_when_bottom_up() {
    let pixels: Vec<u8> = (0..16).collect();
    let flipped = oriented_frame(&pixels, 2, 2, true).unwrap();
    assert_eq!(flipped, vec![8, 9, 10, 11, 12, 13, 14, 15, 0, 1, 2, 3, 4, 5, 6, 7]);
    assert_eq!(oriented_frame(&pixels, 2, 2, false).unwrap(), pixels);
    assert_eq!(
        oriented_frame(&pixels[..15], 2, 2, true),
        Err("invalid WGPU frame dimensions 2x2 with 15 bytes".to_string())
    );
}
