use std::collections::VecDeque;

use audio_visualiser::audio::analysis::{truncate_history, SampleWindow, FFT_SIZE, HOP_SIZE};
use audio_visualiser::render::{clear_frame, fill_frame, BACKGROUND, HEIGHT, WIDTH};
use audio_visualiser::visualisation::render::{
    clear_frame as clear_frame_with, BackgroundMode, ColourPalette, BLACK_BACKGROUND,
    TRANSPARENT_BACKGROUND, WHITE_BACKGROUND,
};

fn pixel_at(frame: &[u8], x: u32, y: u32) -> &[u8] {
    let start = ((y * WIDTH + x) * 4) as usize;
    &frame[start..start + 4]
}

fn sample_palette() -> ColourPalette {
    let mut normal = [[0_u8, 0, 0, 255]; 33];
    let mut pulsing = [[0_u8, 0, 0, 255]; 33];
    for (index, colour) in normal.iter_mut().enumerate() {
        *colour = [index as u8, 100, 200, 255];
    }
    for (index, colour) in pulsing.iter_mut().enumerate() {
        *colour = [index as u8, 150, 250, 255];
    }
    ColourPalette::from_variants(normal, pulsing)
}

#[test]
fn clear_frame_is_fully_transparent() {
    let mut frame = vec![255; (WIDTH * HEIGHT * 4) as usize];
    clear_frame(&mut frame);
    assert_eq!(pixel_at(&frame, WIDTH / 2, HEIGHT / 2), BACKGROUND);
    assert!(frame.iter().all(|byte| *byte == 0));
}

#[test]
fn clear_frame_uses_the_selected_background() {
    let mut frame = vec![255; (WIDTH * HEIGHT * 4) as usize];
    let palette = sample_palette();
    for (mode, expected) in [
        (BackgroundMode::Black, BLACK_BACKGROUND),
        (BackgroundMode::White, WHITE_BACKGROUND),
        (BackgroundMode::Transparent, TRANSPARENT_BACKGROUND),
        (BackgroundMode::Boid, [16, 100, 200, 255]),
    ] {
        clear_frame_with(&mut frame, mode, &palette);
        assert_eq!(pixel_at(&frame, WIDTH / 2, HEIGHT / 2), expected);
    }
}

#[test]
fn fill_leaves_a_trailing_partial_pixel_alone() {
    let mut frame = vec![9_u8; 10];
    fill_frame(&mut frame, [1, 2, 3, 4]);
    assert_eq!(frame, vec![1, 2, 3, 4, 1, 2, 3, 4, 9, 9]);
}

#[test]
fn background_modes_cycle_in_display_order() {
    assert_eq!(BackgroundMode::Black.next(), BackgroundMode::White);
    assert_eq!(BackgroundMode::White.next(), BackgroundMode::Transparent);
    assert_eq!(BackgroundMode::Transparent.next(), BackgroundMode::Boid);
    assert_eq!(BackgroundMode::Boid.next(), BackgroundMode::Black);
}

#[test]
fn four_steps_return_to_the_same_background() {
    for mode in [
        BackgroundMode::Black,
        BackgroundMode::White,
        BackgroundMode::Transparent,
        BackgroundMode::Boid,
    ] {
        assert_ne!(mode.next(), mode);
        assert_eq!(mode.next().next().next().next(), mode);
    }
    assert_eq!(BackgroundMode::default(), BackgroundMode::Transparent);
}

#[test]
fn palette_centre_is_the_base_colour_and_indices_are_clamped() {
    let palette = sample_palette();
    assert_eq!(palette.base_colour(), [16, 100, 200, 255]);
    assert_eq!(palette.variant(3), ([3, 100, 200, 255], [3, 150, 250, 255]));
    assert_eq!(palette.variant(32), ([32, 100, 200, 255], [32, 150, 250, 255]));
    assert_eq!(palette.variant(200), palette.variant(32));
    assert_eq!(BackgroundMode::Boid.colour(&palette), palette.base_colour());
}

#[test]
fn incomplete_window_produces_no_features() {
    let mut window = SampleWindow::new();
    window.extend_from_slice(&vec![0.0_f32; FFT_SIZE - 1]);
    assert!(window.frame().is_none());
}

#[test]
fn overlapping_windows_produce_a_new_frame_after_each_hop() {
    let mut window = SampleWindow::new();
    window.extend_from_slice(&vec![0.0_f32; FFT_SIZE]);
    assert!(window.frame().is_some());
    window.advance();
    window.compact();
    window.extend_from_slice(&vec![0.0_f32; HOP_SIZE - 1]);
    assert!(window.frame().is_none());
    window.extend_from_slice(&[0.0]);
    assert!(window.frame().is_some());
}

#[test]
fn windows_start_one_hop_apart() {
    let samples: Vec<u32> = (0..(FFT_SIZE + 3 * HOP_SIZE) as u32).collect();
    let mut window = SampleWindow::new();
    window.extend_from_slice(&samples);
    let mut starts = Vec::new();
    while let Some(frame) = window.frame() {
        assert_eq!(frame.len(), FFT_SIZE);
        assert_eq!(frame[FFT_SIZE - 1], frame[0] + FFT_SIZE as u32 - 1);
        starts.push(frame[0]);
        window.advance();
        window.compact();
    }
    assert_eq!(starts, vec![0, 512, 1024, 1536]);
    assert_eq!(window.pending(), FFT_SIZE - HOP_SIZE);
}

#[test]
fn compaction_keeps_the_pending_samples() {
    let samples: Vec<u32> = (0..20_000).collect();
    let mut window = SampleWindow::new();
    window.extend_from_slice(&samples);
    for _ in 0..17 {
        window.advance();
    }
    window.compact();
    assert_eq!(window.pending(), 20_000 - 17 * HOP_SIZE);
    assert_eq!(window.frame().unwrap()[0], (17 * HOP_SIZE) as u32);
}

#[test]
fn history_keeps_only_the_newest_entries() {
    let mut history: VecDeque<u32> = (1..=10).collect();
    truncate_history(&mut history, 4);
    assert_eq!(history, VecDeque::from(vec![7, 8, 9, 10]));
    truncate_history(&mut history, 8);
    assert_eq!(history, VecDeque::from(vec![7, 8, 9, 10]));
}
