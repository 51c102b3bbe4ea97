use filevis::canvas::{pixel_position, update_canvas, Canvas, CANVAS_SIDE};
use filevis::digraph::vec_u8_to_u16;
use filevis::frequency::compute_freqs;
use filevis::histogram::DIGRAPH_KINDS;
use filevis::params::{Command, ViewParameters};
use filevis::state::ViewState;

#[test]
fn new_canvas_is_black() {
    let c = Canvas::new();
    assert_eq!(c.levels().len(), DIGRAPH_KINDS);
    assert_eq!(CANVAS_SIDE * CANVAS_SIDE, DIGRAPH_KINDS);
    assert!(c.levels().iter().all(|l| *l == 0));
}

#[test]
fn pixel_position_is_low_byte_then_high_byte() {
    assert_eq!(pixel_position(0x0000), (0, 0));
    assert_eq!(pixel_position(0x00FF), (255, 0));
    assert_eq!(pixel_position(0xFF00), (0, 255));
    assert_eq!(pixel_position(0x1234), (0x34, 0x12));
    assert_eq!(pixel_position(0xFFFF), (255, 255));
}

#[test]
fn four_byte_file_lights_two_pixels() {
    let digraphs = vec_u8_to_u16(vec![0x00, 0xFF, 0x00, 0xFF]);
    assert_eq!(digraphs, vec![0x00FF, 0xFF00]);
    let freqs = compute_freqs(digraphs);
    assert_eq!(freqs.len(), DIGRAPH_KINDS);
    for k in 0..DIGRAPH_KINDS {
        let f = freqs.get(k).unwrap();
        assert_eq!(f.denominator(), 1);
        let expected = if k == 0x00FF || k == 0xFF00 { 1 } else { 0 };
        assert_eq!(f.numerator(), expected);
    }
    let mut canvas = Canvas::new();
    update_canvas(&mut canvas, &freqs, &ViewParameters::new());
    for k in 0..DIGRAPH_KINDS {
        let expected = if k == 0x00FF || k == 0xFF00 { 255 } else { 0 };
        assert_eq!(canvas.levels()[k], expected);
    }
    assert_eq!(canvas.level_of(0x00FF), 255);
    assert_eq!(canvas.level_of(0xFF00), 255);
    assert_eq!(canvas.level_of(0x0000), 0);
    assert_eq!(canvas.level_at(255, 0), 255);
    assert_eq!(canvas.level_at(0, 255), 255);
    assert_eq!(canvas.level_at(255, 255), 0);
}

#[test]
fn empty_table_leaves_the_canvas_alone() {
    let mut canvas = Canvas::new();
    update_canvas(&mut canvas, &compute_freqs(vec![3, 3, 4]), &ViewParameters::new());
    let before = canvas.levels().clone();
    assert_eq!(before[3], 255);
    assert_eq!(before[4], 127);
    update_canvas(&mut canvas, &compute_freqs(vec![]), &ViewParameters::new());
    assert_eq!(*canvas.levels(), before);
}

#[test]
fn canvas_follows_the_parameters() {
    let freqs = compute_freqs(vec![10, 10, 10, 10, 20, 20, 30]);
    let mut canvas = Canvas::new();
    update_canvas(&mut canvas, &freqs, &ViewParameters::new());
    assert_eq!(canvas.level_of(10), 255);
    assert_eq!(canvas.level_of(20), 127);
    assert_eq!(canvas.level_of(30), 63);
    assert_eq!(canvas.level_of(40), 0);
    let brighter = ViewParameters { brightness_halves: 2, contrast_eighths: 8 };
    update_canvas(&mut canvas, &freqs, &brighter);
    assert_eq!(canvas.level_of(10), 255);
    assert_eq!(canvas.level_of(20), 255);
    assert_eq!(canvas.level_of(30), 127);
    assert_eq!(canvas.level_of(40), 0);
    let steeper = ViewParameters { brightness_halves: 0, contrast_eighths: 16 };
    update_canvas(&mut canvas, &freqs, &steeper);
    assert_eq!(canvas.level_of(10), 255);
    assert_eq!(canvas.level_of(20), 63);
    assert_eq!(canvas.level_of(30), 15);
    assert_eq!(canvas.level_of(40), 0);
}

#[test]
fn state_starts_with_defaults_and_a_blank_picture() {
    let s = ViewState::new();
    assert_eq!(s.parameters(), ViewParameters::new());
    assert!(s.frequencies().is_empty());
    assert!(s.canvas().levels().iter().all(|l| *l == 0));
}

#[test]
fn loading_resets_parameters_and_draws() {
    let mut s = ViewState::new();
    s.command(Command::IncreaseBrightness);
    s.command(Command::IncreaseContrast);
    assert_eq!(s.parameters(), ViewParameters { brightness_halves: 1, contrast_eighths: 9 });
    s.load_file(vec![0x00, 0xFF, 0x00, 0xFF]);
    assert_eq!(s.parameters(), ViewParameters::new());
    assert_eq!(s.frequencies().len(), DIGRAPH_KINDS);
    for k in 0..DIGRAPH_KINDS {
        let expected = if k == 0x00FF || k == 0xFF00 { 255 } else { 0 };
        assert_eq!(s.canvas().levels()[k], expected);
    }
}

#[test]
fn reset_returns_to_the_picture_after_loading() {
    let mut s = ViewState::new();
    s.load_file(vec![1, 2, 1, 2, 1, 2, 1, 3, 9, 9, 9, 9, 9, 9, 9, 9]);
    let loaded = s.canvas().levels().clone();
    assert_eq!(loaded[0x0102], 255);
    assert_eq!(loaded[0x0201], 255);
    assert_eq!(loaded[0x0103], 85);
    s.command(Command::IncreaseBrightness);
    s.command(Command::IncreaseBrightness);
    s.command(Command::DecreaseContrast);
    s.command(Command::DecreaseContrast);
    s.command(Command::DecreaseContrast);
    assert_ne!(s.parameters(), ViewParameters::new());
    assert_ne!(*s.canvas().levels(), loaded);
    s.command(Command::Reset);
    assert_eq!(s.parameters().brightness_halves, 0);
    assert_eq!(s.parameters().contrast_eighths, 8);
    assert_eq!(*s.canvas().levels(), loaded);
}

#[test]
fn empty_file_leaves_the_display_blank() {
    let mut s = ViewState::new();
    s.load_file(vec![]);
    assert!(s.frequencies().is_empty());
    assert_eq!(s.frequencies().len(), 0);
    assert!(s.canvas().levels().iter().all(|l| *l == 0));
    s.command(Command::IncreaseBrightness);
    s.command(Command::DecreaseContrast);
    s.command(Command::DecreaseBrightness);
    s.command(Command::DecreaseBrightness);
    assert_eq!(s.parameters(), ViewParameters { brightness_halves: 0, contrast_eighths: 7 });
    assert!(s.canvas().levels().iter().all(|l| *l == 0));
    s.command(Command::Reset);
    assert_eq!(s.parameters(), ViewParameters::new());
    assert!(s.canvas().levels().iter().all(|l| *l == 0));
}

#[test]
fn one_byte_file_counts_as_no_data() {
    let mut s = ViewState::new();
    s.load_file(vec![0x7F]);
    assert!(s.frequencies().is_empty());
    assert!(s.canvas().levels().iter().all(|l| *l == 0));
}

#[test]
fn commands_redraw_the_loaded_data() {
    let mut s = ViewState::new();
    s.load_file(vec![0, 1, 0, 1, 0, 2, 5, 5, 5, 5, 5, 5]);
    // digraphs: 0x0001, 0x0100, 0x0001, 0x0100, 0x0002, 0x0205
    assert_eq!(s.canvas().level_of(0x0001), 255);
    assert_eq!(s.canvas().level_of(0x0002), 127);
    s.command(Command::IncreaseBrightness);
    assert_eq!(s.canvas().level_of(0x0002), 180);
    s.command(Command::IncreaseBrightness);
    assert_eq!(s.canvas().level_of(0x0002), 255);
    s.command(Command::DecreaseBrightness);
    s.command(Command::DecreaseBrightness);
    s.command(Command::DecreaseBrightness);
    assert_eq!(s.canvas().level_of(0x0002), 127);
    s.command(Command::IncreaseContrast);
    assert_eq!(s.canvas().level_of(0x0002), 116);
}
