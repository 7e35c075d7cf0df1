use ffgl_sources::text_source::{
    cycle_duration_sixteenths, TextState, CYCLE_1_BAR, CYCLE_8_BARS, CYCLE_QUARTER_BEAT, NUM_PARAMS,
    PARAM_FONT, PARAM_TEXT,
};

#[test]
fn new_state_shows_hello_world_and_is_dirty() {
    let s = TextState::new();
    assert_eq!(s.text(), "Hello World");
    assert_eq!(s.current_line(), 0);
    assert!(s.is_dirty());
    assert_eq!(NUM_PARAMS, 33);
}

#[test]
fn get_text_param_only_for_text_index() {
    let s = TextState::new();
    assert_eq!(s.get_text_param(PARAM_TEXT), Some("Hello World"));
    assert_eq!(s.get_text_param(PARAM_FONT), None);
    assert_eq!(s.get_text_param(1), None);
}

#[test]
fn set_text_param_stores_and_marks_dirty() {
    let mut s = TextState::new();
    assert!(s.take_render(10, 10));
    assert!(!s.is_dirty());
    s.set_text_param(PARAM_TEXT, "one\ntwo");
    assert_eq!(s.text(), "one\ntwo");
    assert!(s.is_dirty());
}

#[test]
fn set_text_param_rejects_nul_and_other_indices() {
    let mut s = TextState::new();
    assert!(s.take_render(10, 10));
    s.set_text_param(PARAM_TEXT, "bad\0text");
    assert_eq!(s.text(), "Hello World");
    assert!(!s.is_dirty());
    s.set_text_param(PARAM_FONT, "Other");
    assert_eq!(s.text(), "Hello World");
    assert!(!s.is_dirty());
}

#[test]
fn render_only_when_dirty_and_viewport_has_pixels() {
    let mut s = TextState::new();
    assert!(!s.take_render(0, 100));
    assert!(!s.take_render(100, 0));
    assert!(s.is_dirty());
    assert!(s.take_render(100, 50));
    assert!(!s.take_render(100, 50));
    s.param_changed();
    assert!(s.take_render(100, 50));
    assert!(!s.take_render(200, 50));
}

#[test]
fn bar_wraps_cycle_through_lines() {
    let mut s = TextState::new();
    s.set_text_param(PARAM_TEXT, "a\nb\nc");
    let mut shown = Vec::new();
    for _ in 0..7 {
        s.on_bar_wrap();
        shown.push(s.display_text(true));
    }
    assert_eq!(shown, vec!["b", "c", "a", "b", "c", "a", "b"]);
    assert_eq!(s.current_line(), 1);
    assert_eq!(s.display_text(false), "a\nb\nc");
}

#[test]
fn single_line_never_cycles() {
    let mut s = TextState::new();
    assert!(s.take_render(1, 1));
    s.on_bar_wrap();
    assert_eq!(s.current_line(), 0);
    assert!(!s.is_dirty());
    assert_eq!(s.display_text(true), "Hello World");
}

#[test]
fn line_index_wraps_when_text_shrinks() {
    let mut s = TextState::new();
    s.set_text_param(PARAM_TEXT, "a\nb\nc\nd");
    s.on_bar_wrap();
    s.on_bar_wrap();
    s.on_bar_wrap();
    assert_eq!(s.current_line(), 3);
    s.set_text_param(PARAM_TEXT, "x\ny");
    assert_eq!(s.display_text(true), "y");
    s.on_bar_wrap();
    assert_eq!(s.current_line(), 0);
    assert_eq!(s.display_text(true), "x");
}

#[test]
fn cycle_durations_in_sixteenths() {
    let expected = [1u32, 2, 4, 8, 16, 32, 64, 128];
    for (option, n) in expected.iter().enumerate() {
        assert_eq!(cycle_duration_sixteenths(option as u32), *n);
    }
    assert_eq!(cycle_duration_sixteenths(CYCLE_QUARTER_BEAT), 1);
    assert_eq!(cycle_duration_sixteenths(CYCLE_1_BAR), 16);
    assert_eq!(cycle_duration_sixteenths(CYCLE_8_BARS), 128);
    assert_eq!(cycle_duration_sixteenths(8), 16);
    assert_eq!(cycle_duration_sixteenths(u32::MAX), 16);
}
