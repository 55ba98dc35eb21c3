use webgpui::demo::{
    choose_backend, glyph_rows, key_from_text, key_label, key_name, row_pixel,
    run_smoke_test_form, BackendArgError, DemoFocus, DemoUiState, FrameInput, PointerTarget,
    MAX_TEXT_LEN,
};
use webgpui::input::KeyCode;
use webgpui::render::{BackendFeatures, BackendSelector};
use webgpui::widget::WidgetState;

fn frame(pressed: &[KeyCode]) -> FrameInput {
    FrameInput {
        mouse_down: false,
        over_button: false,
        target: PointerTarget::Elsewhere,
        pressed: pressed.to_vec(),
        current_backend: BackendSelector::Wgpu,
        features: BackendFeatures::compiled(),
    }
}

fn click(target: PointerTarget) -> FrameInput {
    FrameInput { mouse_down: true, target, ..frame(&[]) }
}

/// Presses `keys` (one frame) and releases them (next frame).
fn tap(state: &mut DemoUiState, keys: &[KeyCode]) -> Vec<String> {
    let down = frame(keys);
    let out = state.handle_interaction(&down);
    let up = frame(&[]);
    state.handle_interaction(&up);
    out.submitted
}

#[test]
fn letter_keys_case_insensitive() {
    assert_eq!(key_from_text("a"), KeyCode::A);
    assert_eq!(key_from_text("A"), KeyCode::A);
    assert_eq!(key_from_text("z"), KeyCode::Z);
    assert_eq!(key_from_text("Z"), KeyCode::Z);
    assert_eq!(key_from_text("m"), KeyCode::M);
    assert_eq!(key_from_text("M"), KeyCode::M);
}

#[test]
fn digit_keys() {
    assert_eq!(key_from_text("0"), KeyCode::Digit0);
    assert_eq!(key_from_text("5"), KeyCode::Digit5);
    assert_eq!(key_from_text("9"), KeyCode::Digit9);
}

#[test]
fn unknown_character_returns_unknown() {
    assert_eq!(key_from_text("!"), KeyCode::Unknown);
    assert_eq!(key_from_text(" "), KeyCode::Unknown);
    assert_eq!(key_from_text(""), KeyCode::Unknown);
}

#[test]
fn key_from_text_reads_first_character_only() {
    assert_eq!(key_from_text("q!"), KeyCode::Q);
    assert_eq!(key_from_text("é"), KeyCode::Unknown);
}

#[test]
fn glyph_for_letter_a() {
    assert_eq!(glyph_rows('A'), [0b01110, 0b10001, 0b10001, 0b11111, 0b10001, 0b10001, 0b10001]);
    assert_eq!(glyph_rows(' '), [0; 7]);
}

#[test]
fn glyph_placeholder_for_unknown_character() {
    let boxed = [0b11111, 0b10001, 0b00100, 0b00100, 0b00100, 0b10001, 0b11111];
    assert_eq!(glyph_rows('a'), boxed);
    assert_eq!(glyph_rows('?'), boxed);
}

#[test]
fn row_pixel_reads_left_to_right() {
    assert!(row_pixel(0b10000, 0));
    assert!(!row_pixel(0b10000, 1));
    assert!(row_pixel(0b00001, 4));
    assert!(!row_pixel(0b01110, 4));
}

#[test]
fn key_names_and_labels() {
    assert_eq!(key_name(KeyCode::A), "A");
    assert_eq!(key_name(KeyCode::Digit7), "7");
    assert_eq!(key_name(KeyCode::ArrowLeft), "ArrowLeft");
    assert_eq!(key_name(KeyCode::Tab), "Other");
    assert_eq!(key_label(KeyCode::Backspace), "BSP");
    assert_eq!(key_label(KeyCode::Space), "SPACE");
    assert_eq!(key_label(KeyCode::ArrowDown), "V");
    assert_eq!(key_label(KeyCode::Q), "Q");
    assert_eq!(key_label(KeyCode::F5), "Other");
}

#[test]
fn smoke_test_form_passes() {
    assert!(run_smoke_test_form());
}

#[test]
fn choose_backend_defaults_to_first_available() {
    assert!(matches!(choose_backend(None, BackendFeatures::compiled()), Ok(BackendSelector::Wgpu)));
    let cpu_only = BackendFeatures { wgpu: false, cuda: false, cpu: true };
    assert!(matches!(choose_backend(None, cpu_only), Ok(BackendSelector::Cpu)));
    assert!(matches!(choose_backend(None, BackendFeatures::none()), Ok(BackendSelector::Wgpu)));
}

#[test]
fn choose_backend_named() {
    assert!(matches!(choose_backend(Some("WGPU"), BackendFeatures::compiled()), Ok(BackendSelector::Wgpu)));
    assert!(matches!(
        choose_backend(Some("cuda"), BackendFeatures::compiled()),
        Err(BackendArgError::NotCompiled(BackendSelector::Cuda))
    ));
    match choose_backend(Some("metal"), BackendFeatures::compiled()) {
        Err(BackendArgError::Parse(e)) => {
            assert_eq!(e.message(), "GPU error: unknown backend 'metal'; available: wgpu")
        },
        _ => panic!("expected a parse error"),
    }
}

#[test]
fn demo_starts_with_focused_empty_textbox() {
    let state = DemoUiState::new();
    assert_eq!(state.focus(), DemoFocus::Textbox);
    assert_eq!(state.text_input().value(), "");
    assert_eq!(state.text_input().placeholder(), "Type here");
    assert_eq!(state.text_input().state(), WidgetState::Focused);
    assert_eq!(state.button().state(), WidgetState::Normal);
    assert_eq!(state.label().text(), "Name");
    assert_eq!(state.submit_flash(), 0);
}

#[test]
fn demo_typing_and_backspace() {
    let mut state = DemoUiState::new();
    tap(&mut state, &[KeyCode::H]);
    tap(&mut state, &[KeyCode::I]);
    tap(&mut state, &[KeyCode::Digit2]);
    assert_eq!(state.text_input().value(), "hi2");
    tap(&mut state, &[KeyCode::Backspace]);
    assert_eq!(state.text_input().value(), "hi");
    tap(&mut state, &[KeyCode::Space]);
    assert_eq!(state.text_input().value(), "hi ");
}

#[test]
fn demo_keys_in_one_frame_type_in_table_order() {
    let mut state = DemoUiState::new();
    tap(&mut state, &[KeyCode::Digit1, KeyCode::B, KeyCode::A]);
    assert_eq!(state.text_input().value(), "ab1");
}

#[test]
fn demo_held_key_types_once() {
    let mut state = DemoUiState::new();
    let held = frame(&[KeyCode::X]);
    state.handle_interaction(&held);
    state.handle_interaction(&held);
    state.handle_interaction(&held);
    assert_eq!(state.text_input().value(), "x");
    assert!(state.key_held(KeyCode::X));
}

#[test]
fn demo_text_is_limited() {
    let mut state = DemoUiState::new();
    for _ in 0..30 {
        tap(&mut state, &[KeyCode::Z]);
    }
    assert_eq!(state.text_input().chars_count(), MAX_TEXT_LEN);
}

#[test]
fn demo_enter_submits_text() {
    let mut state = DemoUiState::new();
    tap(&mut state, &[KeyCode::O]);
    tap(&mut state, &[KeyCode::K]);
    let submitted = tap(&mut state, &[KeyCode::Enter]);
    assert_eq!(submitted, vec!["ok".to_string()]);
    assert_eq!(state.submit_flash(), 18);
    state.end_frame();
    assert_eq!(state.submit_flash(), 17);
}

#[test]
fn demo_tab_toggles_focus() {
    let mut state = DemoUiState::new();
    tap(&mut state, &[KeyCode::Tab]);
    assert_eq!(state.focus(), DemoFocus::Button);
    assert_eq!(state.button().state(), WidgetState::Focused);
    assert_eq!(state.text_input().state(), WidgetState::Normal);
    tap(&mut state, &[KeyCode::Tab]);
    assert_eq!(state.focus(), DemoFocus::Textbox);
    assert_eq!(state.text_input().state(), WidgetState::Focused);
}

#[test]
fn demo_space_on_focused_button_submits() {
    let mut state = DemoUiState::new();
    tap(&mut state, &[KeyCode::Tab]);
    let submitted = tap(&mut state, &[KeyCode::Space]);
    assert_eq!(submitted, vec![String::new()]);
    assert_eq!(state.button().state(), WidgetState::Focused);
}

#[test]
fn demo_mouse_click_on_button_submits_on_release() {
    let mut state = DemoUiState::new();
    let down = FrameInput { over_button: true, ..click(PointerTarget::Button) };
    let out = state.handle_interaction(&down);
    assert!(out.submitted.is_empty());
    assert_eq!(state.focus(), DemoFocus::Button);
    assert_eq!(state.button().state(), WidgetState::Pressed);
    let up = FrameInput { over_button: true, ..frame(&[]) };
    let out = state.handle_interaction(&up);
    assert_eq!(out.submitted, vec![String::new()]);
    assert_eq!(state.button().state(), WidgetState::Focused);
}

#[test]
fn demo_click_on_textbox_focuses_it() {
    let mut state = DemoUiState::new();
    tap(&mut state, &[KeyCode::Tab]);
    state.handle_interaction(&click(PointerTarget::Textbox));
    assert_eq!(state.focus(), DemoFocus::Textbox);
}

#[test]
fn demo_backend_buttons() {
    let mut state = DemoUiState::new();
    let out = state.handle_interaction(&click(PointerTarget::Backend(BackendSelector::Wgpu)));
    assert!(out.switch_to.is_none());
    state.handle_interaction(&frame(&[]));
    let out = state.handle_interaction(&click(PointerTarget::Backend(BackendSelector::Cpu)));
    assert!(out.switch_to.is_none());
    assert_eq!(state.notice_text(), "CPU not compiled in (add --features backend-cpu)");
    assert_eq!(state.notice_frames(), 180);
    assert!(state.begin_frame());
    assert_eq!(state.notice_frames(), 179);
    state.handle_interaction(&frame(&[]));
    let all = FrameInput {
        features: BackendFeatures { wgpu: true, cuda: true, cpu: true },
        ..click(PointerTarget::Backend(BackendSelector::Cuda))
    };
    let out = state.handle_interaction(&all);
    assert_eq!(out.switch_to, Some(BackendSelector::Cuda));
}

#[test]
fn demo_shift_arrow_selects_and_typing_replaces() {
    let mut state = DemoUiState::new();
    tap(&mut state, &[KeyCode::A]);
    tap(&mut state, &[KeyCode::B]);
    tap(&mut state, &[KeyCode::Shift, KeyCode::ArrowLeft]);
    assert_eq!(state.text_input().selection(), Some((1, 2)));
    tap(&mut state, &[KeyCode::C]);
    assert_eq!(state.text_input().value(), "ac");
}

#[test]
fn demo_edits_drop_a_collapsed_selection() {
    let mut state = DemoUiState::new();
    tap(&mut state, &[KeyCode::A]);
    tap(&mut state, &[KeyCode::B]);
    tap(&mut state, &[KeyCode::Shift, KeyCode::ArrowRight]);
    tap(&mut state, &[KeyCode::Backspace]);
    assert_eq!(state.text_input().value(), "a");
    assert_eq!(state.text_input().selection(), None);
    tap(&mut state, &[KeyCode::C]);
    assert_eq!(state.text_input().value(), "ac");
}

#[test]
fn demo_frame_counter_and_caret() {
    let mut state = DemoUiState::new();
    assert!(!state.begin_frame());
    assert_eq!(state.frame_index(), 1);
    assert!(state.caret_visible());
    for _ in 0..23 {
        state.begin_frame();
    }
    assert_eq!(state.frame_index(), 24);
    assert!(!state.caret_visible());
}
