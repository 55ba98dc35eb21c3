use webgpui::devtools::{char_pixels, kind_str, overlay_pixel, role_str};
use webgpui::tree::NodeKind;
use webgpui::widget::NodeRole;

#[test]
fn overlay_font_is_case_insensitive() {
    let a = Some([0b010, 0b101, 0b111, 0b101, 0b101]);
    assert_eq!(char_pixels('A'), a);
    assert_eq!(char_pixels('a'), a);
    assert_eq!(char_pixels('z'), Some([0b111, 0b001, 0b010, 0b100, 0b111]));
}

#[test]
fn overlay_font_digits_and_symbols() {
    assert_eq!(char_pixels('0'), Some([0b111, 0b101, 0b101, 0b101, 0b111]));
    assert_eq!(char_pixels('.'), Some([0, 0, 0, 0, 0b010]));
    assert_eq!(char_pixels(' '), Some([0; 5]));
}

#[test]
fn overlay_font_lacks_other_characters() {
    assert_eq!(char_pixels('?'), None);
    assert_eq!(char_pixels('é'), None);
    assert_eq!(char_pixels('{'), None);
}

#[test]
fn overlay_pixel_reads_left_to_right() {
    assert!(overlay_pixel(0b100, 0));
    assert!(!overlay_pixel(0b100, 1));
    assert!(overlay_pixel(0b011, 2));
}

#[test]
fn inspector_names() {
    assert_eq!(kind_str(NodeKind::Container), "CONTAINER");
    assert_eq!(kind_str(NodeKind::Image), "IMAGE");
    assert_eq!(role_str(NodeRole::NoRole), "NONE");
    assert_eq!(role_str(NodeRole::TextBox), "TEXTBOX");
    assert_eq!(role_str(NodeRole::Menu), "MENU");
}
