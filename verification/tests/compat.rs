use webgpui::compat::parse::{hex1, parse_color, Rgba8};
use webgpui::compat::state::{event_stop_propagation, CompatState, FocusTarget};
use webgpui::compat::types::{CompatError, EventContext, EventType, NodeId, NodeKind, StyleProp};

fn fresh() -> CompatState {
    CompatState::new()
}

// ---- app lifecycle -------------------------------------------------------------

#[test]
fn render_vsync_roundtrip() {
    let mut s = fresh();
    s.render_vsync(false).unwrap();
    s.render_vsync(true).unwrap();
}

#[test]
fn render_request_ok() {
    let mut s = fresh();
    assert!(s.render_request().is_ok());
}

#[test]
fn viewport_resize_ok() {
    let mut s = fresh();
    assert!(s.viewport_resize(800, 600).is_ok());
}

#[test]
fn app_unmount_ok() {
    let mut s = fresh();
    assert!(s.app_unmount().is_ok());
}

#[test]
fn render_request_sets_flag() {
    let mut s = fresh();
    assert!(!s.render_requested());
    s.render_request().unwrap();
    assert!(s.render_requested());
}

#[test]
fn render_vsync_toggle() {
    let mut s = fresh();
    s.render_vsync(false).unwrap();
    assert!(!s.vsync());
    s.render_vsync(true).unwrap();
    assert!(s.vsync());
}

#[test]
fn viewport_resize_updates_dimensions() {
    let mut s = fresh();
    s.viewport_resize(1920, 1080).unwrap();
    assert_eq!(s.viewport(), (1920, 1080));
}

#[test]
fn viewport_resize_requests_render() {
    let mut s = fresh();
    assert!(!s.render_requested());
    s.viewport_resize(800, 600).unwrap();
    assert!(s.render_requested());
}

// ---- events --------------------------------------------------------------------

#[test]
fn event_stop_propagation_is_ok() {
    assert!(event_stop_propagation().is_ok());
}

#[test]
fn event_stop_propagation_always_ok() {
    let _s = fresh();
    assert!(event_stop_propagation().is_ok());
}

#[test]
fn focus_set_invalid_node_errors() {
    let mut s = fresh();
    assert!(matches!(s.focus_set(NodeId(u64::MAX - 1)), Err(CompatError::InvalidNode)));
}

#[test]
fn event_on_staged_node_ok() {
    let mut s = fresh();
    let id = s.node_create(NodeKind::Container).unwrap();
    let result = s.event_on(id, EventType::Click);
    assert!(result.is_ok());
}

#[test]
fn event_on_mounted_node_ok() {
    let mut s = fresh();
    let root = s.node_create(NodeKind::Container).unwrap();
    s.app_mount(root).unwrap();
    let result = s.event_on(root, EventType::Focus);
    assert!(result.is_ok());
}

#[test]
fn event_on_invalid_node_errors() {
    let mut s = fresh();
    assert!(matches!(s.event_on(NodeId(9999), EventType::Click), Err(CompatError::InvalidNode)));
}

#[test]
fn event_on_listener_ids_are_unique() {
    let mut s = fresh();
    let id = s.node_create(NodeKind::Container).unwrap();
    let l1 = s.event_on(id, EventType::Click).unwrap();
    let l2 = s.event_on(id, EventType::KeyDown).unwrap();
    assert_ne!(l1, l2);
}

#[test]
fn event_on_files_listener_under_core_id_once_mounted() {
    let mut s = fresh();
    let root = s.node_create(NodeKind::Container).unwrap();
    s.event_on(root, EventType::Click).unwrap();
    s.app_mount(root).unwrap();
    s.event_on(root, EventType::Scroll).unwrap();
    let core = s.core_id_of(root).unwrap();
    let listeners = s.listeners();
    assert_eq!(listeners.len(), 2);
    assert_eq!(listeners[0].node, root.0);
    assert_eq!(listeners[1].node, core.0);
    assert_eq!(listeners[1].event_type, EventType::Scroll);
}

#[test]
fn focus_set_staged_node_ok() {
    let mut s = fresh();
    let id = s.node_create(NodeKind::Container).unwrap();
    assert!(s.focus_set(id).is_ok());
    assert_eq!(s.focus(), Some(FocusTarget::Staged(id.0)));
}

#[test]
fn focus_set_mounted_node_ok() {
    let mut s = fresh();
    let root = s.node_create(NodeKind::Container).unwrap();
    s.app_mount(root).unwrap();
    assert!(s.focus_set(root).is_ok());
    assert_eq!(s.focus(), Some(FocusTarget::Core(s.core_id_of(root).unwrap())));
}

#[test]
fn focus_set_invalid_errors() {
    let mut s = fresh();
    assert!(matches!(s.focus_set(NodeId(9999)), Err(CompatError::InvalidNode)));
}

#[test]
fn event_type_names() {
    assert_eq!(EventType::Click.as_str(), "click");
    assert_eq!(EventType::PointerMove.as_str(), "pointermove");
    assert_eq!(EventType::FocusLost.as_str(), "focuslost");
}

#[test]
fn event_context_flags() {
    let mut c = EventContext::new();
    assert!(!c.is_propagation_stopped());
    assert!(!c.is_default_prevented());
    c.stop_propagation();
    assert!(c.is_propagation_stopped());
    assert!(!c.is_default_prevented());
    c.prevent_default();
    assert!(c.is_default_prevented());
}

// ---- nodes -----------------------------------------------------------------------

#[test]
fn node_create_returns_ok() {
    let mut s = fresh();
    assert!(s.node_create(NodeKind::Container).is_ok());
}

#[test]
fn node_create_ids_are_unique() {
    let mut s = fresh();
    let a = s.node_create(NodeKind::Container).unwrap();
    let b = s.node_create(NodeKind::Text).unwrap();
    let c = s.node_create(NodeKind::Image).unwrap();
    assert_ne!(a, b);
    assert_ne!(b, c);
}

#[test]
fn node_create_leaves_node_staged() {
    let mut s = fresh();
    let id = s.node_create(NodeKind::Container).unwrap();
    assert!(s.is_staged(id));
    assert!(s.core_id_of(id).is_none());
}

#[test]
fn node_append_staged_to_staged_records_child() {
    let mut s = fresh();
    let parent = s.node_create(NodeKind::Container).unwrap();
    let child = s.node_create(NodeKind::Container).unwrap();
    assert!(s.node_append(parent, child).is_ok());
    assert!(s.staged_children(parent).unwrap().contains(&child.0));
}

#[test]
fn node_append_invalid_child_errors() {
    let mut s = fresh();
    let parent = s.node_create(NodeKind::Container).unwrap();
    assert!(matches!(s.node_append(parent, NodeId(9999)), Err(CompatError::InvalidNode)));
}

#[test]
fn node_append_invalid_parent_errors() {
    let mut s = fresh();
    let child = s.node_create(NodeKind::Container).unwrap();
    assert!(matches!(s.node_append(NodeId(9999), child), Err(CompatError::InvalidNode)));
}

#[test]
fn node_append_after_mount_adds_to_core_tree() {
    let mut s = fresh();
    let root = s.node_create(NodeKind::Container).unwrap();
    s.app_mount(root).unwrap();
    let extra = s.node_create(NodeKind::Text).unwrap();
    assert!(s.node_append(root, extra).is_ok());
    assert_eq!(s.tree().len(), 3);
    let core_root = s.core_id_of(root).unwrap();
    let core_extra = s.core_id_of(extra).unwrap();
    assert_eq!(s.tree().children_of(core_root), vec![core_extra]);
}

#[test]
fn node_remove_staged_node_ok() {
    let mut s = fresh();
    let root = s.node_create(NodeKind::Container).unwrap();
    let child = s.node_create(NodeKind::Container).unwrap();
    s.node_append(root, child).unwrap();
    assert!(s.node_remove(root, child).is_ok());
    assert!(!s.is_staged(child));
}

#[test]
fn node_remove_mounted_node_ok() {
    let mut s = fresh();
    let root = s.node_create(NodeKind::Container).unwrap();
    let child = s.node_create(NodeKind::Container).unwrap();
    s.node_append(root, child).unwrap();
    s.app_mount(root).unwrap();
    let core_child = s.core_id_of(child).unwrap();
    assert!(s.node_remove(root, child).is_ok());
    assert_eq!(s.tree().len(), 2);
    assert!(!s.tree().contains(core_child));
    assert!(s.tree().contains(s.core_id_of(root).unwrap()));
}

#[test]
fn node_remove_invalid_errors() {
    let mut s = fresh();
    let root = s.node_create(NodeKind::Container).unwrap();
    assert!(matches!(s.node_remove(root, NodeId(9999)), Err(CompatError::InvalidNode)));
}

#[test]
fn node_update_staged_ok() {
    let mut s = fresh();
    let id = s.node_create(NodeKind::Container).unwrap();
    assert!(s.node_update(id, "text=hello").is_ok());
    assert_eq!(s.style(id).unwrap().text(), "hello");
}

#[test]
fn node_update_mounted_ok() {
    let mut s = fresh();
    let root = s.node_create(NodeKind::Container).unwrap();
    s.app_mount(root).unwrap();
    assert!(s.node_update(root, "").is_ok());
}

#[test]
fn node_update_invalid_errors() {
    let mut s = fresh();
    assert!(matches!(s.node_update(NodeId(9999), ""), Err(CompatError::InvalidNode)));
}

#[test]
fn node_update_applies_segments_in_order() {
    let mut s = fresh();
    let id = s.node_create(NodeKind::Container).unwrap();
    assert!(s.node_update(id, " width = 200 ;\nheight=100;; skipped ;background=#fff").is_ok());
    let st = s.style(id).unwrap();
    assert_eq!(st.value(StyleProp::Width), Some("200"));
    assert_eq!(st.value(StyleProp::Height), Some("100"));
    assert_eq!(st.background(), Rgba8 { r: 255, g: 255, b: 255, a: 255 });
}

#[test]
fn node_update_stops_on_first_error() {
    let mut s = fresh();
    let id = s.node_create(NodeKind::Container).unwrap();
    let r = s.node_update(id, "width=10;opacity=x;height=5");
    assert!(matches!(r, Err(CompatError::StyleParseError(ref m)) if m == "invalid opacity: x"));
    let st = s.style(id).unwrap();
    assert_eq!(st.value(StyleProp::Width), Some("10"));
    assert_eq!(st.value(StyleProp::Height), None);
}

// ---- styles ----------------------------------------------------------------------

#[test]
fn style_background_invalid_color_errors() {
    let mut s = fresh();
    let id = s.node_create(NodeKind::Container).unwrap();
    assert!(matches!(s.style_background(id, "red"), Err(CompatError::StyleParseError(_))));
}

#[test]
fn style_background_rejects_three_non_hex_characters() {
    let mut s = fresh();
    let id = s.node_create(NodeKind::Container).unwrap();
    s.style_background(id, "#102030").unwrap();
    for bad in ["#ggg", "#xyz", "#a\u{e9}"] {
        assert!(matches!(s.style_background(id, bad), Err(CompatError::StyleParseError(_))));
        assert!(matches!(s.style_background(NodeId(9999), bad), Err(CompatError::StyleParseError(_))));
        assert!(matches!(s.style_set(id, "background", bad), Err(CompatError::StyleParseError(_))));
    }
    assert_eq!(s.style(id).unwrap().background(), Rgba8 { r: 0x10, g: 0x20, b: 0x30, a: 0xff });
}

#[test]
fn style_background_invalid_node_errors() {
    let mut s = fresh();
    assert!(matches!(s.style_background(NodeId(9999), "#000000"), Err(CompatError::InvalidNode)));
}

#[test]
fn style_background_hex6_sets_color() {
    let mut s = fresh();
    let id = s.node_create(NodeKind::Container).unwrap();
    assert!(s.style_background(id, "#ff8000").is_ok());
    assert_eq!(s.style(id).unwrap().background(), Rgba8 { r: 0xff, g: 0x80, b: 0, a: 0xff });
}

#[test]
fn style_background_mounted_node_updates_core() {
    let mut s = fresh();
    let root = s.node_create(NodeKind::Container).unwrap();
    s.app_mount(root).unwrap();
    assert!(s.style_background(root, "#ffffff").is_ok());
    assert_eq!(s.style(root).unwrap().background(), Rgba8 { r: 255, g: 255, b: 255, a: 255 });
}

#[test]
fn style_set_background_key() {
    let mut s = fresh();
    let id = s.node_create(NodeKind::Container).unwrap();
    assert!(s.style_set(id, "background", "#123456").is_ok());
}

#[test]
fn style_set_unknown_key_errors() {
    let mut s = fresh();
    let id = s.node_create(NodeKind::Container).unwrap();
    assert!(matches!(s.style_set(id, "unknown-prop", "value"), Err(CompatError::StyleParseError(_))));
}

#[test]
fn style_set_opacity_key() {
    let mut s = fresh();
    let id = s.node_create(NodeKind::Container).unwrap();
    assert!(s.style_set(id, "opacity", "0.75").is_ok());
    assert_eq!(s.style(id).unwrap().value(StyleProp::Opacity), Some("0.75"));
}

#[test]
fn style_set_many_applies_all() {
    let mut s = fresh();
    let id = s.node_create(NodeKind::Container).unwrap();
    assert!(s.style_set_many(id, &[("width", "200"), ("height", "100"), ("opacity", "0.8")]).is_ok());
    let st = s.style(id).unwrap();
    assert_eq!(st.value(StyleProp::Width), Some("200"));
    assert_eq!(st.value(StyleProp::Height), Some("100"));
    assert_eq!(st.value(StyleProp::Opacity), Some("0.8"));
}

#[test]
fn style_set_many_stops_on_first_error() {
    let mut s = fresh();
    let id = s.node_create(NodeKind::Container).unwrap();
    let result = s.style_set_many(id, &[("width", "100"), ("bad-prop", "x"), ("height", "50")]);
    assert!(result.is_err());
    assert_eq!(s.style(id).unwrap().value(StyleProp::Width), Some("100"));
}

#[test]
fn style_set_number_errors_name_the_key() {
    let mut s = fresh();
    let id = s.node_create(NodeKind::Container).unwrap();
    let e = s.style_set(id, "width", "wide");
    assert!(matches!(e, Err(CompatError::StyleParseError(ref m)) if m == "invalid width: wide"));
    let e = s.style_set(id, "margin-left", "1 px");
    assert!(matches!(e, Err(CompatError::StyleParseError(ref m)) if m == "expected f32, got: 1 px"));
    let e = s.style_set(id, "nope", "1");
    assert!(matches!(e, Err(CompatError::StyleParseError(ref m)) if m == "unknown style key: nope"));
}

#[test]
fn style_set_parse_error_comes_before_node_check() {
    let mut s = fresh();
    assert!(matches!(s.style_set(NodeId(9999), "width", "x"), Err(CompatError::StyleParseError(_))));
    assert!(matches!(s.style_set(NodeId(9999), "width", "1"), Err(CompatError::InvalidNode)));
}

#[test]
fn style_set_position_switches_to_absolute() {
    let mut s = fresh();
    let id = s.node_create(NodeKind::Container).unwrap();
    assert!(!s.style(id).unwrap().is_absolute());
    s.style_set(id, "left", "10").unwrap();
    assert!(s.style(id).unwrap().is_absolute());
    assert_eq!(s.style(id).unwrap().value(StyleProp::X), Some("10"));
}

#[test]
fn style_number_and_border() {
    let mut s = fresh();
    let id = s.node_create(NodeKind::Container).unwrap();
    s.style_number(id, StyleProp::Width, Some("320")).unwrap();
    assert_eq!(s.style(id).unwrap().value(StyleProp::Width), Some("320"));
    s.style_number(id, StyleProp::Width, None).unwrap();
    assert_eq!(s.style(id).unwrap().value(StyleProp::Width), None);
    s.style_border(id, "2", "#0080ff").unwrap();
    let st = s.style(id).unwrap();
    assert_eq!(st.value(StyleProp::BorderWidth), Some("2"));
    assert_eq!(st.border_color(), Rgba8 { r: 0, g: 0x80, b: 0xff, a: 0xff });
}

#[test]
fn style_prop_from_key() {
    assert_eq!(StyleProp::from_key("background-color"), Some(StyleProp::Background));
    assert_eq!(StyleProp::from_key("top"), Some(StyleProp::Y));
    assert_eq!(StyleProp::from_key("padding-bottom"), Some(StyleProp::PaddingBottom));
    assert_eq!(StyleProp::from_key("Top"), None);
}

// ---- colours ---------------------------------------------------------------------

#[test]
fn parse_color_hex6() {
    assert_eq!(parse_color("#1e1e2e").unwrap(), Rgba8 { r: 0x1e, g: 0x1e, b: 0x2e, a: 0xff });
}

#[test]
fn parse_color_hex3() {
    assert_eq!(parse_color("#fff").unwrap(), Rgba8 { r: 255, g: 255, b: 255, a: 255 });
}

#[test]
fn parse_color_hex8() {
    assert_eq!(parse_color("#20242a80").unwrap().a, 0x80);
}

#[test]
fn parse_color_invalid() {
    assert!(parse_color("red").is_err());
    assert!(parse_color("#gg0000").is_err());
}

#[test]
fn parse_color_messages_and_trimming() {
    assert_eq!(parse_color("  #0a0B0c \n").unwrap(), Rgba8 { r: 10, g: 11, b: 12, a: 255 });
    assert!(matches!(parse_color(" red "), Err(CompatError::StyleParseError(ref m)) if m == "unsupported color: red"));
    assert!(matches!(parse_color("#12345"), Err(CompatError::StyleParseError(ref m)) if m == "invalid color: #12345"));
}

#[test]
fn parse_color_needs_hex_digits_only() {
    for bad in ["#ggg", "#xyz", "#g1f", "#a\u{e9}", "#a\u{e9}\u{e9}b", "#+f0000", "#12345g", "#1234567g"] {
        match parse_color(bad) {
            Err(CompatError::StyleParseError(m)) => assert_eq!(m, format!("invalid color: {}", bad)),
            other => panic!("{bad:?} gave {other:?}"),
        }
    }
    assert_eq!(parse_color("#A1f").unwrap(), Rgba8 { r: 0xaa, g: 0x11, b: 0xff, a: 255 });
}

#[test]
fn hex1_ascii_correctness() {
    for (ch, expected) in [
        ('0', 0u8),
        ('1', 1),
        ('2', 2),
        ('3', 3),
        ('4', 4),
        ('5', 5),
        ('6', 6),
        ('7', 7),
        ('8', 8),
        ('9', 9),
    ] {
        assert_eq!(hex1(ch), expected, "char '{ch}'");
    }
    for (ch, expected) in [('a', 10u8), ('b', 11), ('c', 12), ('d', 13), ('e', 14), ('f', 15)] {
        assert_eq!(hex1(ch), expected, "char '{ch}'");
    }
    for (ch, expected) in [('A', 10u8), ('B', 11), ('C', 12), ('D', 13), ('E', 14), ('F', 15)] {
        assert_eq!(hex1(ch), expected, "char '{ch}'");
    }
    assert_eq!(hex1('g'), 0, "invalid char 'g'");
    assert_eq!(hex1('Z'), 0, "invalid char 'Z'");
    assert_eq!(hex1('!'), 0, "invalid char '!'");
}

// ---- mounting --------------------------------------------------------------------

#[test]
fn app_mount_flushes_tree() {
    let mut s = fresh();
    let root = s.node_create(NodeKind::Container).unwrap();
    let child = s.node_create(NodeKind::Text).unwrap();
    s.node_append(root, child).unwrap();
    assert!(s.app_mount(root).is_ok());
    assert_eq!(s.tree().len(), 3);
}

#[test]
fn app_mount_nested_tree() {
    let mut s = fresh();
    let root = s.node_create(NodeKind::Container).unwrap();
    let a = s.node_create(NodeKind::Container).unwrap();
    let b = s.node_create(NodeKind::Text).unwrap();
    let c = s.node_create(NodeKind::Image).unwrap();
    s.node_append(root, a).unwrap();
    s.node_append(a, b).unwrap();
    s.node_append(a, c).unwrap();
    s.app_mount(root).unwrap();
    assert_eq!(s.tree().len(), 5);
    let core_a = s.core_id_of(a).unwrap();
    assert_eq!(s.tree().children_of(core_a), vec![s.core_id_of(b).unwrap(), s.core_id_of(c).unwrap()]);
}

#[test]
fn app_mount_invalid_node_errors() {
    let mut s = fresh();
    assert!(matches!(s.app_mount(NodeId(9999)), Err(CompatError::InvalidNode)));
}

#[test]
fn app_mount_twice_errors() {
    let mut s = fresh();
    let root = s.node_create(NodeKind::Container).unwrap();
    s.app_mount(root).unwrap();
    let root2 = s.node_create(NodeKind::Container).unwrap();
    assert!(matches!(s.app_mount(root2), Err(CompatError::InternalError(_))));
}

#[test]
fn app_mount_preserves_styles() {
    let mut s = fresh();
    let root = s.node_create(NodeKind::Container).unwrap();
    s.style_background(root, "#102030").unwrap();
    s.style_number(root, StyleProp::Width, Some("800")).unwrap();
    s.app_mount(root).unwrap();
    assert!(s.core_id_of(root).is_some());
    let st = s.style(root).unwrap();
    assert_eq!(st.background().r, 0x10);
    assert_eq!(st.value(StyleProp::Width), Some("800"));
}

#[test]
fn app_mount_handles_cycles_and_shared_children() {
    let mut s = fresh();
    let root = s.node_create(NodeKind::Container).unwrap();
    let a = s.node_create(NodeKind::Container).unwrap();
    s.node_append(root, a).unwrap();
    s.node_append(a, root).unwrap();
    s.node_append(root, a).unwrap();
    s.app_mount(root).unwrap();
    // root and a are each mounted once
    assert_eq!(s.tree().len(), 3);
}

#[test]
fn app_unmount_releases_all_nodes() {
    let mut s = fresh();
    let root = s.node_create(NodeKind::Container).unwrap();
    let child = s.node_create(NodeKind::Text).unwrap();
    s.node_append(root, child).unwrap();
    let loose = s.node_create(NodeKind::Container).unwrap();
    s.app_mount(root).unwrap();
    assert_eq!(s.tree().len(), 3);
    let first = s.event_on(child, EventType::Click).unwrap();
    s.focus_set(child).unwrap();
    assert!(s.app_unmount().is_ok());
    assert!(s.listeners().is_empty());
    assert_eq!(s.focus(), None);
    assert!(!s.is_mounted());
    assert!(!s.render_requested());
    assert_eq!(s.tree().len(), 1);
    assert!(!s.is_staged(loose));
    assert_eq!(s.core_id_of(root), None);
    assert!(s.style(child).is_none());
    let fresh_id = s.node_create(NodeKind::Container).unwrap();
    assert!(fresh_id.0 > loose.0);
    let next = s.event_on(fresh_id, EventType::Click).unwrap();
    assert!(next.0 > first.0);
}

#[test]
fn node_update_marks_mounted_node_dirty() {
    let mut s = fresh();
    let root = s.node_create(NodeKind::Container).unwrap();
    s.app_mount(root).unwrap();
    let core = s.core_id_of(root).unwrap();
    s.flush_dirty();
    assert!(s.flush_dirty().is_empty());
    assert!(s.node_update(root, "width=10").is_ok());
    assert_eq!(s.style(root).unwrap().value(StyleProp::Width), Some("10"));
    assert_eq!(s.flush_dirty(), vec![core]);
    assert!(s.node_update(root, "").is_ok());
    assert!(s.flush_dirty().is_empty());
    assert!(s.node_update(root, "opacity=x").is_err());
    assert!(s.flush_dirty().is_empty());
}

#[test]
fn node_append_to_mounted_parent_places_child_last() {
    let mut s = fresh();
    let root = s.node_create(NodeKind::Container).unwrap();
    s.app_mount(root).unwrap();
    let core_root = s.core_id_of(root).unwrap();
    assert_eq!(s.tree().children_of(webgpui::input::NodeId(0)), vec![core_root]);
    let a = s.node_create(NodeKind::Text).unwrap();
    let b = s.node_create(NodeKind::Image).unwrap();
    s.node_append(root, a).unwrap();
    s.node_append(root, b).unwrap();
    let core_a = s.core_id_of(a).unwrap();
    let core_b = s.core_id_of(b).unwrap();
    assert_eq!(s.tree().children_of(core_root), vec![core_a, core_b]);
    assert_eq!(s.tree().get(core_b).unwrap().kind, webgpui::tree::NodeKind::Image);
}

#[test]
fn focus_on_a_staged_node_never_names_a_core_node() {
    let mut s = fresh();
    let root = s.node_create(NodeKind::Container).unwrap();
    s.app_mount(root).unwrap();
    let staged = s.node_create(NodeKind::Container).unwrap();
    s.focus_set(staged).unwrap();
    assert_eq!(s.focus(), Some(FocusTarget::Staged(staged.0)));
    assert_ne!(s.focus(), Some(FocusTarget::Core(webgpui::input::NodeId(staged.0))));
}
