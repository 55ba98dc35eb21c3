use webgpui::input::{
    propagation_path, DeviceEvent, Dispatch, EventPhase, FocusManager, InputState, KeyCode,
    Modifiers,
    MouseButton, NodeId,
};

/// Dispatches along `path`, calling `handler` per visit until it returns true.
fn dispatch_with(path: &[NodeId], mut handler: impl FnMut(NodeId, EventPhase) -> bool) {
    for (node, phase) in propagation_path(path) {
        if handler(node, phase) {
            break;
        }
    }
}

#[test]
fn event_propagation_stop_in_capture() {
    let path = [NodeId(0), NodeId(1), NodeId(2)];
    let mut visited: Vec<(NodeId, EventPhase)> = Vec::new();
    dispatch_with(&path, |node, phase| {
        visited.push((node, phase));
        node == NodeId(0) && phase == EventPhase::Capture
    });
    assert_eq!(visited, vec![(NodeId(0), EventPhase::Capture)]);
}

#[test]
fn event_propagation_single_node_is_target_only() {
    let path = [NodeId(99)];
    assert_eq!(propagation_path(&path), vec![(NodeId(99), EventPhase::Target)]);
}

#[test]
fn dispatch_empty_path_is_noop() {
    assert!(propagation_path(&[]).is_empty());
}

#[test]
fn event_propagation_two_node_path() {
    let path = [NodeId(0), NodeId(1)];
    assert_eq!(
        propagation_path(&path),
        vec![
            (NodeId(0), EventPhase::Capture),
            (NodeId(1), EventPhase::Target),
            (NodeId(0), EventPhase::Bubble),
        ]
    );
}

#[test]
fn event_propagation_three_node_order() {
    let path = [NodeId(0), NodeId(1), NodeId(2)];
    assert_eq!(
        propagation_path(&path),
        vec![
            (NodeId(0), EventPhase::Capture),
            (NodeId(1), EventPhase::Capture),
            (NodeId(2), EventPhase::Target),
            (NodeId(1), EventPhase::Bubble),
            (NodeId(0), EventPhase::Bubble),
        ]
    );
}

#[test]
fn focus_manager_basic() {
    let mut fm = FocusManager::new();
    assert!(fm.focused().is_none());
    fm.set_focus(NodeId(42));
    assert!(fm.is_focused(NodeId(42)));
    fm.clear_focus();
    assert!(fm.focused().is_none());
}

#[test]
fn focus_tab_forward_wraps() {
    let mut fm = FocusManager::new();
    fm.register_focusable(NodeId(1));
    fm.register_focusable(NodeId(2));
    fm.register_focusable(NodeId(3));
    fm.set_focus(NodeId(1));
    assert_eq!(fm.move_focus_forward(), Some(NodeId(2)));
    assert_eq!(fm.move_focus_forward(), Some(NodeId(3)));
    assert_eq!(fm.move_focus_forward(), Some(NodeId(1)), "should wrap to first");
}

#[test]
fn focus_tab_backward_wraps() {
    let mut fm = FocusManager::new();
    fm.register_focusable(NodeId(10));
    fm.register_focusable(NodeId(20));
    fm.register_focusable(NodeId(30));
    fm.set_focus(NodeId(10));
    assert_eq!(fm.move_focus_backward(), Some(NodeId(30)), "should wrap to last");
    assert_eq!(fm.move_focus_backward(), Some(NodeId(20)));
    assert_eq!(fm.move_focus_backward(), Some(NodeId(10)));
}

#[test]
fn focus_tab_from_unfocused_starts_at_first() {
    let mut fm = FocusManager::new();
    fm.register_focusable(NodeId(5));
    fm.register_focusable(NodeId(6));
    assert_eq!(fm.move_focus_forward(), Some(NodeId(5)));
}

#[test]
fn unregister_focused_clears_focus() {
    let mut fm = FocusManager::new();
    fm.register_focusable(NodeId(7));
    fm.set_focus(NodeId(7));
    fm.unregister_focusable(NodeId(7));
    assert!(fm.focused().is_none());
    assert!(fm.focusable_order().is_empty());
}

#[test]
fn register_focusable_deduplicates() {
    let mut fm = FocusManager::new();
    fm.register_focusable(NodeId(1));
    fm.register_focusable(NodeId(1));
    assert_eq!(fm.focusable_order().len(), 1);
}

#[test]
fn handle_key_tab_consumed() {
    let mut fm = FocusManager::new();
    fm.register_focusable(NodeId(1));
    fm.register_focusable(NodeId(2));
    fm.set_focus(NodeId(1));
    assert!(fm.handle_key(KeyCode::Tab, Modifiers::none()));
    assert_eq!(fm.focused(), Some(NodeId(2)));
    assert!(fm.handle_key(KeyCode::Tab, Modifiers { shift: true, ..Default::default() }));
    assert_eq!(fm.focused(), Some(NodeId(1)));
    assert!(!fm.handle_key(KeyCode::Enter, Modifiers::none()));
}

#[test]
fn focus_tab_backward_from_unfocused_starts_at_last() {
    let mut fm = FocusManager::new();
    fm.register_focusable(NodeId(5));
    fm.register_focusable(NodeId(6));
    fm.register_focusable(NodeId(7));
    assert_eq!(fm.move_focus_backward(), Some(NodeId(7)));
}

#[test]
fn handle_key_tab_empty_list() {
    let mut fm = FocusManager::new();
    assert!(fm.handle_key(KeyCode::Tab, Modifiers::none()));
    assert!(fm.focused().is_none());
    assert!(fm.handle_key(KeyCode::Tab, Modifiers { shift: true, ..Default::default() }));
    assert!(fm.focused().is_none());
}

#[test]
fn set_focusable_order_replaces_list() {
    let mut fm = FocusManager::new();
    fm.register_focusable(NodeId(1));
    fm.register_focusable(NodeId(2));
    fm.set_focusable_order(vec![NodeId(30), NodeId(20), NodeId(10)]);
    assert_eq!(fm.focusable_order(), &[NodeId(30), NodeId(20), NodeId(10)]);
    fm.set_focus(NodeId(30));
    assert_eq!(fm.move_focus_forward(), Some(NodeId(20)));
}

#[test]
fn set_focusable_order_deduplicates() {
    let mut fm = FocusManager::new();
    fm.set_focusable_order(vec![NodeId(1), NodeId(2), NodeId(1), NodeId(3), NodeId(2)]);
    assert_eq!(fm.focusable_order(), &[NodeId(1), NodeId(2), NodeId(3)]);
}

#[test]
fn set_focusable_order_clears_focus_if_absent() {
    let mut fm = FocusManager::new();
    fm.register_focusable(NodeId(1));
    fm.set_focus(NodeId(1));
    fm.set_focusable_order(vec![NodeId(2), NodeId(3)]);
    assert!(fm.focused().is_none());
}

#[test]
fn focus_manager_o1_lookup_on_step() {
    let mut fm = FocusManager::new();
    for i in 0..100u64 {
        fm.register_focusable(NodeId(i));
    }
    fm.set_focus(NodeId(50));
    assert_eq!(fm.move_focus_forward(), Some(NodeId(51)));
    assert_eq!(fm.move_focus_backward(), Some(NodeId(50)));
}

#[test]
fn focus_forward_then_backward_round_trip() {
    let mut fm = FocusManager::new();
    fm.set_focusable_order(vec![NodeId(4), NodeId(8), NodeId(15)]);
    for id in [NodeId(4), NodeId(8), NodeId(15)] {
        fm.set_focus(id);
        fm.move_focus_forward();
        assert_eq!(fm.move_focus_backward(), Some(id));
        fm.move_focus_backward();
        assert_eq!(fm.move_focus_forward(), Some(id));
    }
}

#[test]
fn modifiers_none_has_no_keys() {
    let m = Modifiers::none();
    assert!(!m.shift && !m.ctrl && !m.alt && !m.meta);
    assert_eq!(Modifiers::default(), m);
}

#[test]
fn event_propagation_capture_target_bubble_order() {
    let root = NodeId(0);
    let middle = NodeId(1);
    let leaf = NodeId(2);
    let path = [root, middle, leaf];
    let order = propagation_path(&path);
    assert_eq!(
        order,
        vec![
            (root, EventPhase::Capture),
            (middle, EventPhase::Capture),
            (leaf, EventPhase::Target),
            (middle, EventPhase::Bubble),
            (root, EventPhase::Bubble),
        ]
    );
}

#[test]
fn state_tracks_button() {
    let mut state = InputState::new();
    state.apply(&DeviceEvent::MousePressed {
        button: MouseButton::Left,
        modifiers: Modifiers::none(),
    });
    assert!(state.is_button_pressed(MouseButton::Left));
    state.apply(&DeviceEvent::MouseReleased {
        button: MouseButton::Left,
        modifiers: Modifiers::none(),
    });
    assert!(!state.is_button_pressed(MouseButton::Left));
}

#[test]
fn state_tracks_key() {
    let mut state = InputState::new();
    state.apply(&DeviceEvent::KeyPressed {
        key: KeyCode::A,
        modifiers: Modifiers::none(),
    });
    assert!(state.is_key_pressed(KeyCode::A));
}

#[test]
fn key_press_then_release_restores_state() {
    let mut state = InputState::new();
    let shift = Modifiers { shift: true, ctrl: false, alt: false, meta: false };
    state.apply(&DeviceEvent::KeyPressed { key: KeyCode::B, modifiers: shift });
    state.apply(&DeviceEvent::KeyPressed { key: KeyCode::Tab, modifiers: shift });
    assert_eq!(state.modifiers(), shift);
    state.apply(&DeviceEvent::KeyReleased { key: KeyCode::Tab, modifiers: Modifiers::none() });
    assert!(state.is_key_pressed(KeyCode::B));
    assert!(!state.is_key_pressed(KeyCode::Tab));
    assert_eq!(state.modifiers(), Modifiers::none());
    assert_eq!(state.pressed_keys(), vec![KeyCode::B]);
}

#[test]
fn moves_and_typed_characters_leave_state_alone() {
    let mut state = InputState::new();
    state.apply(&DeviceEvent::MousePressed { button: MouseButton::Other(7), modifiers: Modifiers::none() });
    state.apply(&DeviceEvent::MouseMoved);
    state.apply(&DeviceEvent::CharInput { ch: 'x' });
    state.apply(&DeviceEvent::MouseScrolled { modifiers: Modifiers::none() });
    assert!(state.is_button_pressed(MouseButton::Other(7)));
    assert!(!state.is_button_pressed(MouseButton::Left));
    assert!(state.pressed_keys().is_empty());
}

#[test]
fn dispatch_stops_at_first_handler_that_asks() {
    let path = [NodeId(0), NodeId(1), NodeId(2)];
    let mut run = Dispatch::new(&path);
    assert_eq!(run.next_visit(), Some((NodeId(0), EventPhase::Capture)));
    run.handled(false);
    assert_eq!(run.next_visit(), Some((NodeId(1), EventPhase::Capture)));
    run.handled(true);
    assert_eq!(run.next_visit(), None);
    assert_eq!(run.next_visit(), None);
}

#[test]
fn dispatch_without_stop_visits_all() {
    let path = [NodeId(4), NodeId(5)];
    let mut run = Dispatch::new(&path);
    let mut seen = Vec::new();
    while let Some(v) = run.next_visit() {
        seen.push(v);
        run.handled(false);
    }
    assert_eq!(seen, propagation_path(&path));
}
