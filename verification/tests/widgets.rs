use webgpui::widget::{
    Button, ContextMenu, CursorMove, Dialog, Label, NodeRole, TabBar, TextAlign, TextInput,
    WidgetState,
};

// ---- Button ----------------------------------------------------------------

#[test]
fn button_default_is_normal() {
    assert_eq!(Button::new("OK").state(), WidgetState::Normal);
}

#[test]
fn button_hover_enter_leave() {
    let mut b = Button::new("OK");
    b.set_hovered(true);
    assert_eq!(b.state(), WidgetState::Hover);
    b.set_hovered(false);
    assert_eq!(b.state(), WidgetState::Normal);
}

#[test]
fn button_press_release_activates() {
    let mut b = Button::new("OK");
    b.press();
    assert_eq!(b.state(), WidgetState::Pressed);
    assert!(b.release());
    assert_eq!(b.state(), WidgetState::Normal);
}

#[test]
fn button_focused_press_release_stays_focused() {
    let mut b = Button::new("OK");
    b.set_focused(true);
    assert_eq!(b.state(), WidgetState::Focused);
    b.press();
    assert_eq!(b.state(), WidgetState::Pressed);
    assert!(b.release());
    assert_eq!(b.state(), WidgetState::Focused);
}

#[test]
fn button_hover_does_not_clobber_focused() {
    let mut b = Button::new("OK");
    b.set_focused(true);
    assert_eq!(b.state(), WidgetState::Focused);
    b.set_hovered(true);
    assert_eq!(b.state(), WidgetState::Focused);
    b.set_hovered(false);
    assert_eq!(b.state(), WidgetState::Focused);
}

#[test]
fn button_release_without_press_returns_false() {
    let mut b = Button::new("OK");
    assert!(!b.release());
}

#[test]
fn button_focused_then_unfocused() {
    let mut b = Button::new("OK");
    b.set_focused(true);
    assert_eq!(b.state(), WidgetState::Focused);
    b.set_focused(false);
    assert_eq!(b.state(), WidgetState::Normal);
}

#[test]
fn button_disabled_ignores_all_events() {
    let mut b = Button::new("OK");
    b.set_disabled(true);
    b.set_hovered(true);
    b.set_focused(true);
    b.press();
    assert_eq!(b.state(), WidgetState::Disabled);
    assert!(!b.release());
    assert_eq!(b.state(), WidgetState::Disabled);
}

#[test]
fn button_reenable_returns_to_normal() {
    let mut b = Button::new("OK");
    b.set_disabled(true);
    b.set_disabled(false);
    assert_eq!(b.state(), WidgetState::Normal);
}

#[test]
fn button_focused_from_hover() {
    let mut b = Button::new("OK");
    b.set_hovered(true);
    assert_eq!(b.state(), WidgetState::Hover);
    b.set_focused(true);
    assert_eq!(b.state(), WidgetState::Focused);
}

#[test]
fn button_label_is_kept() {
    let b = Button::new("Submit");
    assert_eq!(b.label(), "Submit");
}

#[test]
fn button_press_release_law_on_values() {
    // An enabled button activates on press + release; a disabled one does not.
    let mut enabled = Button::new("A");
    enabled.press();
    assert!(enabled.release());
    let mut disabled = Button::new("B");
    disabled.set_disabled(true);
    disabled.press();
    assert!(!disabled.release());
}

// ---- TextInput ---------------------------------------------------------------

#[test]
fn textinput_insert_chars() {
    let mut t = TextInput::new();
    t.insert_char('h');
    t.insert_char('i');
    assert_eq!(t.value(), "hi");
    assert_eq!(t.cursor(), 2);
}

#[test]
fn textinput_chars_count_is_character_based() {
    let mut t = TextInput::new();
    t.insert_char('é');
    t.insert_char('🙂');
    assert_eq!(t.chars_count(), 2);
    assert!(t.value().len() > t.chars_count());
}

#[test]
fn textinput_backspace_removes_previous() {
    let mut t = TextInput::new();
    t.insert_char('h');
    t.insert_char('i');
    assert!(t.delete_backward());
    assert_eq!(t.value(), "h");
    assert_eq!(t.cursor(), 1);
}

#[test]
fn textinput_backspace_at_start_is_noop() {
    let mut t = TextInput::new();
    assert!(!t.delete_backward());
    assert_eq!(t.value(), "");
}

#[test]
fn textinput_delete_forward_removes_next() {
    let mut t = TextInput::new();
    for ch in "hi".chars() {
        t.insert_char(ch);
    }
    t.move_cursor(CursorMove::Home, false);
    assert!(t.delete_forward());
    assert_eq!(t.value(), "i");
    assert_eq!(t.cursor(), 0);
}

#[test]
fn textinput_delete_forward_at_end_is_noop() {
    let mut t = TextInput::new();
    assert!(!t.delete_forward());
}

#[test]
fn textinput_cursor_left_right_home_end() {
    let mut t = TextInput::new();
    for ch in "hello".chars() {
        t.insert_char(ch);
    }
    assert_eq!(t.cursor(), 5);
    t.move_cursor(CursorMove::Left, false);
    assert_eq!(t.cursor(), 4);
    t.move_cursor(CursorMove::Home, false);
    assert_eq!(t.cursor(), 0);
    t.move_cursor(CursorMove::Right, false);
    assert_eq!(t.cursor(), 1);
    t.move_cursor(CursorMove::End, false);
    assert_eq!(t.cursor(), 5);
}

#[test]
fn textinput_selection_via_shift_right() {
    let mut t = TextInput::new();
    for ch in "hello".chars() {
        t.insert_char(ch);
    }
    t.move_cursor(CursorMove::Home, false);
    t.move_cursor(CursorMove::Right, true);
    t.move_cursor(CursorMove::Right, true);
    assert_eq!(t.selection(), Some((0, 2)));
}

#[test]
fn textinput_selection_collapsed_is_none() {
    let mut t = TextInput::new();
    t.insert_char('a');
    t.move_cursor(CursorMove::Left, true);
    t.move_cursor(CursorMove::Right, true);
    assert_eq!(t.selection(), None);
}

#[test]
fn textinput_delete_backward_removes_selection() {
    let mut t = TextInput::new();
    for ch in "hello".chars() {
        t.insert_char(ch);
    }
    t.move_cursor(CursorMove::Home, false);
    t.move_cursor(CursorMove::Right, true);
    t.move_cursor(CursorMove::Right, true);
    assert!(t.delete_backward());
    assert_eq!(t.value(), "llo");
    assert_eq!(t.cursor(), 0);
    assert_eq!(t.selection(), None);
}

#[test]
fn textinput_insert_replaces_selection() {
    let mut t = TextInput::new();
    for ch in "hello".chars() {
        t.insert_char(ch);
    }
    t.move_cursor(CursorMove::Home, false);
    t.move_cursor(CursorMove::Right, true);
    t.move_cursor(CursorMove::Right, true);
    t.insert_char('X');
    assert_eq!(t.value(), "Xllo");
    assert_eq!(t.cursor(), 1);
}

#[test]
fn textinput_placeholder() {
    let t = TextInput::new().with_placeholder("Type here");
    assert_eq!(t.placeholder(), "Type here");
    assert_eq!(t.value(), "");
}

#[test]
fn textinput_focus_clears_selection() {
    let mut t = TextInput::new();
    t.insert_char('a');
    t.move_cursor(CursorMove::Left, true);
    assert!(t.selection().is_some());
    t.set_focused(false);
    assert!(t.selection().is_none());
}

#[test]
fn textinput_disabled_ignores_input() {
    let mut t = TextInput::new();
    t.set_disabled(true);
    t.insert_char('a');
    assert_eq!(t.value(), "");
    assert!(!t.delete_backward());
    assert!(!t.delete_forward());
    t.move_cursor(CursorMove::Right, false);
}

#[test]
fn textinput_value_returns_str_without_alloc() {
    let mut t = TextInput::new();
    t.insert_char('h');
    t.insert_char('i');
    assert_eq!(t.value(), "hi");
    t.delete_backward();
    assert_eq!(t.value(), "h");
    t.move_cursor(CursorMove::Home, false);
    t.delete_forward();
    assert_eq!(t.value(), "");
    for ch in "abc".chars() {
        t.insert_char(ch);
    }
    t.move_cursor(CursorMove::Home, false);
    t.move_cursor(CursorMove::Right, true);
    t.move_cursor(CursorMove::Right, true);
    t.delete_backward();
    assert_eq!(t.value(), "c");
}

#[test]
fn textinput_insert_then_backspace_restores() {
    let mut t = TextInput::new();
    for ch in "abc".chars() {
        t.insert_char(ch);
    }
    t.move_cursor(CursorMove::Left, false);
    t.insert_char('Z');
    assert_eq!(t.value(), "abZc");
    assert!(t.delete_backward());
    assert_eq!(t.value(), "abc");
    assert_eq!(t.cursor(), 2);
}

#[test]
fn textinput_move_right_at_end_stays() {
    let mut t = TextInput::new();
    t.insert_char('a');
    t.move_cursor(CursorMove::Right, false);
    assert_eq!(t.cursor(), 1);
    t.move_cursor(CursorMove::Home, false);
    t.move_cursor(CursorMove::Left, false);
    assert_eq!(t.cursor(), 0);
}

// ---- Label -------------------------------------------------------------------

#[test]
fn label_default_align_start() {
    let l = Label::new("Hello");
    assert_eq!(l.text(), "Hello");
    assert_eq!(l.align(), TextAlign::Start);
}

#[test]
fn label_with_center_align() {
    let l = Label::new("Hi").with_align(TextAlign::Center);
    assert_eq!(l.align(), TextAlign::Center);
}

#[test]
fn label_with_end_align() {
    let l = Label::new("Hi").with_align(TextAlign::End);
    assert_eq!(l.align(), TextAlign::End);
}

#[test]
fn label_set_text() {
    let mut l = Label::new("Hello");
    l.set_text("World");
    assert_eq!(l.text(), "World");
}

// ---- TabBar --------------------------------------------------------------------

#[test]
fn tabbar_initial_selection_is_first() {
    let tb = TabBar::new(&["A", "B", "C"]);
    assert_eq!(tb.selected(), 0);
    assert_eq!(tb.label(0), "A");
}

#[test]
fn tabbar_select_next_wraps() {
    let mut tb = TabBar::new(&["A", "B", "C"]);
    tb.select(2);
    tb.select_next();
    assert_eq!(tb.selected(), 0);
}

#[test]
fn tabbar_select_prev_wraps() {
    let mut tb = TabBar::new(&["A", "B", "C"]);
    tb.select_prev();
    assert_eq!(tb.selected(), 2);
}

#[test]
fn tabbar_home_end() {
    let mut tb = TabBar::new(&["A", "B", "C"]);
    tb.select(1);
    tb.select_last();
    assert_eq!(tb.selected(), 2);
    tb.select_first();
    assert_eq!(tb.selected(), 0);
}

#[test]
fn tabbar_select_clamps_to_last() {
    let mut tb = TabBar::new(&["A", "B"]);
    tb.select(99);
    assert_eq!(tb.selected(), 1);
}

#[test]
fn tabbar_select_next_from_middle_does_not_wrap() {
    let mut tb = TabBar::new(&["A", "B", "C"]);
    tb.select(1);
    tb.select_next();
    assert_eq!(tb.selected(), 2);
}

#[test]
fn tabbar_select_first_empty() {
    let mut tb = TabBar::new(&[]);
    tb.select_first();
    assert_eq!(tb.selected(), 0);
}

#[test]
fn tabbar_select_last_empty() {
    let mut tb = TabBar::new(&[]);
    tb.select_last();
    assert_eq!(tb.selected(), 0);
}

#[test]
fn tabbar_select_last_nonempty() {
    let mut tb = TabBar::new(&["a", "b", "c"]);
    tb.select_last();
    assert_eq!(tb.selected(), 2);
}

#[test]
fn tabbar_get_label_out_of_bounds_returns_none() {
    let tb = TabBar::new(&["A", "B"]);
    assert_eq!(tb.get_label(0), Some("A"));
    assert_eq!(tb.get_label(1), Some("B"));
    assert_eq!(tb.get_label(2), None);
}

#[test]
fn tabbar_next_then_prev_round_trip() {
    let mut tb = TabBar::new(&["A", "B", "C", "D"]);
    for start in 0..4 {
        tb.select(start);
        tb.select_next();
        tb.select_prev();
        assert_eq!(tb.selected(), start);
        tb.select_prev();
        tb.select_next();
        assert_eq!(tb.selected(), start);
    }
}

#[test]
fn tabbar_len_and_is_empty() {
    let tb = TabBar::new(&["A", "B"]);
    assert_eq!(tb.len(), 2);
    assert!(!tb.is_empty());
    assert!(TabBar::new(&[]).is_empty());
}

// ---- Dialog --------------------------------------------------------------------

#[test]
fn dialog_opens_with_focus_at_first() {
    let mut d = Dialog::new(3);
    d.open();
    assert!(d.is_open());
    assert_eq!(d.focused_index(), 0);
}

#[test]
fn dialog_tab_next_wraps_to_first() {
    let mut d = Dialog::new(3);
    d.open();
    d.tab_next();
    d.tab_next();
    d.tab_next();
    assert_eq!(d.focused_index(), 0);
}

#[test]
fn dialog_tab_prev_wraps_to_last() {
    let mut d = Dialog::new(3);
    d.open();
    d.tab_prev();
    assert_eq!(d.focused_index(), 2);
}

#[test]
fn dialog_escape_closes() {
    let mut d = Dialog::new(2);
    d.open();
    assert!(d.handle_escape());
    assert!(!d.is_open());
}

#[test]
fn dialog_escape_while_closed_returns_false() {
    let mut d = Dialog::new(2);
    assert!(!d.handle_escape());
}

#[test]
fn dialog_tab_noop_when_closed() {
    let mut d = Dialog::new(3);
    d.tab_next();
    d.tab_next();
    assert_eq!(d.focused_index(), 0);
    d.tab_prev();
    assert_eq!(d.focused_index(), 0);
}

#[test]
fn dialog_set_focusable_count_clamps_index() {
    let mut d = Dialog::new(5);
    d.open();
    d.tab_next();
    d.tab_next();
    d.set_focusable_count(2);
    assert_eq!(d.focused_index(), 1);
}

#[test]
fn dialog_set_focusable_count_zero_resets() {
    let mut d = Dialog::new(3);
    d.open();
    d.tab_next();
    d.set_focusable_count(0);
    assert_eq!(d.focused_index(), 0);
}

#[test]
fn dialog_tab_round_trip() {
    let mut d = Dialog::new(4);
    d.open();
    d.tab_next();
    assert_eq!(d.tab_next(), 2);
    assert_eq!(d.tab_prev(), 1);
    assert_eq!(d.tab_next(), 2);
}

// ---- ContextMenu ---------------------------------------------------------------

#[test]
fn contextmenu_open_sets_items() {
    let mut m = ContextMenu::new(&["Cut", "Copy", "Paste"]);
    m.open();
    assert!(m.is_open());
    assert_eq!(m.len(), 3);
    assert_eq!(m.item(0), "Cut");
    assert_eq!(m.item(2), "Paste");
}

#[test]
fn contextmenu_outside_click_dismisses() {
    let mut m = ContextMenu::new(&["A"]);
    m.open();
    assert!(m.handle_outside_click());
    assert!(!m.is_open());
}

#[test]
fn contextmenu_outside_click_when_closed_returns_false() {
    let mut m = ContextMenu::new(&["A"]);
    assert!(!m.handle_outside_click());
}

#[test]
fn contextmenu_escape_dismisses() {
    let mut m = ContextMenu::new(&["A"]);
    m.open();
    assert!(m.handle_escape());
    assert!(!m.is_open());
}

#[test]
fn contextmenu_select_next_wraps() {
    let mut m = ContextMenu::new(&["A", "B", "C"]);
    m.open();
    assert_eq!(m.selected_item(), None);
    m.select_next_item();
    assert_eq!(m.selected_item(), Some(0));
    m.select_next_item();
    assert_eq!(m.selected_item(), Some(1));
    m.select_next_item();
    assert_eq!(m.selected_item(), Some(2));
    m.select_next_item();
    assert_eq!(m.selected_item(), Some(0));
}

#[test]
fn contextmenu_select_prev_wraps() {
    let mut m = ContextMenu::new(&["A", "B", "C"]);
    m.open();
    m.select_prev_item();
    assert_eq!(m.selected_item(), Some(2));
}

#[test]
fn contextmenu_activate_selected_closes() {
    let mut m = ContextMenu::new(&["A", "B", "C"]);
    m.open();
    m.select_next_item();
    m.select_next_item();
    let activated = m.activate_selected();
    assert_eq!(activated, Some(1));
    assert!(!m.is_open());
}

#[test]
fn contextmenu_selection_resets_on_open() {
    let mut m = ContextMenu::new(&["A", "B"]);
    m.open();
    m.select_next_item();
    m.close();
    m.open();
    assert_eq!(m.selected_item(), None);
}

#[test]
fn contextmenu_keyboard_noop_when_closed() {
    let mut m = ContextMenu::new(&["A", "B"]);
    m.select_next_item();
    assert_eq!(m.selected_item(), None);
}

#[test]
fn contextmenu_next_prev_round_trip() {
    let mut m = ContextMenu::new(&["A", "B", "C"]);
    m.open();
    m.select_next_item();
    m.select_next_item();
    m.select_next_item();
    m.select_prev_item();
    assert_eq!(m.selected_item(), Some(1));
}

// ---- Roles -----------------------------------------------------------------------

#[test]
fn widget_roles_match_expected() {
    assert_eq!(Button::role(), NodeRole::Button);
    assert_eq!(TextInput::role(), NodeRole::TextBox);
    assert_eq!(TabBar::role(), NodeRole::Tab);
    assert_eq!(Dialog::role(), NodeRole::Dialog);
    assert_eq!(ContextMenu::role(), NodeRole::Menu);
    assert_eq!(Label::role(), NodeRole::NoRole);
}

#[test]
fn textinput_insert_after_collapsed_select_leaves_no_selection() {
    let mut t = TextInput::new();
    t.move_cursor(CursorMove::Home, true);
    t.insert_char('a');
    assert_eq!(t.selection(), None);
    t.insert_char('b');
    assert_eq!(t.value(), "ab");
}

#[test]
fn textinput_backspace_drops_collapsed_selection() {
    let mut t = TextInput::new();
    t.insert_char('a');
    t.insert_char('b');
    t.move_cursor(CursorMove::End, true);
    assert!(t.delete_backward());
    assert_eq!(t.selection(), None);
    assert_eq!(t.value(), "a");
    assert_eq!(t.chars_count(), 1);
}

#[test]
fn textinput_delete_forward_drops_collapsed_selection() {
    let mut t = TextInput::new();
    t.insert_char('a');
    t.insert_char('b');
    t.move_cursor(CursorMove::Home, false);
    t.move_cursor(CursorMove::Left, true);
    assert!(t.delete_forward());
    assert_eq!(t.selection(), None);
    assert_eq!(t.value(), "b");
}
