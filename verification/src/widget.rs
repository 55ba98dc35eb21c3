//! Widget state machines: buttons, text inputs, labels, tab bars, dialogs and
//! context menus.  Each widget only tracks interaction state; hit-testing and
//! drawing are the caller's business.

use vstd::prelude::*;

verus! {

/// Standard focus ring stroke width in logical pixels.
pub const FOCUS_RING_WIDTH: u32 = 2;

/// Accessibility role attached to a node of the UI tree.
#[derive(Debug, Clone, Copy, PartialEq, Eq, Structural)]
pub enum NodeRole {
    NoRole,
    Button,
    TextBox,
    Tab,
    Dialog,
    Menu,
}

impl Default for NodeRole {
    fn default() -> (r: Self)
        ensures
            r == NodeRole::NoRole,
    {
        NodeRole::NoRole
    }
}

/// Interaction state shared by all interactive widgets.
#[derive(Debug, Clone, Copy, PartialEq, Eq, Structural)]
pub enum WidgetState {
    /// Default resting state; no interaction is active.
    Normal,
    /// The pointer is positioned over the widget.
    Hover,
    /// The widget is being pressed (mouse-down or key-down while focused).
    Pressed,
    /// The widget holds keyboard focus.
    Focused,
    /// Input is suppressed; the widget does not respond to events.
    Disabled,
}

impl Default for WidgetState {
    fn default() -> (r: Self)
        ensures
            r == WidgetState::Normal,
    {
        WidgetState::Normal
    }
}

// ---------------------------------------------------------------------------
// Button
// ---------------------------------------------------------------------------

/// Abstract state of a [`Button`].
pub struct ButtonView {
    pub state: WidgetState,
    pub label: Seq<char>,
    /// Whether the button holds keyboard focus (kept apart from `state` so
    /// that a release can restore the focus ring).
    pub focused: bool,
}

/// A stateful button widget.
pub struct Button {
    state: WidgetState,
    label: String,
    focused: bool,
}

/// The state a button rests in when no press or hover is active.
pub open spec fn resting_state(focused: bool) -> WidgetState {
    if focused { WidgetState::Focused } else { WidgetState::Normal }
}

/// Button state after a hover enter (`hovered`) or leave.
pub open spec fn button_after_hover(v: ButtonView, hovered: bool) -> WidgetState {
    if v.state == WidgetState::Disabled {
        v.state
    } else if hovered {
        if v.state == WidgetState::Normal { WidgetState::Hover } else { v.state }
    } else if v.state == WidgetState::Hover {
        resting_state(v.focused)
    } else {
        v.state
    }
}

/// Button state after a focus gain (`focused`) or loss.
pub open spec fn button_after_focus(v: ButtonView, focused: bool) -> WidgetState {
    if v.state == WidgetState::Disabled {
        v.state
    } else if focused {
        if v.state == WidgetState::Normal || v.state == WidgetState::Hover {
            WidgetState::Focused
        } else {
            v.state
        }
    } else if v.state == WidgetState::Focused || v.state == WidgetState::Pressed {
        WidgetState::Normal
    } else {
        v.state
    }
}

impl View for Button {
    type V = ButtonView;

    closed spec fn view(&self) -> ButtonView {
        ButtonView { state: self.state, label: self.label@, focused: self.focused }
    }
}

impl Button {
    /// Creates an enabled, unfocused button with the given label.
    pub fn new(label: &str) -> (b: Self)
        ensures
            b@.state == WidgetState::Normal,
            b@.label == label@,
            !b@.focused,
    {
        Button { state: WidgetState::Normal, label: label.to_owned(), focused: false }
    }

    pub fn label(&self) -> (l: &str)
        ensures
            l@ == self@.label,
    {
        self.label.as_str()
    }

    pub fn state(&self) -> (s: WidgetState)
        ensures
            s == self@.state,
    {
        self.state
    }

    /// Enables or disables the button.  Disabled buttons ignore all other events.
    pub fn set_disabled(&mut self, disabled: bool)
        ensures
            final(self)@.state == (if disabled {
                WidgetState::Disabled
            } else if old(self)@.state == WidgetState::Disabled {
                WidgetState::Normal
            } else {
                old(self)@.state
            }),
            final(self)@.label == old(self)@.label,
            final(self)@.focused == old(self)@.focused,
    {
        if disabled {
            self.state = WidgetState::Disabled;
        } else if self.state == WidgetState::Disabled {
            self.state = WidgetState::Normal;
        }
    }

    /// Notifies hover enter (`true`) or leave (`false`).  Focused and pressed
    /// states take priority over hover.
    pub fn set_hovered(&mut self, hovered: bool)
        ensures
            final(self)@.state == button_after_hover(old(self)@, hovered),
            final(self)@.label == old(self)@.label,
            final(self)@.focused == old(self)@.focused,
    {
        if self.state == WidgetState::Disabled {
            return;
        }
        if hovered {
            if self.state == WidgetState::Normal {
                self.state = WidgetState::Hover;
            }
        } else if self.state == WidgetState::Hover {
            self.state = if self.focused {
                WidgetState::Focused
            } else {
                WidgetState::Normal
            };
        }
    }

    /// Notifies focus gain (`true`) or loss (`false`).
    pub fn set_focused(&mut self, focused: bool)
        ensures
            final(self)@.state == button_after_focus(old(self)@, focused),
            final(self)@.label == old(self)@.label,
            final(self)@.focused == (if old(self)@.state == WidgetState::Disabled {
                old(self)@.focused
            } else {
                focused
            }),
    {
        if self.state == WidgetState::Disabled {
            return;
        }
        self.focused = focused;
        if focused {
            if self.state == WidgetState::Normal || self.state == WidgetState::Hover {
                self.state = WidgetState::Focused;
            }
        } else if self.state == WidgetState::Focused || self.state == WidgetState::Pressed {
            self.state = WidgetState::Normal;
        }
    }

    /// Begins a press (mouse-down, or Enter / Space while focused).
    pub fn press(&mut self)
        ensures
            final(self)@.state == (if old(self)@.state == WidgetState::Disabled {
                WidgetState::Disabled
            } else {
                WidgetState::Pressed
            }),
            final(self)@.label == old(self)@.label,
            final(self)@.focused == old(self)@.focused,
    {
        if self.state == WidgetState::Disabled {
            return;
        }
        self.state = WidgetState::Pressed;
    }

    pub fn role() -> (r: NodeRole)
        ensures
            r == NodeRole::Button,
    {
        NodeRole::Button
    }

    /// Ends a press.  Returns `true` when the button was activated (it was
    /// pressed and is not disabled); the button then rests focused or normal.
    pub fn release(&mut self) -> (activated: bool)
        ensures
            activated == (old(self)@.state == WidgetState::Pressed),
            final(self)@.state == (if old(self)@.state == WidgetState::Disabled {
                WidgetState::Disabled
            } else {
                resting_state(old(self)@.focused)
            }),
            final(self)@.label == old(self)@.label,
            final(self)@.focused == old(self)@.focused,
    {
        if self.state == WidgetState::Disabled {
            return false;
        }
        let activated = self.state == WidgetState::Pressed;
        self.state = if self.focused {
            WidgetState::Focused
        } else {
            WidgetState::Normal
        };
        activated
    }
}


// ---------------------------------------------------------------------------
// TextAlign / CursorMove
// ---------------------------------------------------------------------------

/// Horizontal alignment for text within a [`Label`] or [`TextInput`].
#[derive(Debug, Clone, Copy, PartialEq, Eq, Structural)]
pub enum TextAlign {
    /// Aligns text to the leading edge.
    Start,
    /// Centers text within the available width.
    Center,
    /// Aligns text to the trailing edge.
    End,
}

impl Default for TextAlign {
    fn default() -> (r: Self)
        ensures
            r == TextAlign::Start,
    {
        TextAlign::Start
    }
}

/// Logical cursor movement within a [`TextInput`].
#[derive(Debug, Clone, Copy, PartialEq, Eq, Structural)]
pub enum CursorMove {
    /// Move one character to the left.
    Left,
    /// Move one character to the right.
    Right,
    /// Jump to the start of the text.
    Home,
    /// Jump to the end of the text.
    End,
}

// ---------------------------------------------------------------------------
// TextInput
// ---------------------------------------------------------------------------

/// Abstract state of a [`TextInput`].
pub struct TextInputView {
    pub state: WidgetState,
    /// The characters of the current value.
    pub chars: Seq<char>,
    /// Caret position as a character index.
    pub cursor: nat,
    /// Selection anchor; the selection runs from the anchor to the caret.
    pub anchor: Option<nat>,
    pub placeholder: Seq<char>,
}

/// The ordered selection range `(lo, hi)`, or `None` when there is no anchor
/// or the anchor coincides with the caret.
pub open spec fn selection_range(anchor: Option<nat>, cursor: nat) -> Option<(nat, nat)> {
    match anchor {
        Option::None => Option::None,
        Option::Some(a) => if a == cursor {
            Option::None
        } else if a < cursor {
            Option::Some((a, cursor))
        } else {
            Option::Some((cursor, a))
        },
    }
}

impl TextInputView {
    pub open spec fn selection(self) -> Option<(nat, nat)> {
        selection_range(self.anchor, self.cursor)
    }

    /// The selection never reaches past the end of the text (an edit on a
    /// selection that does would index past the end of the characters).
    pub open spec fn selection_fits(self) -> bool {
        match self.selection() {
            Option::None => true,
            Option::Some((lo, hi)) => hi <= self.chars.len(),
        }
    }

    /// The state after deleting the current selection, if any.
    pub open spec fn without_selection(self) -> TextInputView {
        match self.selection() {
            Option::None => self,
            Option::Some((lo, hi)) => TextInputView {
                chars: self.chars.subrange(0, lo as int) + self.chars.subrange(
                    hi as int,
                    self.chars.len() as int,
                ),
                cursor: lo,
                anchor: Option::None,
                ..self
            },
        }
    }

    /// The state after typing `ch`: it replaces the selection, if any, the
    /// caret follows it and nothing is left selected.
    pub open spec fn after_insert(self, ch: char) -> TextInputView {
        if self.state == WidgetState::Disabled {
            self
        } else {
            let d = self.without_selection();
            TextInputView {
                chars: d.chars.insert(d.cursor as int, ch),
                cursor: d.cursor + 1,
                anchor: Option::None,
                ..d
            }
        }
    }

    /// The state after Backspace; an edit leaves nothing selected.
    pub open spec fn after_delete_backward(self) -> TextInputView {
        if self.state == WidgetState::Disabled {
            self
        } else if self.selection() is Some {
            self.without_selection()
        } else if self.cursor == 0 {
            self
        } else {
            TextInputView {
                chars: self.chars.remove(self.cursor - 1),
                cursor: (self.cursor - 1) as nat,
                anchor: Option::None,
                ..self
            }
        }
    }

    /// Whether Backspace removes anything.
    pub open spec fn deletes_backward(self) -> bool {
        self.state != WidgetState::Disabled && (self.selection() is Some || self.cursor > 0)
    }

    /// The state after Delete.
    pub open spec fn after_delete_forward(self) -> TextInputView {
        if self.state == WidgetState::Disabled {
            self
        } else if self.selection() is Some {
            self.without_selection()
        } else if self.cursor >= self.chars.len() {
            self
        } else {
            TextInputView {
                chars: self.chars.remove(self.cursor as int),
                anchor: Option::None,
                ..self
            }
        }
    }

    /// Whether Delete removes anything.
    pub open spec fn deletes_forward(self) -> bool {
        self.state != WidgetState::Disabled && (self.selection() is Some || self.cursor
            < self.chars.len())
    }

    /// The state after a cursor movement; `select` pins the anchor at the old
    /// caret (unless a selection is already anchored), otherwise the
    /// selection collapses.
    pub open spec fn after_move(self, mv: CursorMove, select: bool) -> TextInputView {
        if self.state == WidgetState::Disabled {
            self
        } else {
            let anchor = if select {
                if self.anchor is None { Option::Some(self.cursor) } else { self.anchor }
            } else {
                Option::None
            };
            let cursor: nat = match mv {
                CursorMove::Left => if self.cursor == 0 { 0 } else { (self.cursor - 1) as nat },
                CursorMove::Right => if self.cursor + 1 <= self.chars.len() {
                    self.cursor + 1
                } else {
                    self.chars.len()
                },
                CursorMove::Home => 0,
                CursorMove::End => self.chars.len(),
            };
            TextInputView { anchor, cursor, ..self }
        }
    }
}

/// A stateful single-line text-input widget.  Characters are stored one by
/// one, so every caret index is a character index.
pub struct TextInput {
    state: WidgetState,
    chars: Vec<char>,
    cursor: usize,
    selection_anchor: Option<usize>,
    placeholder: String,
    cached_value: String,
}

pub open spec fn opt_nat(o: Option<usize>) -> Option<nat> {
    match o {
        Option::None => Option::None,
        Option::Some(x) => Option::Some(x as nat),
    }
}

impl View for TextInput {
    type V = TextInputView;

    closed spec fn view(&self) -> TextInputView {
        TextInputView {
            state: self.state,
            chars: self.chars@,
            cursor: self.cursor as nat,
            anchor: opt_nat(self.selection_anchor),
            placeholder: self.placeholder@,
        }
    }
}

impl TextInput {
    /// Internal consistency: the caret and the selection anchor lie within
    /// the text and the cached value spells the characters.
    pub closed spec fn wf(&self) -> bool {
        &&& self.cursor <= self.chars.len()
        &&& (self.selection_anchor matches Some(a) ==> a <= self.chars.len())
        &&& self.cached_value@ == self.chars@
    }

    /// A well-formed input's caret and selection anchor lie within its text,
    /// so every selection `(lo, hi)` has `lo < hi <= ` the character count.
    pub proof fn lemma_cursor_in_text(&self)
        requires
            self.wf(),
        ensures
            self@.cursor <= self@.chars.len(),
            self@.anchor matches Some(a) ==> a <= self@.chars.len(),
            self@.selection_fits(),
            self@.selection() matches Some((lo, hi)) ==> lo < hi <= self@.chars.len(),
    {
    }

    pub fn new() -> (t: Self)
        ensures
            t.wf(),
            t@.state == WidgetState::Normal,
            t@.chars == Seq::<char>::empty(),
            t@.cursor == 0,
            t@.anchor is None,
            t@.placeholder == Seq::<char>::empty(),
    {
        TextInput {
            state: WidgetState::Normal,
            chars: Vec::new(),
            cursor: 0,
            selection_anchor: None,
            placeholder: String::new(),
            cached_value: String::new(),
        }
    }

    pub fn with_placeholder(self, placeholder: &str) -> (t: Self)
        requires
            self.wf(),
        ensures
            t.wf(),
            t@ == (TextInputView { placeholder: placeholder@, ..self@ }),
    {
        let mut s = self;
        s.placeholder = placeholder.to_owned();
        s
    }

    pub fn state(&self) -> (s: WidgetState)
        ensures
            s == self@.state,
    {
        self.state
    }

    pub fn cursor(&self) -> (c: usize)
        ensures
            c == self@.cursor,
    {
        self.cursor
    }

    pub fn placeholder(&self) -> (p: &str)
        ensures
            p@ == self@.placeholder,
    {
        self.placeholder.as_str()
    }

    /// Returns the current text value.
    pub fn value(&self) -> (v: &str)
        requires
            self.wf(),
        ensures
            v@ == self@.chars,
    {
        self.cached_value.as_str()
    }

    /// Returns the number of characters in the current value.
    pub fn chars_count(&self) -> (n: usize)
        ensures
            n == self@.chars.len(),
    {
        self.chars.len()
    }

    /// Returns the ordered selection range `(lo, hi)` if any characters are
    /// selected; `None` when the caret is collapsed.
    pub fn selection(&self) -> (r: Option<(usize, usize)>)
        ensures
            match r {
                Option::None => self@.selection() is None,
                Option::Some((lo, hi)) => self@.selection() == Option::Some((lo as nat, hi as nat)),
            },
    {
        match self.selection_anchor {
            None => None,
            Some(anchor) => {
                if anchor == self.cursor {
                    None
                } else if anchor < self.cursor {
                    Some((anchor, self.cursor))
                } else {
                    Some((self.cursor, anchor))
                }
            },
        }
    }

    /// Enables or disables the input.  Disabled inputs ignore all edits.
    pub fn set_disabled(&mut self, disabled: bool)
        requires
            old(self).wf(),
        ensures
            final(self).wf(),
            final(self)@ == (TextInputView {
                state: if disabled {
                    WidgetState::Disabled
                } else if old(self)@.state == WidgetState::Disabled {
                    WidgetState::Normal
                } else {
                    old(self)@.state
                },
                ..old(self)@
            }),
    {
        if disabled {
            self.state = WidgetState::Disabled;
        } else if self.state == WidgetState::Disabled {
            self.state = WidgetState::Normal;
        }
    }

    /// Notifies focus gain (`true`) or loss (`false`); losing focus drops the
    /// selection anchor.
    pub fn set_focused(&mut self, focused: bool)
        requires
            old(self).wf(),
        ensures
            final(self).wf(),
            final(self)@ == (if old(self)@.state == WidgetState::Disabled {
                old(self)@
            } else {
                TextInputView {
                    state: resting_state(focused),
                    anchor: if focused { old(self)@.anchor } else { Option::None },
                    ..old(self)@
                }
            }),
    {
        if self.state == WidgetState::Disabled {
            return;
        }
        self.state = if focused {
            WidgetState::Focused
        } else {
            WidgetState::Normal
        };
        if !focused {
            self.selection_anchor = None;
        }
    }

    /// Inserts a character at the caret, replacing the selection if any.
    pub fn insert_char(&mut self, ch: char)
        requires
            old(self).wf(),
            old(self)@.chars.len() < usize::MAX,
        ensures
            final(self).wf(),
            final(self)@ == old(self)@.after_insert(ch),
    {
        if self.state == WidgetState::Disabled {
            return;
        }
        self.delete_selection();
        self.chars.insert(self.cursor, ch);
        self.cursor = self.cursor + 1;
        self.selection_anchor = None;
        self.sync_cache();
    }

    /// Deletes the character before the caret (Backspace), or the selection.
    /// Returns `true` if any content was removed.
    pub fn delete_backward(&mut self) -> (removed: bool)
        requires
            old(self).wf(),
        ensures
            final(self).wf(),
            final(self)@ == old(self)@.after_delete_backward(),
            removed == old(self)@.deletes_backward(),
    {
        if self.state == WidgetState::Disabled {
            return false;
        }
        if self.delete_selection() {
            return true;
        }
        if self.cursor == 0 {
            return false;
        }
        self.cursor = self.cursor - 1;
        self.chars.remove(self.cursor);
        self.selection_anchor = None;
        self.sync_cache();
        true
    }

    /// Deletes the character after the caret (Delete), or the selection.
    /// Returns `true` if any content was removed.
    pub fn delete_forward(&mut self) -> (removed: bool)
        requires
            old(self).wf(),
        ensures
            final(self).wf(),
            final(self)@ == old(self)@.after_delete_forward(),
            removed == old(self)@.deletes_forward(),
    {
        if self.state == WidgetState::Disabled {
            return false;
        }
        if self.delete_selection() {
            return true;
        }
        if self.cursor >= self.chars.len() {
            return false;
        }
        self.chars.remove(self.cursor);
        self.selection_anchor = None;
        self.sync_cache();
        true
    }

    /// Moves the caret.  With `select` the anchor is pinned at the current
    /// position (extending or creating a selection); without it the selection
    /// collapses.
    pub fn move_cursor(&mut self, mv: CursorMove, select: bool)
        requires
            old(self).wf(),
        ensures
            final(self).wf(),
            final(self)@ == old(self)@.after_move(mv, select),
    {
        if self.state == WidgetState::Disabled {
            return;
        }
        if select && self.selection_anchor.is_none() {
            self.selection_anchor = Some(self.cursor);
        } else if !select {
            self.selection_anchor = None;
        }
        self.cursor = match mv {
            CursorMove::Left => if self.cursor == 0 { 0 } else { self.cursor - 1 },
            CursorMove::Right => if self.cursor < self.chars.len() {
                self.cursor + 1
            } else {
                self.chars.len()
            },
            CursorMove::Home => 0,
            CursorMove::End => self.chars.len(),
        };
    }

    pub fn role() -> (r: NodeRole)
        ensures
            r == NodeRole::TextBox,
    {
        NodeRole::TextBox
    }

    fn sync_cache(&mut self)
        ensures
            final(self)@ == old(self)@,
            final(self).cached_value@ == final(self).chars@,
            final(self).cursor == old(self).cursor,
            final(self).chars == old(self).chars,
    {
        self.cached_value = crate::text::string_from_chars(&self.chars);
    }

    /// Deletes the selected range.  Returns `true` if anything was deleted.
    fn delete_selection(&mut self) -> (deleted: bool)
        requires
            old(self).wf(),
            old(self)@.selection_fits(),
        ensures
            final(self).wf(),
            final(self)@ == old(self)@.without_selection(),
            deleted == (old(self)@.selection() is Some),
    {
        let sel = self.selection();
        if sel.is_none() {
            assert(old(self)@.without_selection() == old(self)@);
            return false;
        }
        let (lo, hi) = sel.unwrap();
        let ghost before = self.chars@;
        let mut i: usize = lo;
        while i < hi
            invariant
                lo <= i <= hi,
                hi <= before.len(),
                self.state == old(self).state,
                self.placeholder == old(self).placeholder,
                self.chars@ == before.subrange(0, lo as int) + before.subrange(
                    i as int,
                    before.len() as int,
                ),
            decreases hi - i,
        {
            assert(self.chars@.remove(lo as int) == before.subrange(0, lo as int)
                + before.subrange(i + 1, before.len() as int));
            self.chars.remove(lo);
            i = i + 1;
        }
        self.cursor = lo;
        self.selection_anchor = None;
        self.sync_cache();
        true
    }
}

impl Default for TextInput {
    fn default() -> (t: Self)
        ensures
            t.wf(),
            t@.state == WidgetState::Normal,
            t@.chars == Seq::<char>::empty(),
            t@.cursor == 0,
            t@.anchor is None,
            t@.placeholder == Seq::<char>::empty(),
    {
        Self::new()
    }
}


// ---------------------------------------------------------------------------
// Label
// ---------------------------------------------------------------------------

/// A read-only text label.
pub struct Label {
    text: String,
    align: TextAlign,
}

pub struct LabelView {
    pub text: Seq<char>,
    pub align: TextAlign,
}

impl View for Label {
    type V = LabelView;

    closed spec fn view(&self) -> LabelView {
        LabelView { text: self.text@, align: self.align }
    }
}

impl Label {
    pub fn new(text: &str) -> (l: Self)
        ensures
            l@.text == text@,
            l@.align == TextAlign::Start,
    {
        Label { text: text.to_owned(), align: TextAlign::Start }
    }

    pub fn with_align(self, align: TextAlign) -> (l: Self)
        ensures
            l@ == (LabelView { align, ..self@ }),
    {
        let mut l = self;
        l.align = align;
        l
    }

    pub fn text(&self) -> (t: &str)
        ensures
            t@ == self@.text,
    {
        self.text.as_str()
    }

    pub fn set_text(&mut self, text: &str)
        ensures
            final(self)@ == (LabelView { text: text@, ..old(self)@ }),
    {
        self.text = text.to_owned();
    }

    pub fn align(&self) -> (a: TextAlign)
        ensures
            a == self@.align,
    {
        self.align
    }

    pub fn role() -> (r: NodeRole)
        ensures
            r == NodeRole::NoRole,
    {
        NodeRole::NoRole
    }
}

/// Copies each string of `items` into an owned vector.
pub fn owned_strings(items: &[&str]) -> (v: Vec<String>)
    ensures
        v@.len() == items@.len(),
        forall|i: int| 0 <= i < items@.len() ==> #[trigger] v@[i]@ == items@[i]@,
{
    let mut v: Vec<String> = Vec::new();
    let mut i: usize = 0;
    while i < items.len()
        invariant
            i <= items@.len(),
            v@.len() == i,
            forall|j: int| 0 <= j < i ==> #[trigger] v@[j]@ == items@[j]@,
        decreases items@.len() - i,
    {
        v.push(items[i].to_owned());
        i = i + 1;
    }
    v
}

/// The characters of each string.
pub open spec fn string_views(v: Seq<String>) -> Seq<Seq<char>> {
    v.map_values(|s: String| s@)
}

// ---------------------------------------------------------------------------
// TabBar
// ---------------------------------------------------------------------------

/// Abstract state of a [`TabBar`].
pub struct TabBarView {
    pub tabs: Seq<Seq<char>>,
    pub selected: nat,
}

impl TabBarView {
    /// The selection is a valid tab index (or 0 when there are no tabs).
    pub open spec fn wf(self) -> bool {
        if self.tabs.len() == 0 { self.selected == 0 } else { self.selected < self.tabs.len() }
    }

    /// Index after `select(index)`: clamped to the last tab.
    pub open spec fn select_target(self, index: nat) -> nat {
        if self.tabs.len() == 0 {
            self.selected
        } else if index < self.tabs.len() {
            index
        } else {
            (self.tabs.len() - 1) as nat
        }
    }

    /// Index after `select_next`: wraps from last to first.
    pub open spec fn next_index(self) -> nat {
        if self.tabs.len() == 0 {
            self.selected
        } else {
            (self.selected + 1) % self.tabs.len()
        }
    }

    /// Index after `select_prev`: wraps from first to last.
    pub open spec fn prev_index(self) -> nat {
        if self.tabs.len() == 0 {
            self.selected
        } else if self.selected == 0 {
            (self.tabs.len() - 1) as nat
        } else {
            (self.selected - 1) as nat
        }
    }
}

/// A tab bar with keyboard-navigable selection.  Selection wraps: next on the
/// last tab goes to the first, previous on the first goes to the last.
pub struct TabBar {
    tabs: Vec<String>,
    selected: usize,
}

impl View for TabBar {
    type V = TabBarView;

    closed spec fn view(&self) -> TabBarView {
        TabBarView { tabs: string_views(self.tabs@), selected: self.selected as nat }
    }
}

impl TabBar {
    /// Well-formed exactly when the abstract state is (see the view's `wf`).
    pub open spec fn wf(&self) -> bool {
        self@.wf()
    }

    pub fn new(tabs: &[&str]) -> (t: Self)
        ensures
            t.wf(),
            t@.selected == 0,
            t@.tabs.len() == tabs@.len(),
            forall|i: int| 0 <= i < tabs@.len() ==> #[trigger] t@.tabs[i] == tabs@[i]@,
    {
        TabBar { tabs: owned_strings(tabs), selected: 0 }
    }

    pub fn selected(&self) -> (i: usize)
        ensures
            i == self@.selected,
    {
        self.selected
    }

    /// Returns the label of the tab at `index`, which must be in range.
    pub fn label(&self, index: usize) -> (l: &str)
        requires
            index < self@.tabs.len(),
        ensures
            l@ == self@.tabs[index as int],
    {
        self.tabs[index].as_str()
    }

    /// Returns the label of the tab at `index`, or `None` if out of range.
    pub fn get_label(&self, index: usize) -> (l: Option<&str>)
        ensures
            match l {
                Option::None => index >= self@.tabs.len(),
                Option::Some(s) => index < self@.tabs.len() && s@ == self@.tabs[index as int],
            },
    {
        if index < self.tabs.len() {
            Some(self.tabs[index].as_str())
        } else {
            None
        }
    }

    pub fn len(&self) -> (n: usize)
        ensures
            n == self@.tabs.len(),
    {
        self.tabs.len()
    }

    pub fn is_empty(&self) -> (b: bool)
        ensures
            b == (self@.tabs.len() == 0),
    {
        self.tabs.len() == 0
    }

    /// Selects by index, clamped to the last tab.  No-op without tabs.
    pub fn select(&mut self, index: usize)
        requires
            old(self).wf(),
        ensures
            final(self).wf(),
            final(self)@ == (TabBarView {
                selected: old(self)@.select_target(index as nat),
                ..old(self)@
            }),
    {
        if self.tabs.len() > 0 {
            self.selected = if index < self.tabs.len() {
                index
            } else {
                self.tabs.len() - 1
            };
        }
    }

    /// Moves to the next tab, wrapping from last to first.
    pub fn select_next(&mut self)
        requires
            old(self).wf(),
        ensures
            final(self).wf(),
            final(self)@ == (TabBarView { selected: old(self)@.next_index(), ..old(self)@ }),
    {
        if self.tabs.len() > 0 {
            self.selected = (self.selected + 1) % self.tabs.len();
        }
    }

    /// Moves to the previous tab, wrapping from first to last.
    pub fn select_prev(&mut self)
        requires
            old(self).wf(),
        ensures
            final(self).wf(),
            final(self)@ == (TabBarView { selected: old(self)@.prev_index(), ..old(self)@ }),
    {
        if self.tabs.len() > 0 {
            self.selected = if self.selected == 0 {
                self.tabs.len() - 1
            } else {
                self.selected - 1
            };
        }
    }

    /// Jumps to the first tab (Home key).  No-op without tabs.
    pub fn select_first(&mut self)
        requires
            old(self).wf(),
        ensures
            final(self).wf(),
            final(self)@ == (TabBarView {
                selected: if old(self)@.tabs.len() == 0 { old(self)@.selected } else { 0 },
                ..old(self)@
            }),
    {
        if self.tabs.len() > 0 {
            self.selected = 0;
        }
    }

    /// Jumps to the last tab (End key).  No-op without tabs.
    pub fn select_last(&mut self)
        requires
            old(self).wf(),
        ensures
            final(self).wf(),
            final(self)@ == (TabBarView {
                selected: if old(self)@.tabs.len() == 0 {
                    old(self)@.selected
                } else {
                    (old(self)@.tabs.len() - 1) as nat
                },
                ..old(self)@
            }),
    {
        if self.tabs.len() > 0 {
            self.selected = self.tabs.len() - 1;
        }
    }

    pub fn role() -> (r: NodeRole)
        ensures
            r == NodeRole::Tab,
    {
        NodeRole::Tab
    }
}

// ---------------------------------------------------------------------------
// Dialog
// ---------------------------------------------------------------------------

/// Abstract state of a [`Dialog`].
pub struct DialogView {
    pub open: bool,
    pub focusable_count: nat,
    pub focused_index: nat,
}

impl DialogView {
    /// The focused child is in range (or 0 when there is none).
    pub open spec fn wf(self) -> bool {
        self.focused_index < self.focusable_count || self.focused_index == 0
    }

    /// Focus index after Tab: wraps from last to first; unchanged when closed.
    pub open spec fn next_index(self) -> nat {
        if !self.open || self.focusable_count == 0 {
            self.focused_index
        } else {
            (self.focused_index + 1) % self.focusable_count
        }
    }

    /// Focus index after Shift-Tab: wraps from first to last; unchanged when closed.
    pub open spec fn prev_index(self) -> nat {
        if !self.open || self.focusable_count == 0 {
            self.focused_index
        } else if self.focused_index == 0 {
            (self.focusable_count - 1) as nat
        } else {
            (self.focused_index - 1) as nat
        }
    }
}

/// A modal dialog with a focus trap: while open, Tab / Shift-Tab cycle only
/// among its focusable children, and Escape closes it.
pub struct Dialog {
    open: bool,
    focusable_count: usize,
    focused_index: usize,
}

impl View for Dialog {
    type V = DialogView;

    closed spec fn view(&self) -> DialogView {
        DialogView {
            open: self.open,
            focusable_count: self.focusable_count as nat,
            focused_index: self.focused_index as nat,
        }
    }
}

impl Dialog {
    /// Well-formed exactly when the abstract state is (see the view's `wf`).
    pub open spec fn wf(&self) -> bool {
        self@.wf()
    }

    pub fn new(focusable_count: usize) -> (d: Self)
        ensures
            d.wf(),
            d@ == (DialogView { open: false, focusable_count: focusable_count as nat, focused_index: 0 }),
    {
        Dialog { open: false, focusable_count, focused_index: 0 }
    }

    /// Opens the dialog with focus on its first child.
    pub fn open(&mut self)
        requires
            old(self).wf(),
        ensures
            final(self).wf(),
            final(self)@ == (DialogView { open: true, focused_index: 0, ..old(self)@ }),
    {
        self.open = true;
        self.focused_index = 0;
    }

    pub fn close(&mut self)
        requires
            old(self).wf(),
        ensures
            final(self).wf(),
            final(self)@ == (DialogView { open: false, ..old(self)@ }),
    {
        self.open = false;
    }

    pub fn is_open(&self) -> (b: bool)
        ensures
            b == self@.open,
    {
        self.open
    }

    pub fn focused_index(&self) -> (i: usize)
        ensures
            i == self@.focused_index,
    {
        self.focused_index
    }

    /// Updates the number of focusable children, clamping the focus index.
    pub fn set_focusable_count(&mut self, count: usize)
        requires
            old(self).wf(),
        ensures
            final(self).wf(),
            final(self)@ == (DialogView {
                focusable_count: count as nat,
                focused_index: if count == 0 {
                    0
                } else if old(self)@.focused_index < count {
                    old(self)@.focused_index
                } else {
                    (count - 1) as nat
                },
                ..old(self)@
            }),
    {
        self.focusable_count = count;
        if count > 0 {
            if self.focused_index >= count {
                self.focused_index = count - 1;
            }
        } else {
            self.focused_index = 0;
        }
    }

    /// Moves focus to the next child, wrapping; returns the focus index.
    pub fn tab_next(&mut self) -> (i: usize)
        requires
            old(self).wf(),
        ensures
            final(self).wf(),
            final(self)@ == (DialogView { focused_index: old(self)@.next_index(), ..old(self)@ }),
            i == final(self)@.focused_index,
    {
        if !self.open {
            return self.focused_index;
        }
        if self.focusable_count > 0 {
            self.focused_index = (self.focused_index + 1) % self.focusable_count;
        }
        self.focused_index
    }

    /// Moves focus to the previous child, wrapping; returns the focus index.
    pub fn tab_prev(&mut self) -> (i: usize)
        requires
            old(self).wf(),
        ensures
            final(self).wf(),
            final(self)@ == (DialogView { focused_index: old(self)@.prev_index(), ..old(self)@ }),
            i == final(self)@.focused_index,
    {
        if !self.open {
            return self.focused_index;
        }
        if self.focusable_count > 0 {
            self.focused_index = if self.focused_index == 0 {
                self.focusable_count - 1
            } else {
                self.focused_index - 1
            };
        }
        self.focused_index
    }

    /// Handles Escape.  Returns `true` if the dialog was open and is now closed.
    pub fn handle_escape(&mut self) -> (closed: bool)
        requires
            old(self).wf(),
        ensures
            final(self).wf(),
            closed == old(self)@.open,
            final(self)@ == (DialogView { open: false, ..old(self)@ }),
    {
        if self.open {
            self.close();
            true
        } else {
            false
        }
    }

    pub fn role() -> (r: NodeRole)
        ensures
            r == NodeRole::Dialog,
    {
        NodeRole::Dialog
    }
}

// ---------------------------------------------------------------------------
// ContextMenu
// ---------------------------------------------------------------------------

/// Abstract state of a [`ContextMenu`].
pub struct ContextMenuView {
    pub open: bool,
    pub items: Seq<Seq<char>>,
    pub selected_item: Option<nat>,
}

impl ContextMenuView {
    /// The highlighted item, if any, is a valid index.
    pub open spec fn wf(self) -> bool {
        match self.selected_item {
            Option::None => true,
            Option::Some(i) => i < self.items.len(),
        }
    }

    /// Highlight after `select_next_item`: wraps; no-op when closed or empty.
    pub open spec fn next_item(self) -> Option<nat> {
        if !self.open || self.items.len() == 0 {
            self.selected_item
        } else {
            match self.selected_item {
                Option::None => Option::Some(0),
                Option::Some(i) => Option::Some((i + 1) % self.items.len()),
            }
        }
    }

    /// Highlight after `select_prev_item`: wraps; no-op when closed or empty.
    pub open spec fn prev_item(self) -> Option<nat> {
        if !self.open || self.items.len() == 0 {
            self.selected_item
        } else {
            match self.selected_item {
                Option::Some(i) => if i == 0 {
                    Option::Some((self.items.len() - 1) as nat)
                } else {
                    Option::Some((i - 1) as nat)
                },
                Option::None => Option::Some((self.items.len() - 1) as nat),
            }
        }
    }
}

/// A popup menu with keyboard highlighting.  The menu tracks open/closed
/// state and the highlighted item; where it is anchored on screen is kept by
/// the caller.
pub struct ContextMenu {
    open: bool,
    items: Vec<String>,
    selected_item: Option<usize>,
}

impl View for ContextMenu {
    type V = ContextMenuView;

    closed spec fn view(&self) -> ContextMenuView {
        ContextMenuView {
            open: self.open,
            items: string_views(self.items@),
            selected_item: opt_nat(self.selected_item),
        }
    }
}

impl ContextMenu {
    /// Well-formed exactly when the abstract state is (see the view's `wf`).
    pub open spec fn wf(&self) -> bool {
        self@.wf()
    }

    pub fn new(items: &[&str]) -> (m: Self)
        ensures
            m.wf(),
            !m@.open,
            m@.selected_item is None,
            m@.items.len() == items@.len(),
            forall|i: int| 0 <= i < items@.len() ==> #[trigger] m@.items[i] == items@[i]@,
    {
        ContextMenu { open: false, items: owned_strings(items), selected_item: None }
    }

    /// Opens the menu with no item highlighted.
    pub fn open(&mut self)
        requires
            old(self).wf(),
        ensures
            final(self).wf(),
            final(self)@ == (ContextMenuView { open: true, selected_item: Option::None, ..old(self)@ }),
    {
        self.open = true;
        self.selected_item = None;
    }

    /// Closes the menu and drops the highlight.
    pub fn close(&mut self)
        requires
            old(self).wf(),
        ensures
            final(self).wf(),
            final(self)@ == (ContextMenuView { open: false, selected_item: Option::None, ..old(self)@ }),
    {
        self.open = false;
        self.selected_item = None;
    }

    pub fn is_open(&self) -> (b: bool)
        ensures
            b == self@.open,
    {
        self.open
    }

    /// Returns the item at `index`, which must be in range.
    pub fn item(&self, index: usize) -> (s: &str)
        requires
            index < self@.items.len(),
        ensures
            s@ == self@.items[index as int],
    {
        self.items[index].as_str()
    }

    pub fn len(&self) -> (n: usize)
        ensures
            n == self@.items.len(),
    {
        self.items.len()
    }

    /// Currently highlighted item index, if any.
    pub fn selected_item(&self) -> (r: Option<usize>)
        ensures
            opt_nat(r) == self@.selected_item,
    {
        self.selected_item
    }

    /// Moves the highlight to the next item (wraps).  No-op when closed or empty.
    pub fn select_next_item(&mut self)
        requires
            old(self).wf(),
        ensures
            final(self).wf(),
            final(self)@ == (ContextMenuView { selected_item: old(self)@.next_item(), ..old(self)@ }),
    {
        if !self.open || self.items.len() == 0 {
            return;
        }
        self.selected_item = Some(
            match self.selected_item {
                None => 0,
                Some(i) => (i + 1) % self.items.len(),
            },
        );
    }

    /// Moves the highlight to the previous item (wraps).  No-op when closed or empty.
    pub fn select_prev_item(&mut self)
        requires
            old(self).wf(),
        ensures
            final(self).wf(),
            final(self)@ == (ContextMenuView { selected_item: old(self)@.prev_item(), ..old(self)@ }),
    {
        if !self.open || self.items.len() == 0 {
            return;
        }
        self.selected_item = Some(
            match self.selected_item {
                None => self.items.len() - 1,
                Some(i) => if i == 0 {
                    self.items.len() - 1
                } else {
                    i - 1
                },
            },
        );
    }

    /// Activates the highlighted item: closes the menu and returns its index.
    /// Returns `None` (and changes nothing) when closed or nothing is highlighted.
    pub fn activate_selected(&mut self) -> (r: Option<usize>)
        requires
            old(self).wf(),
        ensures
            final(self).wf(),
            if old(self)@.open && old(self)@.selected_item is Some {
                &&& opt_nat(r) == old(self)@.selected_item
                &&& final(self)@ == (ContextMenuView {
                    open: false,
                    selected_item: Option::None,
                    ..old(self)@
                })
            } else {
                r is None && final(self)@ == old(self)@
            },
    {
        if !self.open {
            return None;
        }
        match self.selected_item {
            None => None,
            Some(idx) => {
                self.close();
                Some(idx)
            },
        }
    }

    /// A pointer event outside the menu.  Returns `true` if the menu was open
    /// and is now dismissed.
    pub fn handle_outside_click(&mut self) -> (dismissed: bool)
        requires
            old(self).wf(),
        ensures
            final(self).wf(),
            dismissed == old(self)@.open,
            final(self)@ == (if old(self)@.open {
                ContextMenuView { open: false, selected_item: Option::None, ..old(self)@ }
            } else {
                old(self)@
            }),
    {
        if self.open {
            self.close();
            true
        } else {
            false
        }
    }

    /// Handles Escape.  Returns `true` if the menu was open and is now closed.
    pub fn handle_escape(&mut self) -> (closed: bool)
        requires
            old(self).wf(),
        ensures
            final(self).wf(),
            closed == old(self)@.open,
            final(self)@ == (if old(self)@.open {
                ContextMenuView { open: false, selected_item: Option::None, ..old(self)@ }
            } else {
                old(self)@
            }),
    {
        if self.open {
            self.close();
            true
        } else {
            false
        }
    }

    pub fn role() -> (r: NodeRole)
        ensures
            r == NodeRole::Menu,
    {
        NodeRole::Menu
    }
}

// ---------------------------------------------------------------------------
// Laws
// ---------------------------------------------------------------------------

/// A press followed by a release activates an enabled button (and only an
/// enabled one), which then rests focused or normal as its focus says.
pub proof fn lemma_press_release_activates(v: ButtonView)
    ensures
        ({
            let pressed = ButtonView {
                state: if v.state == WidgetState::Disabled {
                    WidgetState::Disabled
                } else {
                    WidgetState::Pressed
                },
                ..v
            };
            &&& (pressed.state == WidgetState::Pressed) == (v.state != WidgetState::Disabled)
            &&& v.state != WidgetState::Disabled ==> resting_state(pressed.focused) == resting_state(
                v.focused,
            )
        }),
{
}

/// Typing a character and then pressing Backspace gives back the text and
/// caret there were before, when nothing was selected.
pub proof fn lemma_insert_then_backspace(v: TextInputView, ch: char)
    requires
        v.state != WidgetState::Disabled,
        v.selection() is None,
        v.cursor <= v.chars.len(),
    ensures
        v.after_insert(ch).after_delete_backward().chars == v.chars,
        v.after_insert(ch).after_delete_backward().cursor == v.cursor,
{
    let w = v.after_insert(ch);
    assert(v.without_selection() == v);
    assert(w.chars == v.chars.insert(v.cursor as int, ch));
    assert(w.chars.remove(v.cursor as int) =~= v.chars);
    assert(w.chars.subrange(0, v.cursor as int) + w.chars.subrange(v.cursor + 1int, w.chars.len() as int)
        =~= v.chars);
}

/// On a tab bar with tabs, next then previous (or previous then next)
/// returns to the selected tab.
pub proof fn lemma_tab_round_trip(v: TabBarView)
    requires
        v.wf(),
        v.tabs.len() > 0,
    ensures
        (TabBarView { selected: v.next_index(), ..v }).prev_index() == v.selected,
        (TabBarView { selected: v.prev_index(), ..v }).next_index() == v.selected,
{
    let n = v.tabs.len();
    if v.selected + 1 < n {
        assert((v.selected + 1) % n == v.selected + 1) by (nonlinear_arith)
            requires
                v.selected + 1 < n,
        ;
    } else {
        assert((v.selected + 1) % n == 0) by (nonlinear_arith)
            requires
                v.selected + 1 == n,
        ;
    }
    if v.selected == 0 {
        assert(((n - 1) as nat + 1) % n == 0) by (nonlinear_arith)
            requires
                n > 0,
        ;
    } else {
        assert((((v.selected - 1) as nat) + 1) % n == v.selected) by (nonlinear_arith)
            requires
                0 < v.selected < n,
        ;
    }
}

/// In an open dialog with focusable children, Tab then Shift-Tab (or
/// Shift-Tab then Tab) returns focus to the same child.
pub proof fn lemma_dialog_round_trip(v: DialogView)
    requires
        v.wf(),
        v.open,
        v.focusable_count > 0,
    ensures
        (DialogView { focused_index: v.next_index(), ..v }).prev_index() == v.focused_index,
        (DialogView { focused_index: v.prev_index(), ..v }).next_index() == v.focused_index,
{
    let n = v.focusable_count;
    let i = v.focused_index;
    if i + 1 < n {
        assert((i + 1) % n == i + 1) by (nonlinear_arith)
            requires
                i + 1 < n,
        ;
    } else {
        assert((i + 1) % n == 0) by (nonlinear_arith)
            requires
                i + 1 == n,
        ;
    }
    if i == 0 {
        assert(((n - 1) as nat + 1) % n == 0) by (nonlinear_arith)
            requires
                n > 0,
        ;
    } else {
        assert((((i - 1) as nat) + 1) % n == i) by (nonlinear_arith)
            requires
                0 < i < n,
        ;
    }
}

/// In an open menu with items and a highlighted item, next then previous
/// (or previous then next) returns to that item.
pub proof fn lemma_menu_round_trip(v: ContextMenuView)
    requires
        v.wf(),
        v.open,
        v.items.len() > 0,
        v.selected_item is Some,
    ensures
        (ContextMenuView { selected_item: v.next_item(), ..v }).prev_item() == v.selected_item,
        (ContextMenuView { selected_item: v.prev_item(), ..v }).next_item() == v.selected_item,
{
    let n = v.items.len();
    let i = v.selected_item->0;
    if i + 1 < n {
        assert((i + 1) % n == i + 1) by (nonlinear_arith)
            requires
                i + 1 < n,
        ;
    } else {
        assert((i + 1) % n == 0) by (nonlinear_arith)
            requires
                i + 1 == n,
        ;
    }
    if i == 0 {
        assert(((n - 1) as nat + 1) % n == 0) by (nonlinear_arith)
            requires
                n > 0,
        ;
    } else {
        assert((((i - 1) as nat) + 1) % n == i) by (nonlinear_arith)
            requires
                0 < i < n,
        ;
    }
}

} // verus!
