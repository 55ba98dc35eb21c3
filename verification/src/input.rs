//! Input identifiers, event-phase ordering and keyboard focus traversal.

use vstd::prelude::*;

verus! {

/// A stable, unique identifier for a node in the UI tree.
#[derive(Debug, Clone, Copy, PartialEq, Eq, Hash, PartialOrd, Ord, Structural)]
pub struct NodeId(pub u64);

impl NodeId {
    /// The identifier of the tree's root node.
    pub open spec fn spec_root() -> NodeId {
        NodeId(0)
    }

    /// The identifier of the tree's root node.
    #[verifier::when_used_as_spec(spec_root)]
    pub fn root() -> (id: NodeId)
        ensures
            id == NodeId(0),
    {
        NodeId(0)
    }
}

/// A mouse button identifier.
#[derive(Debug, Clone, Copy, PartialEq, Eq, Hash, Structural)]
pub enum MouseButton {
    /// Left mouse button.
    Left,
    /// Right mouse button.
    Right,
    /// Middle mouse button (scroll wheel click).
    Middle,
    /// Any other mouse button identified by its platform index.
    Other(u16),
}

/// Logical key identifiers (platform-independent).
#[derive(Debug, Clone, Copy, PartialEq, Eq, Hash, Structural)]
pub enum KeyCode {
    A,
    B,
    C,
    D,
    E,
    F,
    G,
    H,
    I,
    J,
    K,
    L,
    M,
    N,
    O,
    P,
    Q,
    R,
    S,
    T,
    U,
    V,
    W,
    X,
    Y,
    Z,
    Digit0,
    Digit1,
    Digit2,
    Digit3,
    Digit4,
    Digit5,
    Digit6,
    Digit7,
    Digit8,
    Digit9,
    Space,
    Enter,
    Tab,
    Backspace,
    Escape,
    Delete,
    ArrowLeft,
    ArrowRight,
    ArrowUp,
    ArrowDown,
    Home,
    End,
    PageUp,
    PageDown,
    Shift,
    Control,
    Alt,
    Meta,
    F1,
    F2,
    F3,
    F4,
    F5,
    F6,
    F7,
    F8,
    F9,
    F10,
    F11,
    F12,
    /// A key that could not be mapped to any known variant.
    Unknown,
}

/// Keyboard modifier state at the time of an event.
#[derive(Debug, Clone, Copy, PartialEq, Eq, Structural)]
pub struct Modifiers {
    /// Whether the Shift key is held.
    pub shift: bool,
    /// Whether the Control key is held.
    pub ctrl: bool,
    /// Whether the Alt / Option key is held.
    pub alt: bool,
    /// Whether the Meta / Command / Windows key is held.
    pub meta: bool,
}

impl Modifiers {
    /// No modifier key held.
    pub fn none() -> (m: Self)
        ensures
            !m.shift && !m.ctrl && !m.alt && !m.meta,
    {
        Modifiers { shift: false, ctrl: false, alt: false, meta: false }
    }
}

impl Default for Modifiers {
    fn default() -> (m: Self)
        ensures
            !m.shift && !m.ctrl && !m.alt && !m.meta,
    {
        Modifiers::none()
    }
}

/// A device event as the input state reads it.  Pointer positions are the
/// application's to track; what is held is tracked here.
#[derive(Debug, Clone, Copy, PartialEq, Eq, Structural)]
pub enum DeviceEvent {
    /// The pointer moved.
    MouseMoved,
    /// A mouse button went down.
    MousePressed { button: MouseButton, modifiers: Modifiers },
    /// A mouse button went up.
    MouseReleased { button: MouseButton, modifiers: Modifiers },
    /// The wheel or trackpad scrolled.
    MouseScrolled { modifiers: Modifiers },
    /// A key went down.
    KeyPressed { key: KeyCode, modifiers: Modifiers },
    /// A key went up.
    KeyReleased { key: KeyCode, modifiers: Modifiers },
    /// A character was typed.
    CharInput { ch: char },
}

/// Abstract state of an [`InputState`].
pub struct InputStateView {
    pub buttons: Set<MouseButton>,
    pub keys: Set<KeyCode>,
    pub modifiers: Modifiers,
}

/// The held mouse buttons and keys, and the last modifier state.
#[derive(Debug)]
pub struct InputState {
    pressed_buttons: Vec<MouseButton>,
    pressed_keys: Vec<KeyCode>,
    modifiers: Modifiers,
}

impl View for InputState {
    type V = InputStateView;

    closed spec fn view(&self) -> InputStateView {
        InputStateView {
            buttons: Set::new(|b: MouseButton| self.pressed_buttons@.contains(b)),
            keys: Set::new(|k: KeyCode| self.pressed_keys@.contains(k)),
            modifiers: self.modifiers,
        }
    }
}

/// The input state after `event`: a press adds its button or key to the
/// held ones, a release removes it, and every event but a move or typed
/// character records its modifiers.
pub open spec fn input_after(v: InputStateView, event: DeviceEvent) -> InputStateView {
    match event {
        DeviceEvent::MouseMoved => v,
        DeviceEvent::MousePressed { button, modifiers } => InputStateView {
            buttons: v.buttons.insert(button),
            modifiers,
            ..v
        },
        DeviceEvent::MouseReleased { button, modifiers } => InputStateView {
            buttons: v.buttons.remove(button),
            modifiers,
            ..v
        },
        DeviceEvent::MouseScrolled { modifiers } => InputStateView { modifiers, ..v },
        DeviceEvent::KeyPressed { key, modifiers } => InputStateView {
            keys: v.keys.insert(key),
            modifiers,
            ..v
        },
        DeviceEvent::KeyReleased { key, modifiers } => InputStateView {
            keys: v.keys.remove(key),
            modifiers,
            ..v
        },
        DeviceEvent::CharInput { .. } => v,
    }
}

/// Held keys and buttons behave as sets: a key press leaves the key held
/// (a repeated press too) and a release leaves it not held, whatever was
/// held before; no other key changes, and key events leave the buttons
/// alone.  Mouse buttons follow the same rule, and leave the keys alone.
/// Every event that carries modifiers records them; the others keep them.
pub proof fn lemma_input_held_sets(v: InputStateView, e: DeviceEvent)
    ensures
        e matches DeviceEvent::KeyPressed { key, .. } ==> {
            &&& input_after(v, e).keys.contains(key)
            &&& forall|j: KeyCode| j != key ==> (input_after(v, e).keys.contains(j) <==> v.keys.contains(j))
            &&& input_after(v, e).buttons == v.buttons
        },
        e matches DeviceEvent::KeyReleased { key, .. } ==> {
            &&& !input_after(v, e).keys.contains(key)
            &&& forall|j: KeyCode| j != key ==> (input_after(v, e).keys.contains(j) <==> v.keys.contains(j))
            &&& input_after(v, e).buttons == v.buttons
        },
        e matches DeviceEvent::MousePressed { button, .. } ==> {
            &&& input_after(v, e).buttons.contains(button)
            &&& forall|b: MouseButton|
                b != button ==> (input_after(v, e).buttons.contains(b) <==> v.buttons.contains(b))
            &&& input_after(v, e).keys == v.keys
        },
        e matches DeviceEvent::MouseReleased { button, .. } ==> {
            &&& !input_after(v, e).buttons.contains(button)
            &&& forall|b: MouseButton|
                b != button ==> (input_after(v, e).buttons.contains(b) <==> v.buttons.contains(b))
            &&& input_after(v, e).keys == v.keys
        },
        (e is MouseMoved || e is MouseScrolled || e is CharInput) ==> input_after(v, e).keys == v.keys
            && input_after(v, e).buttons == v.buttons,
        (e is MouseMoved || e is CharInput) ==> input_after(v, e).modifiers == v.modifiers,
        e matches DeviceEvent::MouseScrolled { modifiers } ==> input_after(v, e).modifiers == modifiers,
        e matches DeviceEvent::KeyPressed { modifiers, .. } ==> input_after(v, e).modifiers == modifiers,
        e matches DeviceEvent::KeyReleased { modifiers, .. } ==> input_after(v, e).modifiers == modifiers,
        e matches DeviceEvent::MousePressed { modifiers, .. } ==> input_after(v, e).modifiers == modifiers,
        e matches DeviceEvent::MouseReleased { modifiers, .. } ==> input_after(v, e).modifiers == modifiers,
{
}

/// Pressing a key twice in a row (auto-repeat) keeps it held, exactly as
/// one press does.
pub proof fn lemma_repeated_press_holds(v: InputStateView, k: KeyCode, m1: Modifiers, m2: Modifiers)
    ensures
        ({
            let once = input_after(v, DeviceEvent::KeyPressed { key: k, modifiers: m1 });
            let twice = input_after(once, DeviceEvent::KeyPressed { key: k, modifiers: m2 });
            &&& twice.keys.contains(k)
            &&& twice.keys == once.keys
        }),
{
    let once = input_after(v, DeviceEvent::KeyPressed { key: k, modifiers: m1 });
    let twice = input_after(once, DeviceEvent::KeyPressed { key: k, modifiers: m2 });
    assert(twice.keys =~= once.keys);
}

fn remove_button(v: &Vec<MouseButton>, x0: MouseButton) -> (r: Vec<MouseButton>)
    ensures
        forall|x: MouseButton| r@.contains(x) <==> (v@.contains(x) && x != x0),
{
    let mut r: Vec<MouseButton> = Vec::new();
    let mut i: usize = 0;
    while i < v.len()
        invariant
            i <= v@.len(),
            forall|x: MouseButton| r@.contains(x) <==> (v@.take(i as int).contains(x) && x != x0),
        decreases v@.len() - i,
    {
        let e = v[i];
        let ghost r0 = r@;
        assert(v@.take(i + 1) =~= v@.take(i as int).push(e));
        if e != x0 {
            r.push(e);
        }
        assert forall|x: MouseButton| r@.contains(x) <==> (v@.take(i + 1).contains(x) && x != x0) by {
            vstd::seq_lib::lemma_seq_contains_after_push(v@.take(i as int), e, x);
            if e != x0 {
                vstd::seq_lib::lemma_seq_contains_after_push(r0, e, x);
            }
        }
        i = i + 1;
    }
    assert(v@.take(v@.len() as int) =~= v@);
    r
}

fn remove_key(v: &Vec<KeyCode>, x0: KeyCode) -> (r: Vec<KeyCode>)
    ensures
        forall|x: KeyCode| r@.contains(x) <==> (v@.contains(x) && x != x0),
{
    let mut r: Vec<KeyCode> = Vec::new();
    let mut i: usize = 0;
    while i < v.len()
        invariant
            i <= v@.len(),
            forall|x: KeyCode| r@.contains(x) <==> (v@.take(i as int).contains(x) && x != x0),
        decreases v@.len() - i,
    {
        let e = v[i];
        let ghost r0 = r@;
        assert(v@.take(i + 1) =~= v@.take(i as int).push(e));
        if e != x0 {
            r.push(e);
        }
        assert forall|x: KeyCode| r@.contains(x) <==> (v@.take(i + 1).contains(x) && x != x0) by {
            vstd::seq_lib::lemma_seq_contains_after_push(v@.take(i as int), e, x);
            if e != x0 {
                vstd::seq_lib::lemma_seq_contains_after_push(r0, e, x);
            }
        }
        i = i + 1;
    }
    assert(v@.take(v@.len() as int) =~= v@);
    r
}

impl InputState {
    /// Nothing held, no modifiers.
    pub fn new() -> (s: Self)
        ensures
            s@.buttons == Set::<MouseButton>::empty(),
            s@.keys == Set::<KeyCode>::empty(),
            s@.modifiers == (Modifiers { shift: false, ctrl: false, alt: false, meta: false }),
    {
        let s = InputState {
            pressed_buttons: Vec::new(),
            pressed_keys: Vec::new(),
            modifiers: Modifiers::none(),
        };
        assert(s@.buttons =~= Set::<MouseButton>::empty());
        assert(s@.keys =~= Set::<KeyCode>::empty());
        s
    }

    /// Applies an event to the tracked state.
    pub fn apply(&mut self, event: &DeviceEvent)
        ensures
            final(self)@ == input_after(old(self)@, *event),
    {
        broadcast use vstd::seq_lib::lemma_seq_contains_after_push;

        match *event {
            DeviceEvent::MouseMoved => {},
            DeviceEvent::MousePressed { button, modifiers } => {
                self.modifiers = modifiers;
                self.pressed_buttons.push(button);
                assert(self@.buttons =~= old(self)@.buttons.insert(button));
            },
            DeviceEvent::MouseReleased { button, modifiers } => {
                self.modifiers = modifiers;
                self.pressed_buttons = remove_button(&self.pressed_buttons, button);
                assert(self@.buttons =~= old(self)@.buttons.remove(button));
            },
            DeviceEvent::MouseScrolled { modifiers } => {
                self.modifiers = modifiers;
            },
            DeviceEvent::KeyPressed { key, modifiers } => {
                self.modifiers = modifiers;
                self.pressed_keys.push(key);
                assert(self@.keys =~= old(self)@.keys.insert(key));
            },
            DeviceEvent::KeyReleased { key, modifiers } => {
                self.modifiers = modifiers;
                self.pressed_keys = remove_key(&self.pressed_keys, key);
                assert(self@.keys =~= old(self)@.keys.remove(key));
            },
            DeviceEvent::CharInput { .. } => {},
        }
    }

    /// Whether mouse `button` is held.
    pub fn is_button_pressed(&self, button: MouseButton) -> (b: bool)
        ensures
            b == self@.buttons.contains(button),
    {
        let mut i: usize = 0;
        while i < self.pressed_buttons.len()
            invariant
                i <= self.pressed_buttons@.len(),
                forall|j: int| 0 <= j < i ==> self.pressed_buttons@[j] != button,
            decreases self.pressed_buttons@.len() - i,
        {
            if self.pressed_buttons[i] == button {
                return true;
            }
            i = i + 1;
        }
        false
    }

    /// Whether `key` is held.
    pub fn is_key_pressed(&self, key: KeyCode) -> (b: bool)
        ensures
            b == self@.keys.contains(key),
    {
        let mut i: usize = 0;
        while i < self.pressed_keys.len()
            invariant
                i <= self.pressed_keys@.len(),
                forall|j: int| 0 <= j < i ==> self.pressed_keys@[j] != key,
            decreases self.pressed_keys@.len() - i,
        {
            if self.pressed_keys[i] == key {
                return true;
            }
            i = i + 1;
        }
        false
    }

    /// The last modifier state.
    pub fn modifiers(&self) -> (m: Modifiers)
        ensures
            m == self@.modifiers,
    {
        self.modifiers
    }

    /// The held keys, each once.
    pub fn pressed_keys(&self) -> (keys: Vec<KeyCode>)
        ensures
            forall|k: KeyCode| keys@.contains(k) <==> self@.keys.contains(k),
    {
        self.pressed_keys.clone()
    }
}

/// Pressing a mouse button or key that is not held and releasing it again
/// leaves the held buttons and keys as they were.
pub proof fn lemma_press_release_restores(
    v: InputStateView,
    button: MouseButton,
    key: KeyCode,
    modifiers: Modifiers,
)
    requires
        !v.buttons.contains(button),
        !v.keys.contains(key),
    ensures
        input_after(
            input_after(v, DeviceEvent::MousePressed { button, modifiers }),
            DeviceEvent::MouseReleased { button, modifiers },
        ).buttons == v.buttons,
        input_after(
            input_after(v, DeviceEvent::KeyPressed { key, modifiers }),
            DeviceEvent::KeyReleased { key, modifiers },
        ).keys == v.keys,
{
    assert(v.buttons.insert(button).remove(button) =~= v.buttons);
    assert(v.keys.insert(key).remove(key) =~= v.keys);
}

impl Default for InputState {
    fn default() -> (s: Self)
        ensures
            s@.buttons == Set::<MouseButton>::empty(),
            s@.keys == Set::<KeyCode>::empty(),
            s@.modifiers == (Modifiers { shift: false, ctrl: false, alt: false, meta: false }),
    {
        InputState::new()
    }
}

/// The phase of a routed event as it travels through the node tree:
/// capture (root down to the target's parent), target, bubble (back up).
#[derive(Debug, Clone, Copy, PartialEq, Eq, Structural)]
pub enum EventPhase {
    Capture,
    Target,
    Bubble,
}

/// The visits of a capture → target → bubble dispatch along `path`
/// (root-to-target): every ancestor in capture phase from the root down, the
/// target, then every ancestor in bubble phase back up to the root.
pub open spec fn propagation_spec(path: Seq<NodeId>) -> Seq<(NodeId, EventPhase)> {
    if path.len() == 0 {
        Seq::empty()
    } else {
        let n = path.len() - 1;
        Seq::new(n as nat, |i: int| (path[i], EventPhase::Capture)).push(
            (path[n], EventPhase::Target),
        ) + Seq::new(n as nat, |i: int| (path[n - 1 - i], EventPhase::Bubble))
    }
}

/// Lists, in order, the visits that dispatching an event along `path` makes
/// when no handler stops propagation.  A dispatcher walks this list and stops
/// at the first handler that asks it to.  Empty for an empty path.
pub fn propagation_path(path: &[NodeId]) -> (visits: Vec<(NodeId, EventPhase)>)
    requires
        path@.len() < usize::MAX / 2,
    ensures
        visits@ == propagation_spec(path@),
{
    let mut visits: Vec<(NodeId, EventPhase)> = Vec::new();
    if path.len() == 0 {
        return visits;
    }
    let n = path.len() - 1;
    let mut i: usize = 0;
    while i < n
        invariant
            n == path@.len() - 1,
            i <= n,
            visits@ == Seq::new(i as nat, |k: int| (path@[k], EventPhase::Capture)),
        decreases n - i,
    {
        visits.push((path[i], EventPhase::Capture));
        i = i + 1;
    }
    visits.push((path[n], EventPhase::Target));
    let ghost head = visits@;
    let mut j: usize = 0;
    while j < n
        invariant
            n == path@.len() - 1,
            j <= n,
            visits@ == head + Seq::new(j as nat, |k: int| (path@[n - 1 - k], EventPhase::Bubble)),
        decreases n - j,
    {
        visits.push((path[n - 1 - j], EventPhase::Bubble));
        j = j + 1;
    }
    visits
}

/// Abstract state of a [`Dispatch`].
pub struct DispatchView {
    /// The visits of the whole path, in propagation order.
    pub visits: Seq<(NodeId, EventPhase)>,
    /// How many visits were handed out.
    pub next: nat,
    /// Whether a handler asked to stop.
    pub stopped: bool,
}

/// An event dispatch in progress along a path: the visits of
/// [`propagation_path`] are handed out one at a time, and none after a
/// handler answers that propagation stops.
pub struct Dispatch {
    visits: Vec<(NodeId, EventPhase)>,
    next: usize,
    stopped: bool,
}

impl View for Dispatch {
    type V = DispatchView;

    closed spec fn view(&self) -> DispatchView {
        DispatchView { visits: self.visits@, next: self.next as nat, stopped: self.stopped }
    }
}

impl Dispatch {
    /// Well-formed when no more visits were handed out than there are.
    pub open spec fn wf(&self) -> bool {
        self@.next <= self@.visits.len()
    }

    /// A dispatch along `path` (root to target) with nothing handed out yet.
    pub fn new(path: &[NodeId]) -> (d: Self)
        requires
            path@.len() < usize::MAX / 2,
        ensures
            d.wf(),
            d@ == (DispatchView { visits: propagation_spec(path@), next: 0, stopped: false }),
    {
        Dispatch { visits: propagation_path(path), next: 0, stopped: false }
    }

    /// The next visit, or `None` once every visit was handed out or a handler
    /// asked to stop.
    pub fn next_visit(&mut self) -> (v: Option<(NodeId, EventPhase)>)
        requires
            old(self).wf(),
        ensures
            final(self).wf(),
            !old(self)@.stopped && old(self)@.next < old(self)@.visits.len() ==> v == Some(
                old(self)@.visits[old(self)@.next as int],
            ) && final(self)@ == (DispatchView { next: old(self)@.next + 1, ..old(self)@ }),
            !(!old(self)@.stopped && old(self)@.next < old(self)@.visits.len()) ==> v is None
                && final(self)@ == old(self)@,
    {
        if !self.stopped && self.next < self.visits.len() {
            let v = self.visits[self.next];
            self.next = self.next + 1;
            Some(v)
        } else {
            None
        }
    }

    /// Records the handler's answer to the last visit: `true` stops the
    /// propagation.
    pub fn handled(&mut self, stop: bool)
        requires
            old(self).wf(),
        ensures
            final(self).wf(),
            final(self)@ == (DispatchView { stopped: old(self)@.stopped || stop, ..old(self)@ }),
    {
        if stop {
            self.stopped = true;
        }
    }
}

// ---------------------------------------------------------------------------
// FocusManager
// ---------------------------------------------------------------------------

/// Position of `id` in `s`, or -1 when absent.
pub open spec fn position_of(s: Seq<NodeId>, id: NodeId) -> int
    decreases s.len(),
{
    if s.len() == 0 {
        -1
    } else if s.last() == id {
        s.len() - 1
    } else {
        position_of(s.drop_last(), id)
    }
}

/// `s` holds no identifier twice.
pub open spec fn no_duplicates(s: Seq<NodeId>) -> bool {
    forall|i: int, j: int| 0 <= i < j < s.len() ==> s[i] != s[j]
}

/// `s` with later repetitions of an identifier dropped (first occurrence wins).
pub open spec fn dedup_first(s: Seq<NodeId>) -> Seq<NodeId>
    decreases s.len(),
{
    if s.len() == 0 {
        Seq::empty()
    } else {
        let r = dedup_first(s.drop_last());
        if r.contains(s.last()) { r } else { r.push(s.last()) }
    }
}

/// The predicate "is not `id`".
pub open spec fn other_than(id: NodeId) -> spec_fn(NodeId) -> bool {
    |x: NodeId| x != id
}

/// Abstract state of a [`FocusManager`].
pub struct FocusView {
    pub focused: Option<NodeId>,
    /// Focusable nodes in tab order.
    pub order: Seq<NodeId>,
}

impl FocusView {
    /// The node Tab (`forward`) or Shift-Tab moves focus to: the neighbour of
    /// the focused node in tab order, wrapping; from no (or an unregistered)
    /// focus, the first or last node.
    pub open spec fn step_target(self, forward: bool) -> Option<NodeId> {
        if self.order.len() == 0 {
            Option::None
        } else {
            let len = self.order.len() as int;
            let pos = match self.focused {
                Option::None => -1,
                Option::Some(id) => position_of(self.order, id),
            };
            let next = if pos < 0 {
                if forward { 0 } else { len - 1 }
            } else if forward {
                (pos + 1) % len
            } else {
                (pos - 1 + len) % len
            };
            Option::Some(self.order[next])
        }
    }

    /// The state after a Tab (`forward`) or Shift-Tab step.
    pub open spec fn after_step(self, forward: bool) -> FocusView {
        if self.order.len() == 0 {
            self
        } else {
            FocusView { focused: self.step_target(forward), ..self }
        }
    }
}

/// Tracks which node holds keyboard focus and manages Tab traversal over the
/// focusable nodes, kept in registration order without repetitions.
pub struct FocusManager {
    focused: Option<NodeId>,
    focusable: Vec<NodeId>,
}

impl View for FocusManager {
    type V = FocusView;

    closed spec fn view(&self) -> FocusView {
        FocusView { focused: self.focused, order: self.focusable@ }
    }
}

proof fn lemma_position_of(s: Seq<NodeId>, id: NodeId)
    ensures
        -1 <= position_of(s, id) < s.len(),
        position_of(s, id) >= 0 ==> s[position_of(s, id)] == id,
        position_of(s, id) < 0 <==> !s.contains(id),
    decreases s.len(),
{
    if s.len() > 0 {
        lemma_position_of(s.drop_last(), id);
        if s.last() != id {
            if s.contains(id) {
                let k = choose|k: int| 0 <= k < s.len() && s[k] == id;
                assert(s.drop_last()[k] == id);
            }
            if s.drop_last().contains(id) {
                let k = choose|k: int| 0 <= k < s.len() - 1 && s.drop_last()[k] == id;
                assert(s[k] == id);
            }
        } else {
            assert(s[s.len() - 1] == id);
        }
    }
}

proof fn lemma_position_unique(s: Seq<NodeId>, k: int)
    requires
        no_duplicates(s),
        0 <= k < s.len(),
    ensures
        position_of(s, s[k]) == k,
    decreases s.len(),
{
    if k < s.len() - 1 {
        assert(s.drop_last()[k] == s[k]);
        assert(no_duplicates(s.drop_last()));
        lemma_position_unique(s.drop_last(), k);
    }
}

proof fn lemma_dedup_first(s: Seq<NodeId>)
    ensures
        no_duplicates(dedup_first(s)),
        forall|x: NodeId| dedup_first(s).contains(x) <==> s.contains(x),
    decreases s.len(),
{
    if s.len() > 0 {
        lemma_dedup_first(s.drop_last());
        let r = dedup_first(s.drop_last());
        assert forall|x: NodeId| s.contains(x) <==> (s.drop_last().contains(x) || x == s.last()) by {
            if s.contains(x) && x != s.last() {
                let k = choose|k: int| 0 <= k < s.len() && s[k] == x;
                assert(s.drop_last()[k] == x);
            }
            if s.drop_last().contains(x) {
                let k = choose|k: int| 0 <= k < s.len() - 1 && s.drop_last()[k] == x;
                assert(s[k] == x);
            }
            if x == s.last() {
                assert(s[s.len() - 1] == x);
            }
        }
        if !r.contains(s.last()) {
            assert forall|x: NodeId| r.push(s.last()).contains(x) <==> (r.contains(x) || x == s.last()) by {
                if r.push(s.last()).contains(x) && x != s.last() {
                    let k = choose|k: int| 0 <= k < r.len() + 1 && r.push(s.last())[k] == x;
                    assert(r[k] == x);
                }
                if r.contains(x) {
                    let k = choose|k: int| 0 <= k < r.len() && r[k] == x;
                    assert(r.push(s.last())[k] == x);
                }
                if x == s.last() {
                    assert(r.push(s.last())[r.len() as int] == x);
                }
            }
        }
    }
}

impl FocusManager {
    /// Well-formed when the tab order holds no node twice.
    pub open spec fn wf(&self) -> bool {
        no_duplicates(self@.order)
    }

    /// A manager with no focused node and no focusable nodes.
    pub fn new() -> (fm: Self)
        ensures
            fm.wf(),
            fm@.focused is None,
            fm@.order == Seq::<NodeId>::empty(),
    {
        FocusManager { focused: None, focusable: Vec::new() }
    }

    /// Sets focus to `node_id` unconditionally.
    pub fn set_focus(&mut self, node_id: NodeId)
        requires
            old(self).wf(),
        ensures
            final(self).wf(),
            final(self)@ == (FocusView { focused: Option::Some(node_id), ..old(self)@ }),
    {
        self.focused = Some(node_id);
    }

    /// Clears focus so that no node is focused.
    pub fn clear_focus(&mut self)
        requires
            old(self).wf(),
        ensures
            final(self).wf(),
            final(self)@ == (FocusView { focused: Option::None, ..old(self)@ }),
    {
        self.focused = None;
    }

    /// Returns the focused node, if any.
    pub fn focused(&self) -> (f: Option<NodeId>)
        ensures
            f == self@.focused,
    {
        self.focused
    }

    /// Returns `true` if `node_id` is the focused node.
    pub fn is_focused(&self, node_id: NodeId) -> (b: bool)
        ensures
            b == (self@.focused == Option::Some(node_id)),
    {
        match self.focused {
            Some(f) => f == node_id,
            None => false,
        }
    }

    fn find(&self, node_id: NodeId) -> (pos: Option<usize>)
        requires
            self.wf(),
        ensures
            match pos {
                Option::None => position_of(self@.order, node_id) < 0,
                Option::Some(p) => p == position_of(self@.order, node_id),
            },
    {
        proof {
            lemma_position_of(self@.order, node_id);
        }
        let mut i: usize = 0;
        while i < self.focusable.len()
            invariant
                i <= self.focusable@.len(),
                no_duplicates(self.focusable@),
                forall|k: int| 0 <= k < i ==> self.focusable@[k] != node_id,
            decreases self.focusable@.len() - i,
        {
            if self.focusable[i] == node_id {
                proof {
                    lemma_position_unique(self.focusable@, i as int);
                }
                return Some(i);
            }
            i = i + 1;
        }
        None
    }

    /// Appends `node_id` to the tab order; no-op when already registered.
    pub fn register_focusable(&mut self, node_id: NodeId)
        requires
            old(self).wf(),
        ensures
            final(self).wf(),
            final(self)@ == (if old(self)@.order.contains(node_id) {
                old(self)@
            } else {
                FocusView { order: old(self)@.order.push(node_id), ..old(self)@ }
            }),
    {
        proof {
            lemma_position_of(self@.order, node_id);
        }
        if self.find(node_id).is_some() {
            return;
        }
        self.focusable.push(node_id);
    }

    /// Removes `node_id` from the tab order; clears focus if it was focused.
    pub fn unregister_focusable(&mut self, node_id: NodeId)
        requires
            old(self).wf(),
        ensures
            final(self).wf(),
            final(self)@.order == old(self)@.order.filter(other_than(node_id)),
            final(self)@.focused == (if old(self)@.focused == Option::Some(node_id) {
                Option::None
            } else {
                old(self)@.focused
            }),
    {
        let ghost before = self.focusable@;
        let mut kept: Vec<NodeId> = Vec::new();
        let mut i: usize = 0;
        while i < self.focusable.len()
            invariant
                self.focusable@ == before,
                no_duplicates(before),
                i <= before.len(),
                kept@ == before.subrange(0, i as int).filter(other_than(node_id)),
                forall|a: int, b: int| 0 <= a < b < kept@.len() ==> kept@[a] != kept@[b],
                forall|a: int| 0 <= a < kept@.len() ==> before.subrange(0, i as int).contains(#[trigger] kept@[a]),
            decreases before.len() - i,
        {
            let x = self.focusable[i];
            assert(before.subrange(0, i + 1) == before.subrange(0, i as int).push(x));
            reveal(Seq::filter);
            assert(before.subrange(0, i + 1).drop_last() == before.subrange(0, i as int));
            if x != node_id {
                assert forall|a: int| 0 <= a < kept@.len() implies kept@[a] != x by {
                    let k = choose|k: int| 0 <= k < i && before.subrange(0, i as int)[k] == kept@[a];
                    assert(before[k] == kept@[a]);
                }
                assert forall|a: int| 0 <= a < kept@.len() + 1 implies before.subrange(0, i + 1).contains(
                    #[trigger] kept@.push(x)[a]) by {
                    if a < kept@.len() {
                        let k = choose|k: int| 0 <= k < i && before.subrange(0, i as int)[k] == kept@[a];
                        assert(before.subrange(0, i + 1)[k] == kept@[a]);
                    } else {
                        assert(before.subrange(0, i + 1)[i as int] == x);
                    }
                }
                kept.push(x);
            } else {
                assert forall|a: int| 0 <= a < kept@.len() implies before.subrange(0, i + 1).contains(
                    #[trigger] kept@[a]) by {
                    let k = choose|k: int| 0 <= k < i && before.subrange(0, i as int)[k] == kept@[a];
                    assert(before.subrange(0, i + 1)[k] == kept@[a]);
                }
            }
            i = i + 1;
        }
        assert(before.subrange(0, before.len() as int) == before);
        self.focusable = kept;
        if self.is_focused(node_id) {
            self.focused = None;
        }
    }

    /// Replaces the tab order with `order`, dropping repeated identifiers
    /// (first occurrence wins); clears focus if the focused node is absent.
    pub fn set_focusable_order(&mut self, order: Vec<NodeId>)
        requires
            old(self).wf(),
        ensures
            final(self).wf(),
            final(self)@.order == dedup_first(order@),
            final(self)@.focused == (match old(self)@.focused {
                Option::Some(f) => if order@.contains(f) { Option::Some(f) } else { Option::None },
                Option::None => Option::None,
            }),
    {
        let mut fresh = FocusManager { focused: None, focusable: Vec::new() };
        let mut i: usize = 0;
        while i < order.len()
            invariant
                i <= order@.len(),
                fresh.wf(),
                fresh@.order == dedup_first(order@.subrange(0, i as int)),
            decreases order@.len() - i,
        {
            let x = order[i];
            assert(order@.subrange(0, i + 1).drop_last() == order@.subrange(0, i as int));
            fresh.register_focusable(x);
            i = i + 1;
        }
        assert(order@.subrange(0, order@.len() as int) == order@);
        proof {
            lemma_dedup_first(order@);
        }
        let keep = match self.focused {
            Some(f) => {
                proof {
                    lemma_position_of(fresh@.order, f);
                }
                if fresh.find(f).is_some() {
                    Some(f)
                } else {
                    None
                }
            },
            None => None,
        };
        self.focusable = fresh.focusable;
        self.focused = keep;
    }

    /// Returns the focusable nodes in tab order.
    pub fn focusable_order(&self) -> (s: &[NodeId])
        ensures
            s@ == self@.order,
    {
        self.focusable.as_slice()
    }

    /// Moves focus to the next focusable node (Tab), wrapping after the last.
    /// Returns the newly focused node, or `None` when nothing is focusable.
    pub fn move_focus_forward(&mut self) -> (r: Option<NodeId>)
        requires
            old(self).wf(),
        ensures
            final(self).wf(),
            final(self)@ == old(self)@.after_step(true),
            r == old(self)@.step_target(true),
    {
        self.step_focus(true)
    }

    /// Moves focus to the previous focusable node (Shift-Tab), wrapping
    /// before the first.  Returns the newly focused node, or `None`.
    pub fn move_focus_backward(&mut self) -> (r: Option<NodeId>)
        requires
            old(self).wf(),
        ensures
            final(self).wf(),
            final(self)@ == old(self)@.after_step(false),
            r == old(self)@.step_target(false),
    {
        self.step_focus(false)
    }

    fn step_focus(&mut self, forward: bool) -> (r: Option<NodeId>)
        requires
            old(self).wf(),
        ensures
            final(self).wf(),
            final(self)@ == old(self)@.after_step(forward),
            r == old(self)@.step_target(forward),
    {
        let len = self.focusable.len();
        if len == 0 {
            return None;
        }
        let pos = match self.focused {
            Some(id) => self.find(id),
            None => None,
        };
        let next: usize = match pos {
            Some(p) => {
                proof {
                    lemma_position_of(self@.order, self.focused.unwrap());
                }
                if forward {
                    if p + 1 == len { 0 } else { p + 1 }
                } else if p == 0 {
                    len - 1
                } else {
                    p - 1
                }
            },
            None => if forward { 0 } else { len - 1 },
        };
        proof {
            if let Some(p) = pos {
                let l = len as int;
                if forward {
                    if p + 1 < l {
                        assert((p + 1) % l == p + 1) by (nonlinear_arith) requires 0 <= p + 1 < l;
                    } else {
                        assert((p + 1) % l == 0) by (nonlinear_arith) requires p + 1 == l, l > 0;
                    }
                } else if p == 0 {
                    assert((p - 1 + l) % l == l - 1) by (nonlinear_arith) requires p == 0, l > 0;
                } else {
                    assert((p - 1 + l) % l == p - 1) by (nonlinear_arith) requires 0 < p < l;
                }
            }
        }
        let next_id = self.focusable[next];
        self.focused = Some(next_id);
        Some(next_id)
    }

    /// Handles a key for focus traversal: Tab moves forward, Shift-Tab
    /// backward.  Returns `true` if the key was consumed (it was Tab).
    pub fn handle_key(&mut self, key: KeyCode, modifiers: Modifiers) -> (consumed: bool)
        requires
            old(self).wf(),
        ensures
            final(self).wf(),
            consumed == (key == KeyCode::Tab),
            final(self)@ == (if key == KeyCode::Tab {
                old(self)@.after_step(!modifiers.shift)
            } else {
                old(self)@
            }),
    {
        match key {
            KeyCode::Tab => {
                if modifiers.shift {
                    self.move_focus_backward();
                } else {
                    self.move_focus_forward();
                }
                true
            },
            _ => false,
        }
    }
}

impl Default for FocusManager {
    fn default() -> (fm: Self)
        ensures
            fm.wf(),
            fm@.focused is None,
            fm@.order == Seq::<NodeId>::empty(),
    {
        FocusManager::new()
    }
}

/// Tab then Shift-Tab returns focus to where it was (and Shift-Tab then
/// Tab likewise), when the focused node is registered.
pub proof fn lemma_step_round_trip(v: FocusView, forward: bool)
    requires
        no_duplicates(v.order),
        v.focused matches Option::Some(id) && v.order.contains(id),
    ensures
        v.after_step(forward).after_step(!forward) == v,
{
    let id = v.focused->0;
    let len = v.order.len() as int;
    lemma_position_of(v.order, id);
    let pos = position_of(v.order, id);
    let next = if forward { (pos + 1) % len } else { (pos - 1 + len) % len };
    let w = v.after_step(forward);
    assert(w.focused == Option::Some(v.order[next]));
    lemma_position_unique(v.order, next);
    assert(position_of(w.order, v.order[next]) == next);
    let back = if forward { (next - 1 + len) % len } else { (next + 1) % len };
    if forward {
        if pos + 1 < len {
            assert((pos + 1) % len == pos + 1) by (nonlinear_arith)
                requires
                    0 <= pos,
                    pos + 1 < len,
            ;
            assert(next == pos + 1);
            assert((next - 1 + len) % len == pos) by (nonlinear_arith)
                requires
                    0 <= pos < len,
                    next == pos + 1,
            ;
        } else {
            assert((pos + 1) % len == 0) by {
                vstd::arithmetic::div_mod::lemma_mod_self_0(len);
            }
            assert(next == 0);
            assert((next - 1 + len) % len == len - 1) by (nonlinear_arith)
                requires
                    len > 0,
                    next == 0,
            ;
        }
    } else {
        if pos > 0 {
            assert((pos - 1 + len) % len == pos - 1) by (nonlinear_arith)
                requires
                    0 < pos < len,
            ;
            assert(next == pos - 1);
            assert((next + 1) % len == pos) by (nonlinear_arith)
                requires
                    0 < pos < len,
                    next == pos - 1,
            ;
        } else {
            assert((0 - 1 + len) % len == len - 1) by (nonlinear_arith)
                requires
                    len > 0,
            ;
            assert(next == len - 1);
            assert((next + 1) % len == 0) by {
                assert(next + 1 == len);
                vstd::arithmetic::div_mod::lemma_mod_self_0(len);
            }
        }
    }
    assert(back == pos);
    assert(v.order[pos] == id);
}

} // verus!
