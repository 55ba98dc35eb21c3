//! The compat layer's state: the core node tree, the records of nodes created
//! through the compat API (staged until mounted), listener registrations,
//! focus and lifecycle flags, and every operation of the API on them.

use std::collections::HashMap;

use vstd::prelude::*;

use crate::compat::parse::{color_result, float_text_ok, is_float_text, parse_color, Rgba8};
use crate::compat::types::{
    style_prop_of, CompatError, CompatResult, EventType, ListenerId, NodeId, NodeKind, StyleProp,
};
use crate::input::NodeId as CoreId;
use crate::text::{concat_chars, str_chars, string_from_chars, trim, trim_chars};
use crate::tree::{
    cleaned, dirty_ids, initial_tree, marked, NodeKind as CoreKind, NodeTree, NodeView, TreeView,
};

verus! {

broadcast use vstd::std_specs::hash::group_hash_axioms;

/// The number of style slots a node carries (one per [`StyleProp`]).
pub const STYLE_SLOTS: usize = 16;

/// Abstract style of a compat node.
pub struct StyleView {
    pub background: Rgba8,
    pub border_color: Rgba8,
    pub text: Seq<char>,
    /// The text of the latest numeric value per property slot; `None` when
    /// never set (or, for width and height, reset to automatic).
    pub values: Seq<Option<Seq<char>>>,
    /// Whether `x` / `y` switched the node to absolute positioning.
    pub absolute: bool,
}

/// The visual and layout properties set through the compat API.  Colours
/// are kept as 8-bit channels; numbers as the text that was given, checked
/// to be a valid decimal number (the renderer converts it).
pub struct CompatStyle {
    background: Rgba8,
    border_color: Rgba8,
    text: String,
    values: Vec<Option<String>>,
    absolute: bool,
}

/// The characters of an optional string.
pub open spec fn text_view(o: Option<String>) -> Option<Seq<char>> {
    match o {
        Option::Some(s) => Option::Some(s@),
        Option::None => Option::None,
    }
}

/// The transparent colour that backgrounds and borders start with.
pub open spec fn transparent() -> Rgba8 {
    Rgba8 { r: 0, g: 0, b: 0, a: 0 }
}

/// The style a new node starts with.
pub open spec fn default_style() -> StyleView {
    StyleView {
        background: transparent(),
        border_color: transparent(),
        text: Seq::empty(),
        values: Seq::new(STYLE_SLOTS as nat, |i: int| None),
        absolute: false,
    }
}

impl View for CompatStyle {
    type V = StyleView;

    closed spec fn view(&self) -> StyleView {
        StyleView {
            background: self.background,
            border_color: self.border_color,
            text: self.text@,
            values: self.values@.map_values(
                |o: Option<String>|
                    match o {
                        Option::Some(s) => Option::Some(s@),
                        Option::None => Option::None,
                    },
            ),
            absolute: self.absolute,
        }
    }
}

impl CompatStyle {
    fn new() -> (s: Self)
        ensures
            s@ == default_style(),
    {
        let mut values: Vec<Option<String>> = Vec::new();
        let mut i: usize = 0;
        while i < STYLE_SLOTS
            invariant
                i <= STYLE_SLOTS,
                values@.len() == i,
                forall|k: int| 0 <= k < i ==> #[trigger] values@[k] is None,
            decreases STYLE_SLOTS - i,
        {
            values.push(None);
            i = i + 1;
        }
        let s = CompatStyle {
            background: Rgba8 { r: 0, g: 0, b: 0, a: 0 },
            border_color: Rgba8 { r: 0, g: 0, b: 0, a: 0 },
            text: String::new(),
            values,
            absolute: false,
        };
        assert(s@.values =~= default_style().values);
        s
    }

    /// Background fill colour.
    pub fn background(&self) -> (c: Rgba8)
        ensures
            c == self@.background,
    {
        self.background
    }

    /// Border colour.
    pub fn border_color(&self) -> (c: Rgba8)
        ensures
            c == self@.border_color,
    {
        self.border_color
    }

    /// Text content.
    pub fn text(&self) -> (t: &str)
        ensures
            t@ == self@.text,
    {
        self.text.as_str()
    }

    /// The latest numeric value given for `prop`, as text.
    pub fn value(&self, prop: StyleProp) -> (v: Option<&str>)
        requires
            self@.values.len() == STYLE_SLOTS,
        ensures
            match v {
                Option::Some(t) => self@.values[prop.spec_slot()] == Option::Some(t@),
                Option::None => self@.values[prop.spec_slot()] is None,
            },
    {
        match &self.values[prop.slot()] {
            Some(s) => Some(s.as_str()),
            None => None,
        }
    }

    /// Whether `x` / `y` switched the node to absolute positioning.
    pub fn is_absolute(&self) -> (b: bool)
        ensures
            b == self@.absolute,
    {
        self.absolute
    }
}

/// Abstract state of one compat node.
pub struct RecordView {
    pub kind: NodeKind,
    /// Compat ids appended under this node while it was staged.
    pub children: Seq<u64>,
    /// The core node it was mounted as; `None` while staged.
    pub core: Option<CoreId>,
    pub style: StyleView,
}

struct Record {
    kind: NodeKind,
    children: Vec<u64>,
    core: Option<CoreId>,
    style: CompatStyle,
}

impl View for Record {
    type V = RecordView;

    closed spec fn view(&self) -> RecordView {
        RecordView {
            kind: self.kind,
            children: self.children@,
            core: self.core,
            style: self.style@,
        }
    }
}

/// What keyboard focus designates: the core node of a mounted node, or a
/// staged node by its compat id (it has no core node yet).
#[derive(Debug, Clone, Copy, PartialEq, Eq, Structural)]
pub enum FocusTarget {
    Core(CoreId),
    Staged(u64),
}

/// A registered listener: its id, the node key it is filed under (the core
/// id of a mounted node, the compat id of a staged one) and its event type.
#[derive(Debug, Clone, Copy, PartialEq, Eq, Structural)]
pub struct Listener {
    pub id: u64,
    pub node: u64,
    pub event_type: EventType,
}

/// Abstract state of the compat layer.
pub struct CompatView {
    pub tree: TreeView,
    pub nodes: Map<u64, RecordView>,
    pub next_compat_id: u64,
    pub listeners: Seq<Listener>,
    pub next_listener_id: u64,
    pub focus: Option<FocusTarget>,
    pub render_requested: bool,
    pub vsync: bool,
    pub viewport: (u32, u32),
    pub mounted: bool,
}

/// Errors of the compat API as values of the specification.
pub enum ErrorView {
    InvalidNode,
    InvalidListener,
    StyleParse(Seq<char>),
    Internal(Seq<char>),
}

/// The specification value of an error.
pub open spec fn error_view(e: CompatError) -> ErrorView {
    match e {
        CompatError::InvalidNode => ErrorView::InvalidNode,
        CompatError::InvalidListener => ErrorView::InvalidListener,
        CompatError::StyleParseError(s) => ErrorView::StyleParse(s@),
        CompatError::InternalError(s) => ErrorView::Internal(s@),
    }
}

/// The error of a result, if any.
pub open spec fn failure<T>(r: CompatResult<T>) -> Option<ErrorView> {
    match r {
        Ok(_) => None,
        Err(e) => Some(error_view(e)),
    }
}

/// The compat ids whose nodes are still staged.
pub open spec fn staged_keys(nodes: Map<u64, RecordView>) -> Set<u64> {
    nodes.dom().filter(|k: u64| nodes[k].core is None)
}

impl CompatView {
    /// `node` was created and not yet mounted or removed.
    pub open spec fn is_staged(self, node: u64) -> bool {
        self.nodes.contains_key(node) && self.nodes[node].core is None
    }

    /// `node` was mounted (its core node may since have been removed).
    pub open spec fn is_mounted(self, node: u64) -> bool {
        self.nodes.contains_key(node) && self.nodes[node].core is Some
    }

    /// The core id of a mounted node.
    pub open spec fn core_of(self, node: u64) -> Option<CoreId> {
        if self.nodes.contains_key(node) {
            self.nodes[node].core
        } else {
            None
        }
    }

    /// Style edits reach `node`: it is staged, or mounted and still in the tree.
    pub open spec fn styleable(self, node: u64) -> bool {
        self.is_staged(node) || (self.is_mounted(node) && self.tree.contains(
            self.nodes[node].core->0,
        ))
    }

    /// The state after replacing the style of `node`.
    pub open spec fn with_style(self, node: u64, style: StyleView) -> CompatView {
        CompatView {
            nodes: self.nodes.insert(node, RecordView { style, ..self.nodes[node] }),
            ..self
        }
    }

    /// Internal consistency of the state.
    pub open spec fn wf(self) -> bool {
        &&& self.tree.wf()
        &&& self.nodes.dom().finite()
        &&& self.next_compat_id < u64::MAX
        &&& forall|k: u64| #[trigger] self.nodes.contains_key(k) ==> k < self.next_compat_id
        &&& forall|k: u64| #[trigger] self.nodes.contains_key(k) ==> self.nodes[k].style.values.len()
            == STYLE_SLOTS
        &&& self.tree.next_id + staged_keys(self.nodes).len() <= self.next_compat_id
        &&& forall|i: int|
            0 <= i < self.listeners.len() ==> #[trigger] self.listeners[i].id < self.next_listener_id
        &&& forall|i: int, j: int|
            0 <= i < j < self.listeners.len() ==> #[trigger] self.listeners[i].id
                < #[trigger] self.listeners[j].id
    }
}

/// The core kind of a compat kind.
pub open spec fn core_kind(kind: NodeKind) -> CoreKind {
    match kind {
        NodeKind::Container => CoreKind::Container,
        NodeKind::Text => CoreKind::Text,
        NodeKind::Image => CoreKind::Image,
    }
}

fn to_core_kind(kind: NodeKind) -> (k: CoreKind)
    ensures
        k == core_kind(kind),
{
    match kind {
        NodeKind::Container => CoreKind::Container,
        NodeKind::Text => CoreKind::Text,
        NodeKind::Image => CoreKind::Image,
    }
}

/// How the staged set changes when a record is stored.
pub proof fn lemma_staged_insert(nodes: Map<u64, RecordView>, k: u64, r: RecordView)
    requires
        nodes.dom().finite(),
    ensures
        staged_keys(nodes.insert(k, r)) == (if r.core is None {
            staged_keys(nodes).insert(k)
        } else {
            staged_keys(nodes).remove(k)
        }),
        staged_keys(nodes).finite(),
{
    nodes.dom().lemma_len_filter(|q: u64| nodes[q].core is None);
    if r.core is None {
        assert(staged_keys(nodes.insert(k, r)) =~= staged_keys(nodes).insert(k));
    } else {
        assert(staged_keys(nodes.insert(k, r)) =~= staged_keys(nodes).remove(k));
    }
}

/// How the staged set changes when a record is dropped.
pub proof fn lemma_staged_remove(nodes: Map<u64, RecordView>, k: u64)
    requires
        nodes.dom().finite(),
    ensures
        staged_keys(nodes.remove(k)) == staged_keys(nodes).remove(k),
        staged_keys(nodes).finite(),
{
    nodes.dom().lemma_len_filter(|q: u64| nodes[q].core is None);
    assert(staged_keys(nodes.remove(k)) =~= staged_keys(nodes).remove(k));
}

/// The state of the compat layer.
pub struct CompatState {
    tree: NodeTree,
    records: HashMap<u64, Record>,
    next_compat_id: u64,
    listeners: Vec<Listener>,
    next_listener_id: u64,
    focus: Option<FocusTarget>,
    render_requested: bool,
    vsync: bool,
    viewport: (u32, u32),
    mounted: bool,
}

impl View for CompatState {
    type V = CompatView;

    closed spec fn view(&self) -> CompatView {
        CompatView {
            tree: self.tree@,
            nodes: self.records@.map_values(|r: Record| r@),
            next_compat_id: self.next_compat_id,
            listeners: self.listeners@,
            next_listener_id: self.next_listener_id,
            focus: self.focus,
            render_requested: self.render_requested,
            vsync: self.vsync,
            viewport: self.viewport,
            mounted: self.mounted,
        }
    }
}

impl CompatState {
    /// A fresh state: a tree holding only its root, no nodes, no listeners,
    /// vsync on, nothing mounted.
    pub fn new() -> (s: Self)
        ensures
            s@.wf(),
            s@.tree == initial_tree(),
            s@.nodes == Map::<u64, RecordView>::empty(),
            s@.next_compat_id == 1,
            s@.listeners == Seq::<Listener>::empty(),
            s@.next_listener_id == 1,
            s@.focus is None,
            !s@.render_requested,
            s@.vsync,
            s@.viewport == (0u32, 0u32),
            !s@.mounted,
    {
        let s = CompatState {
            tree: NodeTree::new(),
            records: HashMap::new(),
            next_compat_id: 1,
            listeners: Vec::new(),
            next_listener_id: 1,
            focus: None,
            render_requested: false,
            vsync: true,
            viewport: (0, 0),
            mounted: false,
        };
        proof {
            assert(s@.nodes =~= Map::<u64, RecordView>::empty());
            assert(staged_keys(s@.nodes) =~= Set::<u64>::empty());
        }
        s
    }

    /// The core node tree (mounted nodes only).
    pub fn tree(&self) -> (t: &NodeTree)
        ensures
            t@ == self@.tree,
    {
        &self.tree
    }

    /// Takes the ids of the tree nodes marked for re-evaluation, in slot
    /// order, and clears their marks.
    pub fn flush_dirty(&mut self) -> (ids: Vec<CoreId>)
        requires
            old(self)@.wf(),
        ensures
            final(self)@.wf(),
            ids@ == dirty_ids(old(self)@.tree.nodes),
            final(self)@ == (CompatView {
                tree: TreeView {
                    nodes: old(self)@.tree.nodes.map_values(|n: NodeView| cleaned(n)),
                    ..old(self)@.tree
                },
                ..old(self)@
            }),
    {
        self.tree.flush_dirty()
    }

    /// Whether `node` is staged.
    pub fn is_staged(&self, node: NodeId) -> (b: bool)
        ensures
            b == self@.is_staged(node.0),
    {
        match self.records.get(&node.0) {
            Some(r) => r.core.is_none(),
            None => false,
        }
    }

    /// The core id of `node` if it was mounted.
    pub fn core_id_of(&self, node: NodeId) -> (c: Option<CoreId>)
        ensures
            c == self@.core_of(node.0),
    {
        match self.records.get(&node.0) {
            Some(r) => r.core,
            None => None,
        }
    }

    /// The compat ids appended under the staged `node`.
    pub fn staged_children(&self, node: NodeId) -> (c: Option<&[u64]>)
        ensures
            match c {
                Option::Some(v) => self@.is_staged(node.0) && v@ == self@.nodes[node.0].children,
                Option::None => !self@.is_staged(node.0),
            },
    {
        match self.records.get(&node.0) {
            Some(r) => if r.core.is_none() {
                Some(r.children.as_slice())
            } else {
                None
            },
            None => None,
        }
    }

    /// The style of `node`, staged or mounted.
    pub fn style(&self, node: NodeId) -> (s: Option<&CompatStyle>)
        ensures
            match s {
                Option::Some(st) => self@.nodes.contains_key(node.0) && st@ == self@.nodes[node.0].style,
                Option::None => !self@.nodes.contains_key(node.0),
            },
    {
        match self.records.get(&node.0) {
            Some(r) => Some(&r.style),
            None => None,
        }
    }

    /// The registered listeners, oldest first.
    pub fn listeners(&self) -> (l: &[Listener])
        ensures
            l@ == self@.listeners,
    {
        self.listeners.as_slice()
    }

    /// What holds keyboard focus, if anything.
    pub fn focus(&self) -> (f: Option<FocusTarget>)
        ensures
            f == self@.focus,
    {
        self.focus
    }

    /// Whether a frame render was requested.
    pub fn render_requested(&self) -> (b: bool)
        ensures
            b == self@.render_requested,
    {
        self.render_requested
    }

    /// Whether vertical sync is on.
    pub fn vsync(&self) -> (b: bool)
        ensures
            b == self@.vsync,
    {
        self.vsync
    }

    /// The viewport size.
    pub fn viewport(&self) -> (v: (u32, u32))
        ensures
            v == self@.viewport,
    {
        self.viewport
    }

    /// The compat id the next created node gets.
    pub fn next_compat_id(&self) -> (n: u64)
        ensures
            n == self@.next_compat_id,
    {
        self.next_compat_id
    }

    /// The id the next registered listener gets.
    pub fn next_listener_id(&self) -> (n: u64)
        ensures
            n == self@.next_listener_id,
    {
        self.next_listener_id
    }

    /// Whether the application is mounted.
    pub fn is_mounted(&self) -> (b: bool)
        ensures
            b == self@.mounted,
    {
        self.mounted
    }
}

/// `st` with the numeric value of `prop` replaced; `x` and `y` also switch
/// the node to absolute positioning.
pub open spec fn set_number(st: StyleView, prop: StyleProp, value: Option<Seq<char>>) -> StyleView {
    StyleView {
        values: st.values.update(prop.spec_slot(), value),
        absolute: st.absolute || prop == StyleProp::X || prop == StyleProp::Y,
        ..st
    }
}

/// The message for a numeric value that does not parse.
pub open spec fn number_error(prop: StyleProp, value: Seq<char>) -> Seq<char> {
    match prop {
        StyleProp::BorderWidth => "invalid border-width: "@ + value,
        StyleProp::Opacity => "invalid opacity: "@ + value,
        StyleProp::X => "invalid x: "@ + value,
        StyleProp::Y => "invalid y: "@ + value,
        StyleProp::Width => "invalid width: "@ + value,
        StyleProp::Height => "invalid height: "@ + value,
        _ => "expected f32, got: "@ + value,
    }
}

impl CompatView {
    /// The state after `node_create(kind)`.
    pub open spec fn after_create(self, kind: NodeKind) -> CompatView {
        CompatView {
            nodes: self.nodes.insert(
                self.next_compat_id,
                RecordView { kind, children: Seq::empty(), core: None, style: default_style() },
            ),
            next_compat_id: (self.next_compat_id + 1) as u64,
            ..self
        }
    }

    /// The state and error of `node_remove(_, child)`: a staged node is
    /// dropped; a mounted one loses its handle and its core subtree leaves
    /// the tree, which is then compacted (an error if that subtree is
    /// already gone).
    pub open spec fn remove_result(self, child: u64) -> (CompatView, Option<ErrorView>) {
        if self.is_staged(child) {
            (CompatView { nodes: self.nodes.remove(child), ..self }, None)
        } else if self.is_mounted(child) {
            let c = self.nodes[child].core->0;
            let v = CompatView { nodes: self.nodes.remove(child), ..self };
            if c != CoreId(0) && self.tree.contains(c) {
                (
                    CompatView {
                        tree: self.tree.after_remove(self.tree.index_of(c)).after_compact(),
                        ..v
                    },
                    None,
                )
            } else {
                (v, Some(ErrorView::InvalidNode))
            }
        } else {
            (self, Some(ErrorView::InvalidNode))
        }
    }

    /// Replaces the style of `node` if style edits reach it.
    pub open spec fn restyle(self, node: u64, style: StyleView) -> (CompatView, Option<ErrorView>) {
        if self.styleable(node) {
            (self.with_style(node, style), None)
        } else {
            (self, Some(ErrorView::InvalidNode))
        }
    }

    /// The state and error of `style_background(node, color)`.
    pub open spec fn background_result(self, node: u64, color: Seq<char>) -> (
        CompatView,
        Option<ErrorView>,
    ) {
        match color_result(color) {
            Err(m) => (self, Some(ErrorView::StyleParse(m))),
            Ok(c) => self.restyle(node, StyleView { background: c, ..self.nodes[node].style }),
        }
    }

    /// The state and error of `style_border(node, width, color)`.
    pub open spec fn border_result(self, node: u64, width: Seq<char>, color: Seq<char>) -> (
        CompatView,
        Option<ErrorView>,
    ) {
        match color_result(color) {
            Err(m) => (self, Some(ErrorView::StyleParse(m))),
            Ok(c) => self.restyle(
                node,
                StyleView {
                    border_color: c,
                    ..set_number(self.nodes[node].style, StyleProp::BorderWidth, Some(width))
                },
            ),
        }
    }

    /// The state and error of `style_set(node, key, value)`.
    pub open spec fn style_set_result(self, node: u64, key: Seq<char>, value: Seq<char>) -> (
        CompatView,
        Option<ErrorView>,
    ) {
        match style_prop_of(key) {
            None => (self, Some(ErrorView::StyleParse("unknown style key: "@ + key))),
            Some(StyleProp::Background) => self.background_result(node, value),
            Some(StyleProp::BorderColor) => match color_result(value) {
                Err(m) => (self, Some(ErrorView::StyleParse(m))),
                Ok(c) => self.restyle(node, StyleView { border_color: c, ..self.nodes[node].style }),
            },
            Some(p) => if !is_float_text(value) {
                (self, Some(ErrorView::StyleParse(number_error(p, value))))
            } else {
                self.restyle(node, set_number(self.nodes[node].style, p, Some(value)))
            },
        }
    }

    /// The state and error of `style_set_many`: the pairs apply in order
    /// up to the first error.
    pub open spec fn style_set_many_result(
        self,
        node: u64,
        styles: Seq<(Seq<char>, Seq<char>)>,
    ) -> (CompatView, Option<ErrorView>)
        decreases styles.len(),
    {
        if styles.len() == 0 {
            (self, None)
        } else {
            let (v, e) = self.style_set_result(node, styles[0].0, styles[0].1);
            if e is Some {
                (v, e)
            } else {
                v.style_set_many_result(node, styles.drop_first())
            }
        }
    }
}

/// Replacing the style of a node keeps the state consistent.
proof fn lemma_with_style_wf(v: CompatView, node: u64, style: StyleView)
    requires
        v.wf(),
        v.nodes.contains_key(node),
        style.values.len() == STYLE_SLOTS,
    ensures
        v.with_style(node, style).wf(),
{
    let w = v.with_style(node, style);
    lemma_staged_insert(v.nodes, node, RecordView { style, ..v.nodes[node] });
    if v.nodes[node].core is None {
        assert(staged_keys(v.nodes).insert(node) =~= staged_keys(v.nodes));
    } else {
        assert(staged_keys(v.nodes).remove(node) =~= staged_keys(v.nodes));
    }
}

/// The characters of each pair of strings.
pub open spec fn pair_views(styles: Seq<(&str, &str)>) -> Seq<(Seq<char>, Seq<char>)> {
    styles.map_values(|p: (&str, &str)| (p.0@, p.1@))
}

impl CompatState {
    /// Creates a new detached node of the given kind and returns its id; the
    /// node stays staged until it is appended under a mounted node or
    /// mounted with `app_mount`.  The id was never handed out before.
    pub fn node_create(&mut self, kind: NodeKind) -> (r: CompatResult<NodeId>)
        requires
            old(self)@.wf(),
            old(self)@.next_compat_id < u64::MAX - 1,
        ensures
            final(self)@.wf(),
            r == Ok::<NodeId, CompatError>(NodeId(old(self)@.next_compat_id)),
            !old(self)@.nodes.contains_key(old(self)@.next_compat_id),
            final(self)@ == old(self)@.after_create(kind),
    {
        let ghost old_v = self@;
        let id = self.next_compat_id;
        self.next_compat_id = id + 1;
        let rec = Record { kind, children: Vec::new(), core: None, style: CompatStyle::new() };
        let ghost rv = rec@;
        self.records.insert(id, rec);
        proof {
            assert(self@.nodes =~= old_v.nodes.insert(id, rv));
            assert(rv == RecordView {
                kind,
                children: Seq::<u64>::empty(),
                core: Option::<CoreId>::None,
                style: default_style(),
            });
            lemma_staged_insert(old_v.nodes, id, rv);
            assert(!staged_keys(old_v.nodes).contains(id));
        }
        Ok(NodeId(id))
    }

    fn styleable(&self, node: u64) -> (b: bool)
        requires
            self@.wf(),
        ensures
            b == self@.styleable(node),
    {
        match self.records.get(&node) {
            Some(r) => match r.core {
                None => true,
                Some(c) => self.tree.contains(c),
            },
            None => false,
        }
    }

    /// Takes the record of `node` out of the map to edit it.
    fn take(&mut self, node: u64) -> (r: Record)
        requires
            old(self)@.nodes.contains_key(node),
        ensures
            r@ == old(self)@.nodes[node],
            final(self)@ == (CompatView { nodes: old(self)@.nodes.remove(node), ..old(self)@ }),
    {
        let ghost old_v = self@;
        let r = self.records.remove(&node);
        proof {
            assert(self@.nodes =~= old_v.nodes.remove(node));
        }
        match r {
            Some(r) => r,
            None => {
                assert(false);
                Record { kind: NodeKind::Container, children: Vec::new(), core: None, style: CompatStyle::new() }
            },
        }
    }

    /// Puts an edited record back.
    fn put(&mut self, node: u64, r: Record)
        ensures
            final(self)@ == (CompatView { nodes: old(self)@.nodes.insert(node, r@), ..old(self)@ }),
    {
        let ghost old_v = self@;
        let ghost rv = r@;
        self.records.insert(node, r);
        proof {
            assert(self@.nodes =~= old_v.nodes.insert(node, rv));
        }
    }

    /// Removes `child` and invalidates its id.  A staged node is dropped; a
    /// mounted node's core subtree leaves the tree, whose arena is then
    /// compacted.  `parent` is not used.
    pub fn node_remove(&mut self, parent: NodeId, child: NodeId) -> (r: CompatResult<()>)
        requires
            old(self)@.wf(),
        ensures
            final(self)@.wf(),
            (final(self)@, failure(r)) == old(self)@.remove_result(child.0),
            r matches Err(e) ==> e is InvalidNode,
    {
        let ghost old_v = self@;
        if !self.records.contains_key(&child.0) {
            return Err(CompatError::InvalidNode);
        }
        let rec = self.take(child.0);
        proof {
            lemma_staged_remove(old_v.nodes, child.0);
        }
        match rec.core {
            None => {
                assert(staged_keys(old_v.nodes).contains(child.0));
                Ok(())
            },
            Some(c) => {
                assert(staged_keys(old_v.nodes).remove(child.0) =~= staged_keys(old_v.nodes));
                if self.tree.remove_node(c) {
                    self.tree.compact();
                    Ok(())
                } else {
                    Err(CompatError::InvalidNode)
                }
            },
        }
    }

    /// Takes the style of `node` out for editing, leaving the default in
    /// its place.
    fn take_style(&mut self, node: u64) -> (st: CompatStyle)
        requires
            old(self)@.wf(),
            old(self)@.nodes.contains_key(node),
        ensures
            st@ == old(self)@.nodes[node].style,
            final(self)@ == old(self)@.with_style(node, default_style()),
            final(self)@.wf(),
    {
        let ghost old_v = self@;
        let mut rec = self.take(node);
        let mut st = CompatStyle::new();
        std::mem::swap(&mut st, &mut rec.style);
        proof {
            assert(rec@ == RecordView { style: default_style(), ..old_v.nodes[node] });
        }
        self.put(node, rec);
        proof {
            assert(self@.nodes =~= old_v.with_style(node, default_style()).nodes);
            lemma_with_style_wf(old_v, node, default_style());
        }
        st
    }

    /// Stores the edited style of `node`.
    fn put_style(&mut self, node: u64, st: CompatStyle, Ghost(before): Ghost<CompatView>)
        requires
            before.wf(),
            before.nodes.contains_key(node),
            old(self)@ == before.with_style(node, default_style()),
            st@.values.len() == STYLE_SLOTS,
        ensures
            final(self)@ == before.with_style(node, st@),
            final(self)@.wf(),
    {
        let ghost sv = st@;
        let mut rec = self.take(node);
        rec.style = st;
        self.put(node, rec);
        proof {
            assert(self@.nodes =~= before.with_style(node, sv).nodes);
            lemma_with_style_wf(before, node, sv);
        }
    }

    /// Sets the background fill from a hex colour string (`#rgb`, `#rrggbb`
    /// or `#rrggbbaa`).
    pub fn style_background(&mut self, node: NodeId, color: &str) -> (r: CompatResult<()>)
        requires
            old(self)@.wf(),
        ensures
            final(self)@.wf(),
            (final(self)@, failure(r)) == old(self)@.background_result(node.0, color@),
    {
        let c = match parse_color(color) {
            Ok(c) => c,
            Err(e) => return Err(e),
        };
        if !self.styleable(node.0) {
            return Err(CompatError::InvalidNode);
        }
        let ghost before = self@;
        let mut st = self.take_style(node.0);
        st.background = c;
        self.put_style(node.0, st, Ghost(before));
        Ok(())
    }

    fn set_value(style: &mut CompatStyle, prop: StyleProp, value: Option<String>)
        requires
            old(style)@.values.len() == STYLE_SLOTS,
        ensures
            final(style)@ == set_number(old(style)@, prop, text_view(value)),
    {
        let ghost old_s = style@;
        let ghost vv = text_view(value);
        style.values.set(prop.slot(), value);
        if prop == StyleProp::X || prop == StyleProp::Y {
            style.absolute = true;
        }
        proof {
            assert(style@.values =~= old_s.values.update(prop.spec_slot(), vv));
        }
    }

    /// Sets the border width (the text of a number) and colour (a hex
    /// string).
    pub fn style_border(&mut self, node: NodeId, width: &str, color: &str) -> (r: CompatResult<()>)
        requires
            old(self)@.wf(),
            is_float_text(width@),
        ensures
            final(self)@.wf(),
            (final(self)@, failure(r)) == old(self)@.border_result(node.0, width@, color@),
    {
        let c = match parse_color(color) {
            Ok(c) => c,
            Err(e) => return Err(e),
        };
        if !self.styleable(node.0) {
            return Err(CompatError::InvalidNode);
        }
        let ghost before = self@;
        let mut st = self.take_style(node.0);
        Self::set_value(&mut st, StyleProp::BorderWidth, Some(width.to_owned()));
        st.border_color = c;
        self.put_style(node.0, st, Ghost(before));
        Ok(())
    }

    /// Sets (or, with `None`, resets) the numeric value of `prop`, given as
    /// the text of a number; `x` and `y` switch to absolute positioning.
    pub fn style_number(&mut self, node: NodeId, prop: StyleProp, value: Option<&str>) -> (r:
        CompatResult<()>)
        requires
            old(self)@.wf(),
            !prop.spec_is_color(),
            value matches Option::Some(t) ==> is_float_text(t@),
        ensures
            final(self)@.wf(),
            (final(self)@, failure(r)) == old(self)@.restyle(
                node.0,
                set_number(
                    old(self)@.nodes[node.0].style,
                    prop,
                    match value {
                        Option::Some(t) => Option::Some(t@),
                        Option::None => Option::None,
                    },
                ),
            ),
    {
        if !self.styleable(node.0) {
            return Err(CompatError::InvalidNode);
        }
        let owned = match value {
            Some(t) => Some(t.to_owned()),
            None => None,
        };
        let ghost before = self@;
        let mut st = self.take_style(node.0);
        Self::set_value(&mut st, prop, owned);
        self.put_style(node.0, st, Ghost(before));
        Ok(())
    }

    /// Sets a single style property by CSS-like key string.
    pub fn style_set(&mut self, node: NodeId, key: &str, value: &str) -> (r: CompatResult<()>)
        requires
            old(self)@.wf(),
        ensures
            final(self)@.wf(),
            (final(self)@, failure(r)) == old(self)@.style_set_result(node.0, key@, value@),
    {
        let prop = match StyleProp::from_key(key) {
            Some(p) => p,
            None => {
                let k = str_chars(key);
                return Err(CompatError::StyleParseError(concat_chars("unknown style key: ", &k)));
            },
        };
        match prop {
            StyleProp::Background => self.style_background(node, value),
            StyleProp::BorderColor => {
                let c = match parse_color(value) {
                    Ok(c) => c,
                    Err(e) => return Err(e),
                };
                if !self.styleable(node.0) {
                    return Err(CompatError::InvalidNode);
                }
                let ghost before = self@;
                let mut st = self.take_style(node.0);
                st.border_color = c;
                self.put_style(node.0, st, Ghost(before));
                Ok(())
            },
            _ => {
                let chars = str_chars(value);
                if !float_text_ok(&chars) {
                    return Err(CompatError::StyleParseError(number_message(prop, &chars)));
                }
                if !self.styleable(node.0) {
                    return Err(CompatError::InvalidNode);
                }
                let ghost before = self@;
                let mut st = self.take_style(node.0);
                Self::set_value(&mut st, prop, Some(value.to_owned()));
                self.put_style(node.0, st, Ghost(before));
                Ok(())
            },
        }
    }

    /// Sets several style properties in order, stopping at the first error
    /// (the earlier ones stay applied).
    pub fn style_set_many(&mut self, node: NodeId, styles: &[(&str, &str)]) -> (r: CompatResult<()>)
        requires
            old(self)@.wf(),
        ensures
            final(self)@.wf(),
            (final(self)@, failure(r)) == old(self)@.style_set_many_result(node.0, pair_views(styles@)),
    {
        let ghost target = self@.style_set_many_result(node.0, pair_views(styles@));
        assert(pair_views(styles@).subrange(0, styles@.len() as int) =~= pair_views(styles@));
        let mut i: usize = 0;
        while i < styles.len()
            invariant
                self@.wf(),
                i <= styles@.len(),
                self@.style_set_many_result(node.0, pair_views(styles@).subrange(i as int, styles@.len() as int))
                    == target,
                target == old(self)@.style_set_many_result(node.0, pair_views(styles@)),
            decreases styles@.len() - i,
        {
            let ghost rest = pair_views(styles@).subrange(i as int, styles@.len() as int);
            assert(rest[0] == (styles@[i as int].0@, styles@[i as int].1@));
            assert(rest.drop_first() =~= pair_views(styles@).subrange(i + 1, styles@.len() as int));
            let (k, v) = styles[i];
            let ghost cur = self@;
            let res = self.style_set(node, k, v);
            if res.is_err() {
                assert(cur.style_set_many_result(node.0, rest) == cur.style_set_result(
                    node.0,
                    rest[0].0,
                    rest[0].1,
                ));
                assert((self@, failure(res)) == target);
                return res;
            }
            i = i + 1;
        }
        Ok(())
    }
}

fn number_message(prop: StyleProp, value: &Vec<char>) -> (m: String)
    ensures
        m@ == number_error(prop, value@),
{
    match prop {
        StyleProp::BorderWidth => concat_chars("invalid border-width: ", value),
        StyleProp::Opacity => concat_chars("invalid opacity: ", value),
        StyleProp::X => concat_chars("invalid x: ", value),
        StyleProp::Y => concat_chars("invalid y: ", value),
        StyleProp::Width => concat_chars("invalid width: ", value),
        StyleProp::Height => concat_chars("invalid height: ", value),
        _ => concat_chars("expected f32, got: ", value),
    }
}

// ---------------------------------------------------------------------------
// Mounting staged nodes
// ---------------------------------------------------------------------------

impl CompatView {
    /// Mounts the staged node `c` under the core node `p`: a new core node of
    /// its kind becomes the last child of `p` and its staged children are
    /// queued (first child on top).  If `p` is no longer in the tree, `c` is
    /// dropped instead.
    pub open spec fn flush_one(self, c: u64, p: CoreId) -> (CompatView, Seq<(u64, CoreId)>) {
        let rec = self.nodes[c];
        if self.tree.contains(p) {
            let id = CoreId(self.tree.next_id);
            (
                CompatView {
                    tree: self.tree.after_add(self.tree.index_of(p), core_kind(rec.kind)),
                    nodes: self.nodes.insert(c, RecordView { core: Some(id), ..rec }),
                    ..self
                },
                rec.children.reverse().map_values(|x: u64| (x, id)),
            )
        } else {
            (CompatView { nodes: self.nodes.remove(c), ..self }, Seq::empty())
        }
    }

    /// Mounts staged subtrees depth first: the last entry of `work` (a
    /// compat id and the core node to mount it under) goes next; entries
    /// that are no longer staged are skipped.
    pub open spec fn flushed(self, work: Seq<(u64, CoreId)>) -> CompatView
        decreases staged_keys(self.nodes).len(), work.len(),
    {
        if work.len() == 0 || !self.nodes.dom().finite() {
            self
        } else {
            let (c, p) = work.last();
            if self.is_staged(c) {
                let (v2, kids) = self.flush_one(c, p);
                proof {
                    lemma_flush_one_shrinks(self, c, p);
                }
                v2.flushed(work.drop_last() + kids)
            } else {
                self.flushed(work.drop_last())
            }
        }
    }

    /// The state and error of `app_mount(root)`.
    pub open spec fn mount_result(self, root: u64) -> (CompatView, Option<ErrorView>) {
        if self.mounted {
            (self, Some(ErrorView::Internal("app_mount called more than once"@)))
        } else if !self.is_staged(root) {
            (self, Some(ErrorView::InvalidNode))
        } else {
            (
                CompatView {
                    mounted: true,
                    render_requested: true,
                    ..self.flushed(seq![(root, CoreId(0))])
                },
                None,
            )
        }
    }

    /// The state and error of `node_append(parent, child)`.
    pub open spec fn append_result(self, parent: u64, child: u64) -> (CompatView, Option<ErrorView>) {
        if !self.nodes.contains_key(child) {
            (self, Some(ErrorView::InvalidNode))
        } else if self.is_mounted(parent) {
            (
                if self.is_staged(child) {
                    self.flushed(seq![(child, self.nodes[parent].core->0)])
                } else {
                    self
                },
                None,
            )
        } else if self.is_staged(parent) {
            if !self.is_staged(child) {
                (self, Some(ErrorView::InvalidNode))
            } else {
                (
                    CompatView {
                        nodes: self.nodes.insert(
                            parent,
                            RecordView {
                                children: self.nodes[parent].children.push(child),
                                ..self.nodes[parent]
                            },
                        ),
                        ..self
                    },
                    None,
                )
            }
        } else {
            (self, Some(ErrorView::InvalidNode))
        }
    }
}

/// Mounting one staged node leaves one staged node fewer.
pub proof fn lemma_flush_one_shrinks(v: CompatView, c: u64, p: CoreId)
    requires
        v.nodes.dom().finite(),
        v.is_staged(c),
    ensures
        staged_keys(v.flush_one(c, p).0.nodes).len() < staged_keys(v.nodes).len(),
        staged_keys(v.flush_one(c, p).0.nodes) == staged_keys(v.nodes).remove(c),
        v.flush_one(c, p).0.nodes.dom().finite(),
{
    let rec = v.nodes[c];
    if v.tree.contains(p) {
        lemma_staged_insert(v.nodes, c, RecordView { core: Some(CoreId(v.tree.next_id)), ..rec });
    } else {
        lemma_staged_remove(v.nodes, c);
    }
    assert(staged_keys(v.nodes).contains(c));
}

proof fn lemma_flush_one_wf(v: CompatView, c: u64, p: CoreId)
    requires
        v.wf(),
        v.is_staged(c),
        v.flush_one(c, p).0.tree.wf(),
    ensures
        v.flush_one(c, p).0.wf(),
{
    lemma_flush_one_shrinks(v, c, p);
    assert(staged_keys(v.nodes).contains(c));
}

impl CompatState {
    fn is_staged_key(&self, node: u64) -> (b: bool)
        ensures
            b == self@.is_staged(node),
    {
        match self.records.get(&node) {
            Some(r) => r.core.is_none(),
            None => false,
        }
    }

    /// Mounts the staged subtree of `root` under the core node `parent`.
    fn flush(&mut self, root: u64, parent: CoreId)
        requires
            old(self)@.wf(),
        ensures
            final(self)@ == old(self)@.flushed(seq![(root, parent)]),
            final(self)@.wf(),
    {
        let mut work: Vec<(u64, CoreId)> = Vec::new();
        work.push((root, parent));
        let ghost target = self@.flushed(work@);
        while work.len() > 0
            invariant
                self@.wf(),
                self@.flushed(work@) == target,
                target == old(self)@.flushed(seq![(root, parent)]),
            decreases staged_keys(self@.nodes).len(), work@.len(),
        {
            let ghost cur = self@;
            let ghost w0 = work@;
            let (c, p) = match work.pop() {
                Some(e) => e,
                None => {
                    assert(false);
                    (0, CoreId(0))
                },
            };
            assert(work@ == w0.drop_last());
            if self.is_staged_key(c) {
                proof {
                    lemma_flush_one_shrinks(cur, c, p);
                }
                let ghost (next_v, kids) = cur.flush_one(c, p);
                assert(staged_keys(cur.nodes).contains(c));
                let rec = self.take(c);
                if self.tree.contains(p) {
                    proof {
                        assert(staged_keys(cur.nodes).len() >= 1);
                    }
                    let id = self.tree.add_node(p, to_core_kind(rec.kind));
                    let n = rec.children.len();
                    let mut j: usize = n;
                    while j > 0
                        invariant
                            j <= n,
                            n == rec@.children.len(),
                            work@ == w0.drop_last() + rec@.children.subrange(j as int, n as int).reverse().map_values(
                                |x: u64| (x, id),
                            ),
                        decreases j,
                    {
                        j = j - 1;
                        work.push((rec.children[j], id));
                        assert(rec@.children.subrange(j as int, n as int).reverse() =~= rec@.children.subrange(
                            j + 1,
                            n as int,
                        ).reverse().push(rec@.children[j as int]));
                        assert(work@ =~= w0.drop_last() + rec@.children.subrange(j as int, n as int).reverse().map_values(
                            |x: u64| (x, id),
                        ));
                    }
                    assert(rec@.children.subrange(0, n as int) =~= rec@.children);
                    let Record { kind, children, core: _, style } = rec;
                    let mounted = Record { kind, children, core: Some(id), style };
                    self.put(c, mounted);
                    proof {
                        assert(self@.nodes =~= next_v.nodes);
                        assert(self@ == next_v);
                        assert(work@ =~= w0.drop_last() + kids);
                        lemma_flush_one_wf(cur, c, p);
                    }
                } else {
                    proof {
                        assert(self@ == next_v);
                        lemma_flush_one_wf(cur, c, p);
                    }
                }
            }
        }
    }

    /// Appends `child` as the last child of `parent`.  Under a mounted
    /// parent a staged child's subtree is mounted at once; under a staged
    /// parent the relation is recorded and mounted with the parent.
    pub fn node_append(&mut self, parent: NodeId, child: NodeId) -> (r: CompatResult<()>)
        requires
            old(self)@.wf(),
        ensures
            final(self)@.wf(),
            (final(self)@, failure(r)) == old(self)@.append_result(parent.0, child.0),
    {
        let child_staged = self.is_staged_key(child.0);
        if !child_staged && !self.records.contains_key(&child.0) {
            return Err(CompatError::InvalidNode);
        }
        match self.core_id_of(parent) {
            Some(pc) => {
                if child_staged {
                    self.flush(child.0, pc);
                }
                Ok(())
            },
            None => {
                if !self.is_staged_key(parent.0) {
                    return Err(CompatError::InvalidNode);
                }
                if !child_staged {
                    return Err(CompatError::InvalidNode);
                }
                let ghost old_v = self@;
                let mut rec = self.take(parent.0);
                rec.children.push(child.0);
                self.put(parent.0, rec);
                proof {
                    let r2 = RecordView {
                        children: old_v.nodes[parent.0].children.push(child.0),
                        ..old_v.nodes[parent.0]
                    };
                    assert(self@.nodes =~= old_v.nodes.insert(parent.0, r2));
                    lemma_staged_insert(old_v.nodes, parent.0, r2);
                    assert(staged_keys(old_v.nodes).insert(parent.0) =~= staged_keys(old_v.nodes));
                }
                Ok(())
            },
        }
    }

    /// Mounts `root` as the application root: its staged subtree goes into
    /// the core tree under the tree's root, and a render is requested.
    pub fn app_mount(&mut self, root: NodeId) -> (r: CompatResult<()>)
        requires
            old(self)@.wf(),
        ensures
            final(self)@.wf(),
            (final(self)@, failure(r)) == old(self)@.mount_result(root.0),
    {
        if self.mounted {
            return Err(CompatError::InternalError("app_mount called more than once".to_owned()));
        }
        if !self.is_staged_key(root.0) {
            return Err(CompatError::InvalidNode);
        }
        self.flush(root.0, CoreId(0));
        self.mounted = true;
        self.render_requested = true;
        Ok(())
    }
}

// ---------------------------------------------------------------------------
// Patches, listeners, focus and lifecycle
// ---------------------------------------------------------------------------

/// The number a core id carries.
pub open spec fn core_key(c: CoreId) -> u64 {
    c.0
}

/// Whether `c` separates the segments of a patch.
pub open spec fn is_separator(c: char) -> bool {
    c == ';' || c == '\n'
}

/// The segments of a patch between separators (std's `str::split`).
pub open spec fn split_segments(s: Seq<char>) -> Seq<Seq<char>>
    decreases s.len(),
{
    if s.len() == 0 {
        seq![Seq::empty()]
    } else {
        let init = split_segments(s.drop_last());
        if is_separator(s.last()) {
            init.push(Seq::empty())
        } else {
            init.update(init.len() - 1, init.last().push(s.last()))
        }
    }
}

/// The position of the first `=` in `s`, or -1.
pub open spec fn first_eq(s: Seq<char>) -> int {
    if exists|i: int| 0 <= i < s.len() && s[i] == '=' {
        choose|i: int| 0 <= i < s.len() && s[i] == '=' && forall|j: int| 0 <= j < i ==> s[j] != '='
    } else {
        -1
    }
}

impl CompatView {
    /// The state and error of one patch segment: empty segments and those
    /// without `=` are skipped; `text=...` sets the text content; any other
    /// `key=value` goes to `style_set` (key and value trimmed).
    pub open spec fn segment_result(self, node: u64, seg: Seq<char>) -> (CompatView, Option<ErrorView>) {
        let t = trim(seg);
        let i = first_eq(t);
        if t.len() == 0 || i < 0 {
            (self, None)
        } else {
            let key = trim(t.subrange(0, i));
            let value = trim(t.subrange(i + 1, t.len() as int));
            if key == "text"@ {
                self.restyle(node, StyleView { text: value, ..self.nodes[node].style })
            } else {
                self.style_set_result(node, key, value)
            }
        }
    }

    /// The segments applied in order up to the first error.
    pub open spec fn segments_result(self, node: u64, segs: Seq<Seq<char>>) -> (CompatView, Option<ErrorView>)
        decreases segs.len(),
    {
        if segs.len() == 0 {
            (self, None)
        } else {
            let (v, e) = self.segment_result(node, segs[0]);
            if e is Some {
                (v, e)
            } else {
                v.segments_result(node, segs.drop_first())
            }
        }
    }

    /// The state after marking the core node of a mounted `node` for
    /// re-evaluation (dirty); unchanged when `node` has no core node in the
    /// tree.
    pub open spec fn touched(self, node: u64) -> CompatView {
        if self.is_mounted(node) && self.tree.contains(self.nodes[node].core->0) {
            let i = self.tree.index_of(self.nodes[node].core->0);
            CompatView {
                tree: TreeView {
                    nodes: self.tree.nodes.update(i, NodeView { dirty: true, ..self.tree.nodes[i] }),
                    ..self.tree
                },
                ..self
            }
        } else {
            self
        }
    }

    /// The state and error of `node_update(node, patch)`: an empty patch
    /// only checks that the node exists; a patch whose segments all apply
    /// also marks the node's core node for re-evaluation.
    pub open spec fn update_result(self, node: u64, patch: Seq<char>) -> (CompatView, Option<ErrorView>) {
        if patch.len() == 0 {
            if self.nodes.contains_key(node) {
                (self, None)
            } else {
                (self, Some(ErrorView::InvalidNode))
            }
        } else {
            let (v, e) = self.segments_result(node, split_segments(patch));
            if e is None {
                (v.touched(node), None)
            } else {
                (v, e)
            }
        }
    }

    /// What keyboard focus designates for `node`: the core node of a mounted
    /// node; a staged node by its compat id.
    pub open spec fn focus_target(self, node: u64) -> Option<FocusTarget> {
        if self.is_mounted(node) {
            Some(FocusTarget::Core(self.nodes[node].core->0))
        } else if self.is_staged(node) {
            Some(FocusTarget::Staged(node))
        } else {
            None
        }
    }

    /// The key a listener on `node` is filed under: the core id of a mounted
    /// node, the compat id of a staged one.
    pub open spec fn listen_key(self, node: u64) -> Option<u64> {
        if self.is_mounted(node) {
            Some(core_key(self.nodes[node].core->0))
        } else if self.is_staged(node) {
            Some(node)
        } else {
            None
        }
    }
}

fn split_patch(p: &Vec<char>) -> (segs: Vec<Vec<char>>)
    ensures
        segs@.map_values(|v: Vec<char>| v@) == split_segments(p@),
{
    let mut segs: Vec<Vec<char>> = Vec::new();
    let mut cur: Vec<char> = Vec::new();
    let mut i: usize = 0;
    while i < p.len()
        invariant
            i <= p@.len(),
            segs@.map_values(|v: Vec<char>| v@).push(cur@) == split_segments(p@.subrange(0, i as int)),
        decreases p@.len() - i,
    {
        let ghost before = segs@.map_values(|v: Vec<char>| v@).push(cur@);
        assert(p@.subrange(0, i + 1).drop_last() == p@.subrange(0, i as int));
        assert(p@.subrange(0, i + 1).last() == p@[i as int]);
        let c = p[i];
        if c == ';' || c == '\n' {
            let mut done: Vec<char> = Vec::new();
            std::mem::swap(&mut done, &mut cur);
            segs.push(done);
            assert(segs@.map_values(|v: Vec<char>| v@).push(cur@) =~= before.push(Seq::empty()));
        } else {
            cur.push(c);
            assert(segs@.map_values(|v: Vec<char>| v@).push(cur@) =~= before.update(
                before.len() - 1,
                before.last().push(c),
            ));
        }
        i = i + 1;
    }
    assert(p@.subrange(0, p@.len() as int) == p@);
    segs.push(cur);
    segs
}

fn find_eq(t: &Vec<char>) -> (i: Option<usize>)
    ensures
        match i {
            Option::Some(k) => k == first_eq(t@) && k < t@.len(),
            Option::None => first_eq(t@) == -1,
        },
{
    let mut k: usize = 0;
    while k < t.len()
        invariant
            k <= t@.len(),
            forall|j: int| 0 <= j < k ==> t@[j] != '=',
        decreases t@.len() - k,
    {
        if t[k] == '=' {
            proof {
                let c = choose|q: int| 0 <= q < t@.len() && t@[q] == '=' && forall|j: int| 0 <= j < q ==> t@[j] != '=';
                assert(0 <= k < t@.len() && t@[k as int] == '=' && forall|j: int| 0 <= j < k ==> t@[j] != '=');
                if c < k {
                    assert(t@[c] != '=');
                }
                if c > k {
                    assert(t@[k as int] != '=');
                }
            }
            return Some(k);
        }
        k = k + 1;
    }
    None
}

/// Signals that event propagation should stop at the current node; the
/// call itself has nothing to act on and always succeeds.
pub fn event_stop_propagation() -> (r: CompatResult<()>)
    ensures
        r is Ok,
{
    Ok(())
}

impl CompatState {
    fn set_text(&mut self, node: NodeId, text: &Vec<char>) -> (r: CompatResult<()>)
        requires
            old(self)@.wf(),
        ensures
            final(self)@.wf(),
            (final(self)@, failure(r)) == old(self)@.restyle(
                node.0,
                StyleView { text: text@, ..old(self)@.nodes[node.0].style },
            ),
    {
        if !self.styleable(node.0) {
            return Err(CompatError::InvalidNode);
        }
        let ghost before = self@;
        let mut st = self.take_style(node.0);
        st.text = string_from_chars(text);
        self.put_style(node.0, st, Ghost(before));
        Ok(())
    }

    fn apply_segment(&mut self, node: NodeId, seg: &Vec<char>) -> (r: CompatResult<()>)
        requires
            old(self)@.wf(),
        ensures
            final(self)@.wf(),
            (final(self)@, failure(r)) == old(self)@.segment_result(node.0, seg@),
    {
        let t = trim_chars(seg);
        if t.len() == 0 {
            return Ok(());
        }
        let i = match find_eq(&t) {
            Some(i) => i,
            None => return Ok(()),
        };
        let raw_key = crate::text::sub_chars(&t, 0, i);
        let raw_value = crate::text::sub_chars(&t, i + 1, t.len());
        let key = trim_chars(&raw_key);
        let value = trim_chars(&raw_value);
        let key_text = string_from_chars(&key);
        if str_eq_chars(&key, "text") {
            self.set_text(node, &value)
        } else {
            let value_text = string_from_chars(&value);
            self.style_set(node, key_text.as_str(), value_text.as_str())
        }
    }

    /// Applies `patch`: a list of `key=value` pairs separated by `;` or line
    /// breaks.  `text=...` sets the node's text content; any other key goes
    /// to [`CompatState::style_set`].  Segments without `=` are skipped.  An
    /// empty patch only checks that the node exists.
    pub fn node_update(&mut self, node: NodeId, patch: &str) -> (r: CompatResult<()>)
        requires
            old(self)@.wf(),
        ensures
            final(self)@.wf(),
            (final(self)@, failure(r)) == old(self)@.update_result(node.0, patch@),
    {
        let chars = str_chars(patch);
        if chars.len() == 0 {
            if self.records.contains_key(&node.0) {
                return Ok(());
            } else {
                return Err(CompatError::InvalidNode);
            }
        }
        let segs = split_patch(&chars);
        let ghost all = segs@.map_values(|v: Vec<char>| v@);
        let ghost target = self@.segments_result(node.0, all);
        assert(all.subrange(0, all.len() as int) =~= all);
        let mut i: usize = 0;
        while i < segs.len()
            invariant
                self@.wf(),
                i <= segs@.len(),
                all == segs@.map_values(|v: Vec<char>| v@),
                self@.segments_result(node.0, all.subrange(i as int, all.len() as int)) == target,
                target == old(self)@.segments_result(node.0, split_segments(patch@)),
                patch@.len() > 0,
                all == split_segments(patch@),
            decreases segs@.len() - i,
        {
            let ghost rest = all.subrange(i as int, all.len() as int);
            assert(rest[0] == segs@[i as int]@);
            assert(rest.drop_first() =~= all.subrange(i + 1, all.len() as int));
            let ghost cur = self@;
            let res = self.apply_segment(node, &segs[i]);
            if res.is_err() {
                assert(cur.segments_result(node.0, rest) == cur.segment_result(node.0, rest[0]));
                return res;
            }
            i = i + 1;
        }
        assert(all.subrange(i as int, all.len() as int) =~= Seq::<Seq<char>>::empty());
        if let Some(c) = self.core_id_of(node) {
            self.tree.mark_dirty(c);
        }
        Ok(())
    }

    /// Registers a listener for `event_type` on `node` and returns its id,
    /// which no earlier listener has.  Staged nodes are accepted; their
    /// listeners are filed under the compat id.
    pub fn event_on(&mut self, node: NodeId, event_type: EventType) -> (r: CompatResult<ListenerId>)
        requires
            old(self)@.wf(),
            old(self)@.next_listener_id < u64::MAX,
        ensures
            final(self)@.wf(),
            match old(self)@.listen_key(node.0) {
                Option::None => (r matches Err(e) && e is InvalidNode && final(self)@ == old(self)@),
                Option::Some(k) => {
                    &&& r == Ok::<ListenerId, CompatError>(ListenerId(old(self)@.next_listener_id))
                    &&& final(self)@ == (CompatView {
                        listeners: old(self)@.listeners.push(
                            Listener { id: old(self)@.next_listener_id, node: k, event_type },
                        ),
                        next_listener_id: (old(self)@.next_listener_id + 1) as u64,
                        ..old(self)@
                    })
                    &&& forall|i: int|
                        0 <= i < old(self)@.listeners.len() ==> #[trigger] old(self)@.listeners[i].id
                            != old(self)@.next_listener_id
                },
            },
    {
        let key = match self.core_id_of(node) {
            Some(c) => c.0,
            None => {
                if self.is_staged_key(node.0) {
                    node.0
                } else {
                    return Err(CompatError::InvalidNode);
                }
            },
        };
        let lid = self.next_listener_id;
        self.next_listener_id = lid + 1;
        self.listeners.push(Listener { id: lid, node: key, event_type });
        Ok(ListenerId(lid))
    }

    /// Moves keyboard focus to `node`.  A staged node has no core node yet;
    /// focus then designates it by its compat id.
    pub fn focus_set(&mut self, node: NodeId) -> (r: CompatResult<()>)
        requires
            old(self)@.wf(),
        ensures
            final(self)@.wf(),
            old(self)@.nodes.contains_key(node.0) ==> r is Ok && final(self)@.focus is Some
                && final(self)@ == (CompatView {
                focus: old(self)@.focus_target(node.0),
                ..old(self)@
            }),
            !old(self)@.nodes.contains_key(node.0) ==> (r matches Err(e) && e is InvalidNode
                && final(self)@ == old(self)@),
    {
        if self.records.contains_key(&node.0) {
            self.focus = match self.core_id_of(node) {
                Some(c) => Some(FocusTarget::Core(c)),
                None => Some(FocusTarget::Staged(node.0)),
            };
            Ok(())
        } else {
            Err(CompatError::InvalidNode)
        }
    }

    /// Unmounts the application and releases all nodes: no staged or
    /// mounted node is left, the tree holds only its root, the listeners
    /// and the focus that referred to released nodes go with them, and the
    /// render request is dropped.  Ids already handed out are not reused.
    pub fn app_unmount(&mut self) -> (r: CompatResult<()>)
        requires
            old(self)@.wf(),
        ensures
            final(self)@.wf(),
            r is Ok,
            final(self)@ == (CompatView {
                tree: initial_tree(),
                nodes: Map::<u64, RecordView>::empty(),
                listeners: Seq::<Listener>::empty(),
                focus: Option::<FocusTarget>::None,
                mounted: false,
                render_requested: false,
                ..old(self)@
            }),
    {
        self.tree = NodeTree::new();
        self.records = HashMap::new();
        self.listeners = Vec::new();
        self.focus = None;
        self.mounted = false;
        self.render_requested = false;
        proof {
            assert(self@.nodes =~= Map::<u64, RecordView>::empty());
            assert(staged_keys(self@.nodes) =~= Set::<u64>::empty());
        }
        Ok(())
    }

    /// Requests a frame render on the next opportunity.
    pub fn render_request(&mut self) -> (r: CompatResult<()>)
        requires
            old(self)@.wf(),
        ensures
            final(self)@.wf(),
            r is Ok,
            final(self)@ == (CompatView { render_requested: true, ..old(self)@ }),
    {
        self.render_requested = true;
        Ok(())
    }

    /// Enables or disables vertical sync.
    pub fn render_vsync(&mut self, enabled: bool) -> (r: CompatResult<()>)
        requires
            old(self)@.wf(),
        ensures
            final(self)@.wf(),
            r is Ok,
            final(self)@ == (CompatView { vsync: enabled, ..old(self)@ }),
    {
        self.vsync = enabled;
        Ok(())
    }

    /// Updates the viewport size, marks every tree node dirty and requests a
    /// render.
    pub fn viewport_resize(&mut self, w: u32, h: u32) -> (r: CompatResult<()>)
        requires
            old(self)@.wf(),
        ensures
            final(self)@.wf(),
            r is Ok,
            final(self)@ == (CompatView {
                viewport: (w, h),
                render_requested: true,
                tree: TreeView {
                    nodes: old(self)@.tree.nodes.map_values(|n: NodeView| marked(n)),
                    ..old(self)@.tree
                },
                ..old(self)@
            }),
    {
        self.viewport = (w, h);
        self.tree.mark_all_dirty();
        self.render_requested = true;
        Ok(())
    }
}

fn str_eq_chars(a: &Vec<char>, b: &str) -> (r: bool)
    ensures
        r == (a@ == b@),
{
    let bc = str_chars(b);
    if a.len() != bc.len() {
        return false;
    }
    let mut i: usize = 0;
    while i < a.len()
        invariant
            a@.len() == bc@.len(),
            bc@ == b@,
            i <= a@.len(),
            forall|k: int| 0 <= k < i ==> a@[k] == bc@[k],
        decreases a@.len() - i,
    {
        if a[i] != bc[i] {
            return false;
        }
        i = i + 1;
    }
    assert(a@ =~= bc@);
    true
}

// ---------------------------------------------------------------------------
// Laws
// ---------------------------------------------------------------------------

/// Mounting staged nodes never disturbs a node that is already mounted: it
/// keeps its core node, and that core node stays in its slot of the tree.
pub proof fn lemma_flush_keeps_mounted(v: CompatView, work: Seq<(u64, CoreId)>, k: u64, slot: int)
    requires
        v.is_mounted(k),
        v.tree.holds(slot, v.nodes[k].core->0),
    ensures
        v.flushed(work).is_mounted(k),
        v.flushed(work).nodes[k].core == v.nodes[k].core,
        v.flushed(work).tree.holds(slot, v.nodes[k].core->0),
    decreases staged_keys(v.nodes).len(), work.len(),
{
    if work.len() == 0 || !v.nodes.dom().finite() {
    } else {
        let (c, p) = work.last();
        if v.is_staged(c) {
            lemma_flush_one_shrinks(v, c, p);
            let (v2, kids) = v.flush_one(c, p);
            if v.tree.contains(p) {
                let pi = v.tree.index_of(p);
                let w = choose|i: int| v.tree.holds(i, p);
                assert(v.tree.holds(pi, p));
                crate::tree::lemma_add_keeps_slot(v.tree, pi, core_kind(v.nodes[c].kind), slot, v.nodes[k].core->0);
            }
            lemma_flush_keeps_mounted(v2, work.drop_last() + kids, k, slot);
        } else {
            lemma_flush_keeps_mounted(v, work.drop_last(), k, slot);
        }
    }
}

/// Live tree ids are distinct and below the next id to hand out.
pub open spec fn ids_fresh(t: TreeView) -> bool {
    &&& forall|i: int, j: int|
        #![trigger t.nodes[i].id, t.nodes[j].id]
        t.live(i) && t.live(j) && i != j ==> t.nodes[i].id != t.nodes[j].id
    &&& forall|i: int| #[trigger] t.live(i) ==> t.nodes[i].id.0 < t.next_id
}

/// Mounting one staged node under a node of the tree keeps tree ids fresh.
proof fn lemma_flush_one_fresh(v: CompatView, c: u64, p: CoreId)
    requires
        ids_fresh(v.tree),
        v.tree.contains(p),
        v.tree.next_id < u64::MAX,
    ensures
        ids_fresh(v.flush_one(c, p).0.tree),
{
    let t = v.tree;
    let t2 = v.flush_one(c, p).0.tree;
    let n = t.nodes.len() as int;
    assert(t.holds(t.index_of(p), p));
    assert forall|a: int| #[trigger] t2.live(a) implies t2.nodes[a].id.0 < t2.next_id by {
        if a < n {
            assert(t.live(a));
        }
    }
    assert forall|a: int, b: int|
        #![trigger t2.nodes[a].id, t2.nodes[b].id]
        t2.live(a) && t2.live(b) && a != b implies t2.nodes[a].id != t2.nodes[b].id by {
        if a < n {
            assert(t.live(a));
        }
        if b < n {
            assert(t.live(b));
        }
    }
}

/// Flushing keeps every existing slot's id and kind and never shrinks the
/// arena.
proof fn lemma_flush_keeps_slot_kind(v: CompatView, work: Seq<(u64, CoreId)>, s: int)
    requires
        0 <= s < v.tree.nodes.len(),
    ensures
        v.flushed(work).tree.nodes.len() >= v.tree.nodes.len(),
        v.flushed(work).tree.nodes[s].id == v.tree.nodes[s].id,
        v.flushed(work).tree.nodes[s].kind == v.tree.nodes[s].kind,
    decreases staged_keys(v.nodes).len(), work.len(),
{
    if work.len() == 0 || !v.nodes.dom().finite() {
    } else {
        let (c, p) = work.last();
        if v.is_staged(c) {
            lemma_flush_one_shrinks(v, c, p);
            let (v2, kids) = v.flush_one(c, p);
            if v.tree.contains(p) {
                assert(v.tree.holds(v.tree.index_of(p), p));
            }
            lemma_flush_keeps_slot_kind(v2, work.drop_last() + kids, s);
        } else {
            lemma_flush_keeps_slot_kind(v, work.drop_last(), s);
        }
    }
}

/// The mounted node `k` has a core node of kind `kind` in the tree.
pub open spec fn mounted_as(v: CompatView, k: u64, kind: NodeKind) -> bool {
    v.is_mounted(k) && exists|j: int|
        v.tree.holds(j, v.nodes[k].core->0) && #[trigger] v.tree.nodes[j].kind == core_kind(kind)
}

/// Every staged node that flushing mounts gets a core node of its own kind.
proof fn lemma_flush_kinds(v: CompatView, work: Seq<(u64, CoreId)>)
    requires
        v.nodes.dom().finite(),
        v.next_compat_id < u64::MAX,
        v.tree.next_id + staged_keys(v.nodes).len() <= v.next_compat_id,
        forall|i: int| 0 <= i < work.len() ==> v.tree.contains(#[trigger] work[i].1),
    ensures
        forall|k: u64|
            v.is_staged(k) && #[trigger] v.flushed(work).is_mounted(k) ==> mounted_as(
                v.flushed(work),
                k,
                v.nodes[k].kind,
            ),
    decreases staged_keys(v.nodes).len(), work.len(),
{
    if work.len() == 0 || !v.nodes.dom().finite() {
    } else {
        let (c, p) = work.last();
        let rest = work.drop_last();
        assert(v.tree.contains(work[work.len() - 1].1));
        if v.is_staged(c) {
            lemma_flush_one_shrinks(v, c, p);
            let (v2, kids) = v.flush_one(c, p);
            let pi = v.tree.index_of(p);
            assert(v.tree.holds(pi, p));
            let n = v.tree.nodes.len() as int;
            let id = CoreId(v.tree.next_id);
            assert(v2.tree.holds(n, id));
            let w2 = rest + kids;
            assert forall|i: int| 0 <= i < w2.len() implies v2.tree.contains(#[trigger] w2[i].1) by {
                if i < rest.len() {
                    assert(w2[i] == work[i]);
                    assert(v.tree.contains(work[i].1));
                    let q = choose|q: int| v.tree.holds(q, work[i].1);
                    crate::tree::lemma_add_keeps_slot(v.tree, pi, core_kind(v.nodes[c].kind), q, work[i].1);
                    assert(v2.tree.holds(q, w2[i].1));
                } else {
                    assert(w2[i] == kids[i - rest.len()]);
                    assert(v2.tree.holds(n, w2[i].1));
                }
            }
            lemma_flush_kinds(v2, w2);
            assert(v.flushed(work) == v2.flushed(w2));
            let f = v.flushed(work);
            lemma_flush_keeps_mounted(v2, w2, c, n);
            lemma_flush_keeps_slot_kind(v2, w2, n);
            assert(f.tree.holds(n, f.nodes[c].core->0));
            assert(f.tree.nodes[n].kind == core_kind(v.nodes[c].kind));
            assert(mounted_as(f, c, v.nodes[c].kind));
            assert forall|k: u64| v.is_staged(k) && #[trigger] f.is_mounted(k) implies mounted_as(
                f,
                k,
                v.nodes[k].kind,
            ) by {
                if k != c {
                    assert(v2.is_staged(k));
                    assert(v2.nodes[k].kind == v.nodes[k].kind);
                }
            }
        } else {
            assert forall|i: int| 0 <= i < rest.len() implies v.tree.contains(#[trigger] rest[i].1) by {
                assert(rest[i] == work[i]);
            }
            lemma_flush_kinds(v, rest);
        }
    }
}

/// The tree holds `p` in some slot from `n0` on.
pub open spec fn held_from(t: TreeView, p: CoreId, n0: int) -> bool {
    exists|j: int| n0 <= j && t.holds(j, p)
}

/// Flushing work whose parents all sit in slots from `n0` on leaves every
/// slot below `n0` exactly as it was.
proof fn lemma_flush_keeps_low_slot(v: CompatView, work: Seq<(u64, CoreId)>, s: int, n0: int)
    requires
        v.nodes.dom().finite(),
        v.next_compat_id < u64::MAX,
        v.tree.next_id + staged_keys(v.nodes).len() <= v.next_compat_id,
        ids_fresh(v.tree),
        0 <= s < n0 <= v.tree.nodes.len(),
        forall|i: int| 0 <= i < work.len() ==> held_from(v.tree, #[trigger] work[i].1, n0),
    ensures
        v.flushed(work).tree.nodes.len() >= v.tree.nodes.len(),
        v.flushed(work).tree.nodes[s] == v.tree.nodes[s],
    decreases staged_keys(v.nodes).len(), work.len(),
{
    if work.len() == 0 || !v.nodes.dom().finite() {
    } else {
        let (c, p) = work.last();
        let rest = work.drop_last();
        assert(work[work.len() - 1].1 == p);
        assert(held_from(v.tree, p, n0));
        let j = choose|j: int| n0 <= j && v.tree.holds(j, p);
        if v.is_staged(c) {
            lemma_flush_one_shrinks(v, c, p);
            assert(staged_keys(v.nodes).contains(c));
            let (v2, kids) = v.flush_one(c, p);
            let pi = v.tree.index_of(p);
            assert(v.tree.holds(pi, p));
            assert(pi == j);
            let n = v.tree.nodes.len() as int;
            let id = CoreId(v.tree.next_id);
            assert(v2.tree.holds(n, id));
            lemma_flush_one_fresh(v, c, p);
            let w2 = rest + kids;
            assert forall|i: int| 0 <= i < w2.len() implies held_from(v2.tree, #[trigger] w2[i].1, n0) by {
                if i < rest.len() {
                    assert(w2[i] == work[i]);
                    assert(held_from(v.tree, work[i].1, n0));
                    let k = choose|k: int| n0 <= k && v.tree.holds(k, work[i].1);
                    crate::tree::lemma_add_keeps_slot(v.tree, pi, core_kind(v.nodes[c].kind), k, work[i].1);
                    assert(v2.tree.holds(k, w2[i].1));
                    assert(held_from(v2.tree, w2[i].1, n0));
                } else {
                    assert(w2[i] == kids[i - rest.len()]);
                    assert(v2.tree.holds(n, w2[i].1));
                    assert(held_from(v2.tree, w2[i].1, n0));
                }
            }
            lemma_flush_keeps_low_slot(v2, w2, s, n0);
            assert(v.flushed(work) == v2.flushed(w2));
        } else {
            assert forall|i: int| 0 <= i < rest.len() implies held_from(v.tree, #[trigger] rest[i].1, n0) by {
                assert(rest[i] == work[i]);
                assert(held_from(v.tree, work[i].1, n0));
            }
            lemma_flush_keeps_low_slot(v, rest, s, n0);
        }
    }
}

/// A successful `app_mount(root)` mounts `root`: afterwards it has a core
/// node, and that node is in the tree.
pub proof fn lemma_mount_mounts_root(v: CompatView, root: u64)
    requires
        v.wf(),
        v.mount_result(root).1 is None,
    ensures
        v.mount_result(root).0.is_mounted(root),
        v.mount_result(root).0.tree.contains(v.mount_result(root).0.nodes[root].core->0),
{
    let work = seq![(root, CoreId(0))];
    assert(v.tree.holds(0, CoreId(0)));
    assert(v.tree.contains(CoreId(0)));
    lemma_flush_one_shrinks(v, root, CoreId(0));
    assert(staged_keys(v.nodes).contains(root));
    let (v2, kids) = v.flush_one(root, CoreId(0));
    let n = v.tree.nodes.len() as int;
    assert(v2.tree.holds(n, CoreId(v.tree.next_id)));
    assert(work.drop_last() + kids =~= kids);
    assert(v.flushed(work) == v2.flushed(kids));
    lemma_flush_keeps_mounted(v2, kids, root, n);
}

/// What flushing does to the records it reaches: records mounted before stay
/// mounted; every work entry that names a record ends mounted; and every
/// record a flushed node lists as a child ends mounted.
proof fn lemma_flush_mounts(v: CompatView, work: Seq<(u64, CoreId)>)
    requires
        v.nodes.dom().finite(),
        v.next_compat_id < u64::MAX,
        v.tree.next_id + staged_keys(v.nodes).len() <= v.next_compat_id,
        forall|i: int| 0 <= i < work.len() ==> v.tree.contains(#[trigger] work[i].1),
    ensures
        forall|k: u64| v.is_mounted(k) ==> #[trigger] v.flushed(work).is_mounted(k),
        forall|i: int|
            0 <= i < work.len() && v.nodes.contains_key(#[trigger] work[i].0) ==> v.flushed(
                work,
            ).is_mounted(work[i].0),
        forall|m: u64, x: u64|
            v.is_staged(m) && v.flushed(work).is_mounted(m) && #[trigger] v.nodes[m].children.contains(x)
                && v.nodes.contains_key(x) ==> v.flushed(work).is_mounted(x),
    decreases staged_keys(v.nodes).len(), work.len(),
{
    if work.len() == 0 || !v.nodes.dom().finite() {
    } else {
        let (c, p) = work.last();
        let rest = work.drop_last();
        if v.is_staged(c) {
            lemma_flush_one_shrinks(v, c, p);
            assert(staged_keys(v.nodes).contains(c));
            let (v2, kids) = v.flush_one(c, p);
            let id = CoreId(v.tree.next_id);
            let n = v.tree.nodes.len() as int;
            let pi = v.tree.index_of(p);
            assert(v.tree.contains(work[work.len() - 1].1));
            assert(v.tree.holds(pi, p));
            assert(v2.tree.holds(n, id));
            let w2 = rest + kids;
            assert forall|i: int| 0 <= i < w2.len() implies v2.tree.contains(#[trigger] w2[i].1) by {
                if i < rest.len() {
                    assert(w2[i] == work[i]);
                    assert(v.tree.contains(work[i].1));
                    let s = choose|s: int| v.tree.holds(s, work[i].1);
                    crate::tree::lemma_add_keeps_slot(v.tree, pi, core_kind(v.nodes[c].kind), s, work[i].1);
                    assert(v2.tree.holds(s, work[i].1));
                } else {
                    assert(w2[i] == kids[i - rest.len()]);
                    assert(v2.tree.holds(n, id));
                }
            }
            lemma_flush_mounts(v2, w2);
            assert(v.flushed(work) == v2.flushed(w2));
            let f = v.flushed(work);
            assert(v2.is_mounted(c));
            assert forall|k: u64| v.is_mounted(k) implies #[trigger] f.is_mounted(k) by {
                assert(v2.is_mounted(k));
            }
            assert forall|i: int| 0 <= i < work.len() && v.nodes.contains_key(#[trigger] work[i].0) implies f.is_mounted(work[i].0) by {
                if i < rest.len() {
                    assert(w2[i] == work[i]);
                    assert(v2.nodes.contains_key(work[i].0));
                }
            }
            let ch = v.nodes[c].children;
            assert forall|m: u64, x: u64|
                v.is_staged(m) && f.is_mounted(m) && #[trigger] v.nodes[m].children.contains(x)
                    && v.nodes.contains_key(x) implies f.is_mounted(x) by {
                if m == c {
                    let j = choose|j: int| 0 <= j < ch.len() && ch[j] == x;
                    let q = ch.len() - 1 - j;
                    assert(ch.reverse()[q] == x);
                    assert(kids[q] == (x, id));
                    assert(w2[rest.len() + q] == (x, id));
                    assert(v2.nodes.contains_key(x));
                    assert(v2.nodes.contains_key(w2[rest.len() + q].0));
                    assert(f.is_mounted(w2[rest.len() + q].0));
                } else {
                    assert(v2.is_staged(m));
                    assert(v2.nodes[m].children == v.nodes[m].children);
                    assert(v2.nodes.contains_key(x));
                    assert(v2.nodes[m].children.contains(x));
                    assert(v2.flushed(w2).is_mounted(m));
                }
            }
        } else {
            assert forall|i: int| 0 <= i < rest.len() implies v.tree.contains(#[trigger] rest[i].1) by {
                assert(rest[i] == work[i]);
            }
            lemma_flush_mounts(v, rest);
            assert forall|i: int| 0 <= i < work.len() && v.nodes.contains_key(#[trigger] work[i].0) implies v.flushed(work).is_mounted(work[i].0) by {
                if i < rest.len() {
                    assert(rest[i] == work[i]);
                } else {
                    assert(v.is_mounted(c));
                }
            }
        }
    }
}

/// `c` lies in the staged subtree of `root` within `d` child steps: it is
/// `root`, or a child listed by a staged node of that subtree.
pub open spec fn in_staged_subtree(v: CompatView, root: u64, c: u64, d: nat) -> bool
    decreases d,
{
    if d == 0 {
        c == root
    } else {
        in_staged_subtree(v, root, c, (d - 1) as nat) || exists|m: u64|
            in_staged_subtree(v, root, m, (d - 1) as nat) && v.is_staged(m)
                && #[trigger] v.nodes[m].children.contains(c)
    }
}

/// A successful `app_mount(root)` mounts the whole staged subtree of
/// `root`: every node reachable from `root` through the children of staged
/// nodes (and still created) has a core node afterwards.
pub proof fn lemma_mount_mounts_subtree(v: CompatView, root: u64, c: u64, d: nat)
    requires
        v.wf(),
        v.mount_result(root).1 is None,
        in_staged_subtree(v, root, c, d),
        v.nodes.contains_key(c),
    ensures
        v.mount_result(root).0.is_mounted(c),
    decreases d,
{
    let work = seq![(root, CoreId(0))];
    assert(v.tree.holds(0, CoreId(0)));
    assert(v.tree.contains(work[0].1));
    lemma_flush_mounts(v, work);
    let f = v.flushed(work);
    assert(v.mount_result(root).0.nodes == f.nodes);
    if d == 0 {
        assert(work[0].0 == c);
    } else if in_staged_subtree(v, root, c, (d - 1) as nat) {
        lemma_mount_mounts_subtree(v, root, c, (d - 1) as nat);
    } else {
        let m = choose|m: u64|
            in_staged_subtree(v, root, m, (d - 1) as nat) && v.is_staged(m)
                && #[trigger] v.nodes[m].children.contains(c);
        lemma_mount_mounts_subtree(v, root, m, (d - 1) as nat);
    }
}

/// What `app_mount(root)` does, in one statement: a second mount is an
/// internal error and a root that is not staged an invalid node, both
/// leaving the state as it was; otherwise the application is mounted, a
/// render is requested, `root`'s new core node becomes the last child of
/// the tree's root, and every node of its staged subtree is mounted, each
/// staged one as a core node of its own kind.
pub proof fn lemma_app_mount(v: CompatView, root: u64)
    requires
        v.wf(),
    ensures
        v.mounted ==> (v.mount_result(root).1 matches Some(ErrorView::Internal(_)))
            && v.mount_result(root).0 == v,
        !v.mounted && !v.is_staged(root) ==> v.mount_result(root).1 == Some(ErrorView::InvalidNode)
            && v.mount_result(root).0 == v,
        !v.mounted && v.is_staged(root) ==> {
            let after = v.mount_result(root).0;
            &&& v.mount_result(root).1 is None
            &&& after.mounted
            &&& after.render_requested
            &&& after.is_mounted(root)
            &&& after.tree.contains(after.nodes[root].core->0)
            &&& after.tree.nodes[0].children == v.tree.nodes[0].children.push(
                v.tree.nodes.len() as usize,
            )
            &&& after.tree.holds(v.tree.nodes.len() as int, after.nodes[root].core->0)
            &&& forall|c: u64, d: nat|
                #![trigger in_staged_subtree(v, root, c, d)]
                in_staged_subtree(v, root, c, d) && v.nodes.contains_key(c) ==> after.is_mounted(c)
            &&& forall|c: u64, d: nat|
                #![trigger in_staged_subtree(v, root, c, d)]
                in_staged_subtree(v, root, c, d) && v.is_staged(c) ==> mounted_as(
                    after,
                    c,
                    v.nodes[c].kind,
                )
        },
{
    if !v.mounted && v.is_staged(root) {
        lemma_mount_mounts_root(v, root);
        assert(v.tree.holds(0, CoreId(0)));
        lemma_flush_last_child(v, root, CoreId(0), 0);
        let work = seq![(root, CoreId(0))];
        assert(v.tree.contains(work[0].1));
        lemma_flush_kinds(v, work);
        assert(v.mount_result(root).0.nodes == v.flushed(work).nodes);
        assert(v.mount_result(root).0.tree == v.flushed(work).tree);
        assert forall|c: u64, d: nat|
            #![trigger in_staged_subtree(v, root, c, d)]
            in_staged_subtree(v, root, c, d) && v.nodes.contains_key(c) implies v.mount_result(
                root,
            ).0.is_mounted(c) by {
            lemma_mount_mounts_subtree(v, root, c, d);
        }
        assert forall|c: u64, d: nat|
            #![trigger in_staged_subtree(v, root, c, d)]
            in_staged_subtree(v, root, c, d) && v.is_staged(c) implies mounted_as(
                v.mount_result(root).0,
                c,
                v.nodes[c].kind,
            ) by {
            lemma_mount_mounts_subtree(v, root, c, d);
            let f = v.flushed(work);
            assert(f.is_mounted(c));
            assert(mounted_as(f, c, v.nodes[c].kind));
            let j = choose|j: int|
                f.tree.holds(j, f.nodes[c].core->0) && #[trigger] f.tree.nodes[j].kind == core_kind(
                    v.nodes[c].kind,
                );
            assert(v.mount_result(root).0.tree.nodes[j].kind == core_kind(v.nodes[c].kind));
        }
    }
}

/// What `node_append(parent, child)` does, in one statement: every error
/// leaves the state as it was; an unknown child is an invalid node; under a
/// mounted parent (still in the tree) a staged child ends mounted and one
/// already mounted changes nothing; under a staged parent a staged child is
/// recorded as its last child and stays staged; anything else is an
/// invalid node.
pub proof fn lemma_node_append(v: CompatView, parent: u64, child: u64)
    requires
        v.wf(),
    ensures
        v.append_result(parent, child).1 is Some ==> v.append_result(parent, child).0 == v,
        !v.nodes.contains_key(child) ==> v.append_result(parent, child).1 == Some(ErrorView::InvalidNode),
        v.nodes.contains_key(child) && v.is_mounted(parent) ==> v.append_result(parent, child).1 is None,
        v.nodes.contains_key(child) && v.is_mounted(parent) && v.tree.contains(v.nodes[parent].core->0)
            ==> v.append_result(parent, child).0.is_mounted(child),
        v.is_mounted(child) && v.is_mounted(parent) ==> v.append_result(parent, child).0 == v,
        v.is_staged(parent) && v.is_staged(child) ==> {
            let after = v.append_result(parent, child).0;
            &&& v.append_result(parent, child).1 is None
            &&& after.nodes[parent].children == v.nodes[parent].children.push(child)
            &&& after.is_staged(child)
        },
        v.nodes.contains_key(child) && !v.is_mounted(parent) && !(v.is_staged(parent) && v.is_staged(
            child,
        )) ==> v.append_result(parent, child).1 == Some(ErrorView::InvalidNode),
{
    if v.nodes.contains_key(child) && v.is_mounted(parent) && v.is_staged(child) && v.tree.contains(
        v.nodes[parent].core->0,
    ) {
        let work = seq![(child, v.nodes[parent].core->0)];
        assert(v.tree.contains(work[0].1));
        lemma_flush_mounts(v, work);
        assert(v.nodes.contains_key(work[0].0));
    }
}

/// Flushing the staged node `c` under the core node `p` in slot `s` makes
/// `c`'s new core node the last child of slot `s`: the slot's children gain
/// exactly the next arena slot, which holds `c`'s core node.
proof fn lemma_flush_last_child(v: CompatView, c: u64, p: CoreId, s: int)
    requires
        v.wf(),
        v.is_staged(c),
        v.tree.holds(s, p),
    ensures
        ({
            let after = v.flushed(seq![(c, p)]);
            let n = v.tree.nodes.len() as int;
            &&& after.tree.nodes[s].children == v.tree.nodes[s].children.push(n as usize)
            &&& after.is_mounted(c)
            &&& after.tree.holds(n, after.nodes[c].core->0)
        }),
{
    let work = seq![(c, p)];
    lemma_flush_one_shrinks(v, c, p);
    assert(staged_keys(v.nodes).contains(c));
    let (v2, kids) = v.flush_one(c, p);
    assert(v.tree.holds(v.tree.index_of(p), p));
    assert(v.tree.index_of(p) == s);
    let n = v.tree.nodes.len() as int;
    let id = CoreId(v.tree.next_id);
    assert(v2.tree.holds(n, id));
    assert(v2.tree.nodes[s].children == v.tree.nodes[s].children.push(n as usize));
    assert(work.drop_last() + kids =~= kids);
    assert(v.flushed(work) == v2.flushed(kids));
    lemma_flush_one_fresh(v, c, p);
    assert forall|i: int| 0 <= i < kids.len() implies held_from(v2.tree, #[trigger] kids[i].1, n) by {
        assert(v2.tree.holds(n, kids[i].1));
    }
    lemma_flush_keeps_low_slot(v2, kids, s, n);
    lemma_flush_keeps_mounted(v2, kids, c, n);
}

/// Appending a staged child to a mounted parent whose core node sits in
/// slot `s` makes the child's new core node the last child of that slot:
/// the slot's children gain exactly the next arena slot, which holds the
/// child's core node.
pub proof fn lemma_append_last_child(v: CompatView, parent: u64, child: u64, s: int)
    requires
        v.wf(),
        v.is_mounted(parent),
        v.is_staged(child),
        v.tree.holds(s, v.nodes[parent].core->0),
    ensures
        ({
            let after = v.append_result(parent, child).0;
            let n = v.tree.nodes.len() as int;
            &&& after.tree.nodes[s].children == v.tree.nodes[s].children.push(n as usize)
            &&& after.is_mounted(child)
            &&& after.tree.holds(n, after.nodes[child].core->0)
        }),
{
    lemma_flush_last_child(v, child, v.nodes[parent].core->0, s);
}

/// Ids handed out by `node_create` are unique: two successive creations
/// return different ids, and the second id names no node of the state the
/// first creation left (the first node included).
pub proof fn lemma_create_ids_distinct(v: CompatView, a: NodeKind)
    requires
        v.wf(),
        v.next_compat_id < u64::MAX - 2,
    ensures
        v.after_create(a).next_compat_id != v.next_compat_id,
        v.after_create(a).nodes.contains_key(v.next_compat_id),
        !v.after_create(a).nodes.contains_key(v.after_create(a).next_compat_id),
{
    let w = v.after_create(a);
    if v.nodes.contains_key(w.next_compat_id) {
        assert(w.next_compat_id < v.next_compat_id);
    }
}

/// Listener ids are unique: in every well-formed state the registered
/// listeners carry pairwise different ids, and the id that `event_on`
/// hands out next belongs to none of them.
pub proof fn lemma_listener_ids_unique(v: CompatView)
    requires
        v.wf(),
    ensures
        forall|i: int, j: int|
            0 <= i < v.listeners.len() && 0 <= j < v.listeners.len() && i != j
                ==> #[trigger] v.listeners[i].id != #[trigger] v.listeners[j].id,
        forall|i: int|
            0 <= i < v.listeners.len() ==> #[trigger] v.listeners[i].id != v.next_listener_id,
{
    assert forall|i: int, j: int|
        0 <= i < v.listeners.len() && 0 <= j < v.listeners.len() && i != j
            implies #[trigger] v.listeners[i].id != #[trigger] v.listeners[j].id by {
        if i < j {
            assert(v.listeners[i].id < v.listeners[j].id);
        } else {
            assert(v.listeners[j].id < v.listeners[i].id);
        }
    }
}

/// A successful `style_set` is read back: a colour key stores the parsed
/// colour, a numeric key stores the value's text.
pub proof fn lemma_style_set_reads_back(v: CompatView, node: u64, key: Seq<char>, value: Seq<char>)
    requires
        v.wf(),
        v.style_set_result(node, key, value).1 is None,
    ensures
        ({
            let after = v.style_set_result(node, key, value).0;
            let st = after.nodes[node].style;
            match style_prop_of(key) {
                Some(StyleProp::Background) => color_result(value) == Ok::<Rgba8, Seq<char>>(st.background),
                Some(StyleProp::BorderColor) => color_result(value) == Ok::<Rgba8, Seq<char>>(st.border_color),
                Some(p) => st.values[p.spec_slot()] == Some(value),
                None => false,
            }
        }),
{
}

} // verus!
