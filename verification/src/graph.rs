//! Render graph: named render passes, their dependencies and a topological
//! execution order.  Pass ids are handed out in order and passes are never
//! removed, so a pass's id is its position in the graph.

use vstd::prelude::*;

use crate::compat::types::str_eq;

verus! {

/// A stable identifier for a render pass within the graph.
#[derive(Debug, Clone, Copy, PartialEq, Eq, Structural, Hash, PartialOrd, Ord)]
pub struct PassId(pub u32);

impl PassId {
    /// The pass id as text, `Pass(n)`.
    pub fn to_string(&self) -> (s: String)
        ensures
            s@ == "Pass("@ + crate::text::decimal(self.0 as nat) + ")"@,
    {
        let mut s = "Pass(".to_owned();
        let d = crate::text::u64_to_decimal(self.0 as u64);
        s.append(d.as_str());
        s.append(")");
        s
    }
}

/// What a render pass does; drives how the renderer handles it.
#[derive(Debug, Clone, Copy, PartialEq, Eq, Structural)]
pub enum PassKind {
    /// Clears the render target.
    Clear,
    /// Draws UI geometry.
    Ui,
    /// Draws debug overlays on top of everything else.
    Overlay,
}

/// Abstract state of a render pass.
pub struct PassView {
    pub id: PassId,
    pub name: Seq<char>,
    pub kind: PassKind,
    /// Passes that must complete before this one, each listed once.
    pub depends_on: Seq<PassId>,
    /// Whether the pass runs this frame.
    pub enabled: bool,
}

/// A single render pass in the graph.
pub struct RenderPass {
    pub id: PassId,
    pub name: &'static str,
    pub kind: PassKind,
    /// Pass ids that must complete before this pass executes.
    depends_on: Vec<PassId>,
    /// Whether the pass is active this frame.
    pub enabled: bool,
}

impl View for RenderPass {
    type V = PassView;

    closed spec fn view(&self) -> PassView {
        PassView {
            id: self.id,
            name: self.name@,
            kind: self.kind,
            depends_on: self.depends_on@,
            enabled: self.enabled,
        }
    }
}

impl RenderPass {
    /// The passes this one waits for.
    pub fn depends_on(&self) -> (d: &[PassId])
        ensures
            d@ == self@.depends_on,
    {
        self.depends_on.as_slice()
    }
}

/// Abstract state of a [`RenderGraph`].
pub struct GraphView {
    pub passes: Seq<PassView>,
    /// The cached execution order (meaningful when not stale).
    pub order: Seq<PassId>,
    /// Whether the structure changed since the order was computed.
    pub stale: bool,
}

/// The position of `id` in `order`, if it occurs.
pub open spec fn occurs(order: Seq<PassId>, id: PassId) -> bool {
    order.contains(id)
}

/// `id` occurs among the first `k` entries of `order`.
pub open spec fn placed_before(order: Seq<PassId>, k: int, id: PassId) -> bool {
    exists|j: int| 0 <= j < k && order[j] == id
}

/// `order` is a topological order of the passes: every pass occurs at most
/// once, each after all of its dependencies; and it is complete, in that
/// each pass left out waits for some pass that is left out too (a missing
/// pass or one on or after a cycle).
pub open spec fn is_topological(passes: Seq<PassView>, order: Seq<PassId>) -> bool {
    &&& order.no_duplicates()
    &&& forall|k: int| 0 <= k < order.len() ==> (#[trigger] order[k]).0 < passes.len()
    &&& forall|k: int, d: int|
        #![trigger order[k], passes[order[k].0 as int].depends_on[d]]
        0 <= k < order.len() && 0 <= d < passes[order[k].0 as int].depends_on.len() ==> placed_before(
            order,
            k,
            passes[order[k].0 as int].depends_on[d],
        )
    &&& forall|i: int|
        #![trigger passes[i]]
        0 <= i < passes.len() && !order.contains(PassId(i as u32)) ==> exists|d: int|
            0 <= d < passes[i].depends_on.len() && !order.contains(#[trigger] passes[i].depends_on[d])
}

impl GraphView {
    /// Ids match positions and dependency lists hold no repeats.
    pub open spec fn wf(self) -> bool {
        &&& self.passes.len() <= u32::MAX
        &&& forall|i: int| 0 <= i < self.passes.len() ==> (#[trigger] self.passes[i]).id == PassId(i as u32)
        &&& forall|i: int| 0 <= i < self.passes.len() ==> (#[trigger] self.passes[i]).depends_on.no_duplicates()
        &&& !self.stale ==> is_topological(self.passes, self.order)
    }

    /// The passes are acyclic: some ranking puts every dependency (which
    /// exists) below the pass that waits for it.
    pub open spec fn acyclic(self, rank: spec_fn(int) -> nat) -> bool {
        forall|i: int, d: int|
            0 <= i < self.passes.len() && 0 <= d < self.passes[i].depends_on.len() ==> {
                let dep = #[trigger] self.passes[i].depends_on[d];
                &&& dep.0 < self.passes.len()
                &&& rank(dep.0 as int) < rank(i)
            }
    }

    /// The last pass named `name`, if any.
    pub open spec fn named(self, name: Seq<char>) -> Option<int> {
        if exists|i: int| 0 <= i < self.passes.len() && self.passes[i].name == name {
            Some(
                choose|i: int|
                    0 <= i < self.passes.len() && self.passes[i].name == name && forall|j: int|
                        i < j < self.passes.len() ==> self.passes[j].name != name,
            )
        } else {
            None
        }
    }
}

/// Manages the set of render passes and their execution order; the order is
/// recomputed lazily after the structure changes.
pub struct RenderGraph {
    passes: Vec<RenderPass>,
    topo_order: Vec<PassId>,
    topo_dirty: bool,
}

impl View for RenderGraph {
    type V = GraphView;

    closed spec fn view(&self) -> GraphView {
        GraphView {
            passes: self.passes@.map_values(|p: RenderPass| p@),
            order: self.topo_order@,
            stale: self.topo_dirty,
        }
    }
}

impl RenderGraph {
    /// Whether the cached order needs recomputing.
    pub fn is_stale(&self) -> (b: bool)
        ensures
            b == self@.stale,
    {
        self.topo_dirty
    }

    /// The number of passes.
    pub fn len(&self) -> (n: usize)
        ensures
            n == self@.passes.len(),
    {
        self.passes.len()
    }

    /// Adds a new enabled pass with no dependencies and returns its id.
    pub fn add_pass(&mut self, name: &'static str, kind: PassKind) -> (id: PassId)
        requires
            old(self)@.wf(),
            old(self)@.passes.len() < u32::MAX,
        ensures
            final(self)@.wf(),
            id == PassId(old(self)@.passes.len() as u32),
            final(self)@.stale,
            final(self)@.passes == old(self)@.passes.push(
                PassView { id, name: name@, kind, depends_on: Seq::empty(), enabled: true },
            ),
    {
        let ghost old_v = self@;
        let id = PassId(self.passes.len() as u32);
        self.passes.push(RenderPass { id, name, kind, depends_on: Vec::new(), enabled: true });
        self.topo_dirty = true;
        proof {
            assert(self@.passes =~= old_v.passes.push(
                PassView { id, name: name@, kind, depends_on: Seq::empty(), enabled: true },
            ));
        }
        id
    }

    /// Declares that `pass` must run after `after`.  Returns `false` (and
    /// changes nothing) when `pass` is not in the graph; a dependency already
    /// declared is not repeated and does not make the order stale.
    pub fn add_dependency(&mut self, pass: PassId, after: PassId) -> (found: bool)
        requires
            old(self)@.wf(),
        ensures
            final(self)@.wf(),
            found == (pass.0 < old(self)@.passes.len()),
            !found ==> final(self)@ == old(self)@,
            found && old(self)@.passes[pass.0 as int].depends_on.contains(after) ==> final(self)@
                == old(self)@,
            found && !old(self)@.passes[pass.0 as int].depends_on.contains(after) ==> {
                &&& final(self)@.stale
                &&& final(self)@.passes == old(self)@.passes.update(
                    pass.0 as int,
                    PassView {
                        depends_on: old(self)@.passes[pass.0 as int].depends_on.push(after),
                        ..old(self)@.passes[pass.0 as int]
                    },
                )
            },
    {
        let ghost old_v = self@;
        let i = pass.0 as usize;
        if i >= self.passes.len() {
            return false;
        }
        let mut k: usize = 0;
        let deps = &self.passes[i].depends_on;
        while k < deps.len()
            invariant
                self@ == old_v,
                old_v.wf(),
                i == pass.0,
                i < old_v.passes.len(),
                deps@ == old_v.passes[i as int].depends_on,
                k <= deps@.len(),
                forall|q: int| 0 <= q < k ==> deps@[q] != after,
            decreases deps@.len() - k,
        {
            if deps[k] == after {
                assert(deps@.contains(after));
                return true;
            }
            k = k + 1;
        }
        proof {
            if deps@.contains(after) {
                let q = choose|q: int| 0 <= q < deps@.len() && deps@[q] == after;
                assert(deps@[q] != after);
            }
        }
        assert(self.passes@[i as int]@ == old_v.passes[i as int]);
        self.passes[i].depends_on.push(after);
        self.topo_dirty = true;
        proof {
            let target = old_v.passes.update(
                i as int,
                PassView {
                    depends_on: old_v.passes[i as int].depends_on.push(after),
                    ..old_v.passes[i as int]
                },
            );
            assert(self@.passes =~= target);
            assert forall|q: int| 0 <= q < self@.passes.len() implies (#[trigger] self@.passes[q]).depends_on.no_duplicates() by {
                if q == i {
                    let s = old_v.passes[i as int].depends_on;
                    assert forall|a: int, b: int| 0 <= a < b < s.push(after).len() implies s.push(after)[a]
                        != s.push(after)[b] by {
                        if b == s.len() {
                            assert(s[a] != after);
                        }
                    }
                }
            }
        }
        true
    }

    /// The pass `id`, if it exists.
    pub fn pass(&self, id: PassId) -> (p: Option<&RenderPass>)
        ensures
            match p {
                Option::Some(r) => id.0 < self@.passes.len() && r@ == self@.passes[id.0 as int],
                Option::None => id.0 >= self@.passes.len(),
            },
    {
        let i = id.0 as usize;
        if i < self.passes.len() {
            Some(&self.passes[i])
        } else {
            None
        }
    }

    fn find_named(&self, name: &str) -> (r: Option<usize>)
        ensures
            match r {
                Option::Some(i) => i < self@.passes.len() && self@.named(name@) == Some(i as int),
                Option::None => self@.named(name@) is None,
            },
    {
        let ghost v = self@;
        let mut k: usize = self.passes.len();
        while k > 0
            invariant
                v == self@,
                k <= v.passes.len(),
                forall|j: int| k <= j < v.passes.len() ==> v.passes[j].name != name@,
            decreases k,
        {
            let j = k - 1;
            assert(self.passes@[j as int]@ == v.passes[j as int]);
            if str_eq(self.passes[j].name, name) {
                proof {
                    let c = choose|i: int|
                        0 <= i < v.passes.len() && v.passes[i].name == name@ && forall|q: int|
                            i < q < v.passes.len() ==> v.passes[q].name != name@;
                    if c < j {
                        assert(v.passes[j as int].name != name@);
                    }
                    if c > j {
                        assert(v.passes[c].name != name@);
                    }
                }
                return Some(j);
            }
            k = j;
        }
        None
    }

    /// The last pass added with this name, if any.
    pub fn pass_by_name(&self, name: &str) -> (p: Option<&RenderPass>)
        ensures
            match p {
                Option::Some(r) => self@.named(name@) matches Some(i) && r@ == self@.passes[i],
                Option::None => self@.named(name@) is None,
            },
    {
        match self.find_named(name) {
            Some(i) => Some(&self.passes[i]),
            None => None,
        }
    }

    /// Enables or disables the pass `id`; `false` if it does not exist.
    pub fn set_enabled(&mut self, id: PassId, enabled: bool) -> (found: bool)
        requires
            old(self)@.wf(),
        ensures
            final(self)@.wf(),
            found == (id.0 < old(self)@.passes.len()),
            final(self)@ == (if found {
                GraphView {
                    passes: old(self)@.passes.update(
                        id.0 as int,
                        PassView { enabled, ..old(self)@.passes[id.0 as int] },
                    ),
                    ..old(self)@
                }
            } else {
                old(self)@
            }),
    {
        let ghost old_v = self@;
        let i = id.0 as usize;
        if i >= self.passes.len() {
            return false;
        }
        assert(self.passes@[i as int]@ == old_v.passes[i as int]);
        self.passes[i].enabled = enabled;
        proof {
            let target = old_v.passes.update(i as int, PassView { enabled, ..old_v.passes[i as int] });
            assert(self@.passes =~= target);
            lemma_same_deps(old_v.passes, self@.passes, old_v.order);
        }
        true
    }

    /// Enables or disables the overlay pass.
    pub fn set_overlay_enabled(&mut self, enabled: bool)
        requires
            old(self)@.wf(),
        ensures
            final(self)@.wf(),
            final(self)@ == (match old(self)@.named("overlay"@) {
                Option::Some(i) => GraphView {
                    passes: old(self)@.passes.update(i, PassView { enabled, ..old(self)@.passes[i] }),
                    ..old(self)@
                },
                Option::None => old(self)@,
            }),
    {
        match self.find_named("overlay") {
            Some(i) => {
                let ok = self.set_enabled(PassId(i as u32), enabled);
            },
            None => {},
        }
    }
}

/// Orders depend only on the dependency lists.
proof fn lemma_same_deps(a: Seq<PassView>, b: Seq<PassView>, order: Seq<PassId>)
    requires
        a.len() == b.len(),
        forall|i: int| 0 <= i < a.len() ==> (#[trigger] a[i]).depends_on == b[i].depends_on,
    ensures
        is_topological(a, order) ==> is_topological(b, order),
{
    if is_topological(a, order) {
        assert forall|k: int, d: int|
            #![trigger order[k], b[order[k].0 as int].depends_on[d]]
            0 <= k < order.len() && 0 <= d < b[order[k].0 as int].depends_on.len() implies placed_before(
                order,
                k,
                b[order[k].0 as int].depends_on[d],
            ) by {
            assert(a[order[k].0 as int].depends_on == b[order[k].0 as int].depends_on);
            assert(a[order[k].0 as int].depends_on[d] == b[order[k].0 as int].depends_on[d]);
        }
        assert forall|i: int|
            #![trigger b[i]]
            0 <= i < b.len() && !order.contains(PassId(i as u32)) implies exists|d: int|
                0 <= d < b[i].depends_on.len() && !order.contains(#[trigger] b[i].depends_on[d]) by {
            assert(a[i].depends_on == b[i].depends_on);
            assert(a[i] == a[i]);
            let d = choose|d: int| 0 <= d < a[i].depends_on.len() && !order.contains(#[trigger] a[i].depends_on[d]);
            assert(b[i].depends_on[d] == a[i].depends_on[d]);
        }
    }
}

/// The number of `true` entries of `s`.
pub open spec fn count_true(s: Seq<bool>) -> nat
    decreases s.len(),
{
    if s.len() == 0 {
        0
    } else {
        count_true(s.drop_last()) + (if s.last() {
            1nat
        } else {
            0nat
        })
    }
}

proof fn lemma_count_true_le(s: Seq<bool>)
    ensures
        count_true(s) <= s.len(),
    decreases s.len(),
{
    if s.len() > 0 {
        lemma_count_true_le(s.drop_last());
    }
}

proof fn lemma_count_true_set(s: Seq<bool>, i: int)
    requires
        0 <= i < s.len(),
        !s[i],
    ensures
        count_true(s.update(i, true)) == count_true(s) + 1,
    decreases s.len(),
{
    if i < s.len() - 1 {
        assert(s.update(i, true).drop_last() =~= s.drop_last().update(i, true));
        lemma_count_true_set(s.drop_last(), i);
    } else {
        assert(s.update(i, true).drop_last() =~= s.drop_last());
    }
}

/// The enabled passes in the cached order.
pub open spec fn enabled_in_order(passes: Seq<PassView>, order: Seq<PassId>) -> Seq<PassView>
    decreases order.len(),
{
    if order.len() == 0 {
        Seq::empty()
    } else {
        let rest = enabled_in_order(passes, order.drop_last());
        let id = order.last();
        if id.0 < passes.len() && passes[id.0 as int].enabled {
            rest.push(passes[id.0 as int])
        } else {
            rest
        }
    }
}

/// The standard passes a new graph holds: `clear`, then `ui` after it, then
/// `overlay` after `ui`, disabled.
pub open spec fn standard_passes() -> Seq<PassView> {
    seq![
        PassView {
            id: PassId(0),
            name: "clear"@,
            kind: PassKind::Clear,
            depends_on: Seq::empty(),
            enabled: true,
        },
        PassView {
            id: PassId(1),
            name: "ui"@,
            kind: PassKind::Ui,
            depends_on: seq![PassId(0)],
            enabled: true,
        },
        PassView {
            id: PassId(2),
            name: "overlay"@,
            kind: PassKind::Overlay,
            depends_on: seq![PassId(1)],
            enabled: false,
        },
    ]
}

impl RenderGraph {
    /// A graph holding the standard passes.
    pub fn new() -> (g: Self)
        ensures
            g@.wf(),
            g@.passes == standard_passes(),
            g@.stale,
    {
        let mut g = RenderGraph { passes: Vec::new(), topo_order: Vec::new(), topo_dirty: true };
        let clear = g.add_pass("clear", PassKind::Clear);
        let ui = g.add_pass("ui", PassKind::Ui);
        let overlay = g.add_pass("overlay", PassKind::Overlay);
        g.add_dependency(ui, clear);
        g.add_dependency(overlay, ui);
        g.set_enabled(overlay, false);
        proof {
            assert(g@.passes[1].depends_on =~= seq![PassId(0)]);
            assert(g@.passes[2].depends_on =~= seq![PassId(1)]);
            assert(g@.passes =~= standard_passes());
        }
        g
    }

    fn deps_placed(deps: &Vec<PassId>, placed: &Vec<bool>) -> (b: bool)
        ensures
            b == forall|d: int|
                0 <= d < deps@.len() ==> (#[trigger] deps@[d]).0 < placed@.len() && placed@[deps@[d].0 as int],
    {
        let mut d: usize = 0;
        while d < deps.len()
            invariant
                d <= deps@.len(),
                forall|q: int|
                    0 <= q < d ==> (#[trigger] deps@[q]).0 < placed@.len() && placed@[deps@[q].0 as int],
            decreases deps@.len() - d,
        {
            let id = deps[d].0 as usize;
            if id >= placed.len() || !placed[id] {
                return false;
            }
            d = d + 1;
        }
        true
    }

    /// A topological order of the passes (passes waiting, directly or not,
    /// on a missing pass or a cycle are left out).
    fn topological_sort(&self) -> (order: Vec<PassId>)
        requires
            self@.wf(),
        ensures
            is_topological(self@.passes, order@),
    {
        let ghost g = self@;
        let n = self.passes.len();
        let mut placed: Vec<bool> = Vec::new();
        let mut i: usize = 0;
        while i < n
            invariant
                i <= n,
                placed@.len() == i,
                forall|k: int| 0 <= k < i ==> !#[trigger] placed@[k],
            decreases n - i,
        {
            placed.push(false);
            i = i + 1;
        }
        proof {
            assert(count_true(placed@) == 0) by {
                lemma_count_zero(placed@);
            }
        }
        let mut order: Vec<PassId> = Vec::new();
        loop
            invariant
                g == self@,
                g.wf(),
                n == g.passes.len(),
                placed@.len() == n,
                order@.len() == count_true(placed@),
                forall|k: int| 0 <= k < n ==> (#[trigger] placed@[k] <==> order@.contains(PassId(k as u32))),
                order@.no_duplicates(),
                forall|k: int| 0 <= k < order@.len() ==> (#[trigger] order@[k]).0 < n,
                forall|k: int, d: int|
                    #![trigger order@[k], g.passes[order@[k].0 as int].depends_on[d]]
                    0 <= k < order@.len() && 0 <= d < g.passes[order@[k].0 as int].depends_on.len()
                        ==> placed_before(order@, k, g.passes[order@[k].0 as int].depends_on[d]),
            ensures
                is_topological(g.passes, order@),
            decreases n - order@.len(),
        {
            proof {
                lemma_count_true_le(placed@);
            }
            let ghost start_placed = placed@;
            let start_len = order.len();
            let mut progress = false;
            let mut i: usize = 0;
            while i < n
                invariant
                    g == self@,
                    g.wf(),
                    n == g.passes.len(),
                    i <= n,
                    placed@.len() == n,
                    order@.len() == count_true(placed@),
                    forall|k: int| 0 <= k < n ==> (#[trigger] placed@[k] <==> order@.contains(PassId(k as u32))),
                    order@.no_duplicates(),
                    forall|k: int| 0 <= k < order@.len() ==> (#[trigger] order@[k]).0 < n,
                    forall|k: int, d: int|
                        #![trigger order@[k], g.passes[order@[k].0 as int].depends_on[d]]
                        0 <= k < order@.len() && 0 <= d < g.passes[order@[k].0 as int].depends_on.len()
                            ==> placed_before(order@, k, g.passes[order@[k].0 as int].depends_on[d]),
                    progress ==> order@.len() > start_len,
                    !progress ==> order@.len() == start_len && placed@ == start_placed,
                    !progress ==> forall|q: int|
                        #![trigger placed@[q]]
                        0 <= q < i ==> placed@[q] || exists|d: int|
                            0 <= d < g.passes[q].depends_on.len() && !((#[trigger] g.passes[q].depends_on[d]).0
                                < n && placed@[g.passes[q].depends_on[d].0 as int]),
                decreases n - i,
            {
                let deps = &self.passes[i].depends_on;
                assert(deps@ == g.passes[i as int].depends_on);
                if !placed[i] && Self::deps_placed(deps, &placed) {
                    let ghost before = order@;
                    let ghost pb = placed@;
                    proof {
                        lemma_count_true_set(placed@, i as int);
                    }
                    placed.set(i, true);
                    order.push(PassId(i as u32));
                    proof {
                        assert forall|k: int| 0 <= k < n implies (#[trigger] placed@[k] <==> order@.contains(
                            PassId(k as u32),
                        )) by {
                            if k != i {
                                assert(placed@[k] == pb[k]);
                                if order@.contains(PassId(k as u32)) {
                                    let j = choose|j: int| 0 <= j < order@.len() && order@[j] == PassId(k as u32);
                                    if j == before.len() {
                                        assert(PassId(k as u32) == PassId(i as u32));
                                    } else {
                                        assert(before[j] == order@[j]);
                                    }
                                }
                                if pb[k] {
                                    let j = choose|j: int| 0 <= j < before.len() && before[j] == PassId(k as u32);
                                    assert(order@[j] == before[j]);
                                }
                            } else {
                                assert(order@[before.len() as int] == PassId(i as u32));
                            }
                        }
                        assert forall|a: int, b: int| 0 <= a < b < order@.len() implies order@[a] != order@[b] by {
                            if b == before.len() {
                                assert(before.contains(before[a]));
                                assert(!pb[i as int]);
                                if before[a] == PassId(i as u32) {
                                    assert(before.contains(PassId(i as u32)));
                                }
                            }
                        }
                        assert forall|k: int, d: int|
                            #![trigger order@[k], g.passes[order@[k].0 as int].depends_on[d]]
                            0 <= k < order@.len() && 0 <= d < g.passes[order@[k].0 as int].depends_on.len()
                                implies placed_before(order@, k, g.passes[order@[k].0 as int].depends_on[d]) by {
                            if k < before.len() {
                                assert(order@[k] == before[k]);
                                assert(placed_before(before, k, g.passes[before[k].0 as int].depends_on[d]));
                                let j = choose|j: int| 0 <= j < k && before[j] == g.passes[before[k].0 as int].depends_on[d];
                                assert(order@[j] == before[j]);
                            } else {
                                let dep = g.passes[i as int].depends_on[d];
                                assert(dep == deps@[d]);
                                assert(pb[dep.0 as int]);
                                assert(before.contains(PassId(dep.0 as int as u32)));
                                let j = choose|j: int| 0 <= j < before.len() && before[j] == PassId(dep.0 as int as u32);
                                assert(order@[j] == before[j]);
                            }
                        }
                    }
                    progress = true;
                }
                i = i + 1;
            }
            proof {
                lemma_count_true_le(placed@);
            }
            if !progress {
                proof {
                    assert forall|q: int|
                        #![trigger g.passes[q]]
                        0 <= q < g.passes.len() && !order@.contains(PassId(q as u32)) implies exists|d: int|
                            0 <= d < g.passes[q].depends_on.len() && !order@.contains(#[trigger] g.passes[q].depends_on[d]) by {
                        assert(!placed@[q]);
                        let d = choose|d: int|
                            0 <= d < g.passes[q].depends_on.len() && !((#[trigger] g.passes[q].depends_on[d]).0 < n
                                && placed@[g.passes[q].depends_on[d].0 as int]);
                        let dep = g.passes[q].depends_on[d];
                        if order@.contains(dep) {
                            let j = choose|j: int| 0 <= j < order@.len() && order@[j] == dep;
                            assert(order@[j].0 < n);
                            assert(dep == PassId(dep.0 as int as u32));
                            assert(placed@[dep.0 as int]);
                        }
                    }
                }
                break;
            }
        }
        order
    }

    /// The enabled passes in execution order.  The order is recomputed when
    /// the graph changed since it was last computed.
    pub fn execution_order(&mut self) -> (order: Vec<&RenderPass>)
        requires
            old(self)@.wf(),
        ensures
            final(self)@.wf(),
            !final(self)@.stale,
            final(self)@.passes == old(self)@.passes,
            !old(self)@.stale ==> final(self)@.order == old(self)@.order,
            is_topological(final(self)@.passes, final(self)@.order),
            order@.map_values(|p: &RenderPass| p@) == enabled_in_order(final(self)@.passes, final(self)@.order),
    {
        if self.topo_dirty {
            self.topo_order = self.topological_sort();
            self.topo_dirty = false;
        }
        let ghost g = self@;
        let mut out: Vec<&RenderPass> = Vec::new();
        let mut k: usize = 0;
        while k < self.topo_order.len()
            invariant
                g == self@,
                k <= g.order.len(),
                out@.map_values(|p: &RenderPass| p@) == enabled_in_order(g.passes, g.order.subrange(0, k as int)),
            decreases g.order.len() - k,
        {
            let id = self.topo_order[k];
            assert(g.order.subrange(0, k + 1).drop_last() =~= g.order.subrange(0, k as int));
            let i = id.0 as usize;
            if i < self.passes.len() && self.passes[i].enabled {
                assert(self.passes@[i as int]@ == g.passes[i as int]);
                out.push(&self.passes[i]);
                assert(out@.map_values(|p: &RenderPass| p@) =~= enabled_in_order(g.passes, g.order.subrange(0, k as int)).push(
                    g.passes[i as int],
                ));
            } else {
                if i < self.passes.len() {
                    assert(self.passes@[i as int]@ == g.passes[i as int]);
                }
            }
            k = k + 1;
        }
        assert(g.order.subrange(0, g.order.len() as int) =~= g.order);
        out
    }
}

proof fn lemma_count_zero(s: Seq<bool>)
    requires
        forall|k: int| 0 <= k < s.len() ==> !#[trigger] s[k],
    ensures
        count_true(s) == 0,
    decreases s.len(),
{
    if s.len() > 0 {
        lemma_count_zero(s.drop_last());
    }
}

proof fn lemma_in_order(passes: Seq<PassView>, order: Seq<PassId>, rank: spec_fn(int) -> nat, i: int)
    requires
        is_topological(passes, order),
        (GraphView { passes, order, stale: false }).acyclic(rank),
        0 <= i < passes.len(),
        passes.len() <= u32::MAX,
    ensures
        order.contains(PassId(i as u32)),
    decreases rank(i),
{
    if !order.contains(PassId(i as u32)) {
        assert(passes[i] == passes[i]);
        let d = choose|d: int| 0 <= d < passes[i].depends_on.len() && !order.contains(#[trigger] passes[i].depends_on[d]);
        let dep = passes[i].depends_on[d];
        assert(dep.0 < passes.len() && rank(dep.0 as int) < rank(i));
        lemma_in_order(passes, order, rank, dep.0 as int);
        assert(dep == PassId(dep.0 as int as u32));
    }
}

/// When the passes are acyclic (every dependency exists and ranks below the
/// pass that waits for it), the execution order holds every pass.
pub proof fn lemma_acyclic_orders_all(g: GraphView, rank: spec_fn(int) -> nat, i: int)
    requires
        g.wf(),
        !g.stale,
        g.acyclic(rank),
        0 <= i < g.passes.len(),
    ensures
        g.order.contains(PassId(i as u32)),
{
    assert((GraphView { passes: g.passes, order: g.order, stale: false }).acyclic(rank));
    lemma_in_order(g.passes, g.order, rank, i);
}

/// The passes `enabled_in_order` lists are exactly the enabled passes whose
/// ids `order` holds.
proof fn lemma_enabled_members(passes: Seq<PassView>, order: Seq<PassId>)
    ensures
        forall|x: PassView|
            enabled_in_order(passes, order).contains(x) <==> exists|k: int|
                0 <= k < order.len() && (#[trigger] order[k]).0 < passes.len()
                    && passes[order[k].0 as int].enabled && x == passes[order[k].0 as int],
    decreases order.len(),
{
    if order.len() > 0 {
        let o = order.drop_last();
        lemma_enabled_members(passes, o);
        let rest = enabled_in_order(passes, o);
        let id = order.last();
        assert forall|x: PassView|
            enabled_in_order(passes, order).contains(x) <==> exists|k: int|
                0 <= k < order.len() && (#[trigger] order[k]).0 < passes.len()
                    && passes[order[k].0 as int].enabled && x == passes[order[k].0 as int] by {
            if id.0 < passes.len() && passes[id.0 as int].enabled {
                vstd::seq_lib::lemma_seq_contains_after_push(rest, passes[id.0 as int], x);
            }
            if exists|k: int|
                0 <= k < order.len() && (#[trigger] order[k]).0 < passes.len()
                    && passes[order[k].0 as int].enabled && x == passes[order[k].0 as int] {
                let k = choose|k: int|
                    0 <= k < order.len() && (#[trigger] order[k]).0 < passes.len()
                        && passes[order[k].0 as int].enabled && x == passes[order[k].0 as int];
                if k < order.len() - 1 {
                    assert(o[k] == order[k]);
                }
            }
            if exists|k: int|
                0 <= k < o.len() && (#[trigger] o[k]).0 < passes.len()
                    && passes[o[k].0 as int].enabled && x == passes[o[k].0 as int] {
                let k = choose|k: int|
                    0 <= k < o.len() && (#[trigger] o[k]).0 < passes.len()
                        && passes[o[k].0 as int].enabled && x == passes[o[k].0 as int];
                assert(order[k] == o[k]);
            }
        }
    }
}

/// With distinct ids in `order` and every pass carrying its own id, the
/// passes `enabled_in_order` lists have distinct ids.
proof fn lemma_enabled_distinct(passes: Seq<PassView>, order: Seq<PassId>)
    requires
        order.no_duplicates(),
        forall|i: int| 0 <= i < passes.len() ==> (#[trigger] passes[i]).id == PassId(i as u32),
    ensures
        forall|a: int, b: int|
            0 <= a < b < enabled_in_order(passes, order).len() ==> enabled_in_order(passes, order)[a].id
                != enabled_in_order(passes, order)[b].id,
    decreases order.len(),
{
    if order.len() > 0 {
        let o = order.drop_last();
        assert(o.no_duplicates()) by {
            assert forall|a: int, b: int| 0 <= a < o.len() && 0 <= b < o.len() && a != b implies o[a] != o[b] by {
                assert(o[a] == order[a] && o[b] == order[b]);
            }
        }
        lemma_enabled_distinct(passes, o);
        lemma_enabled_members(passes, o);
        let rest = enabled_in_order(passes, o);
        let id = order.last();
        if id.0 < passes.len() && passes[id.0 as int].enabled {
            let e = enabled_in_order(passes, order);
            assert forall|a: int, b: int| 0 <= a < b < e.len() implies e[a].id != e[b].id by {
                if b == e.len() - 1 {
                    assert(rest.contains(e[a]));
                    let k = choose|k: int|
                        0 <= k < o.len() && (#[trigger] o[k]).0 < passes.len()
                            && passes[o[k].0 as int].enabled && e[a] == passes[o[k].0 as int];
                    assert(o[k] == order[k]);
                    assert(order[k] != order[order.len() - 1]);
                    assert(e[a].id == PassId(o[k].0));
                    assert(e[b] == passes[id.0 as int]);
                    assert(e[b].id == PassId(id.0));
                } else {
                    assert(e[a] == rest[a] && e[b] == rest[b]);
                }
            }
        }
    }
}

/// The `a`-th and `b`-th passes `enabled_in_order` lists come from entries
/// `ka < kb` of `order`.
spec fn from_entries(passes: Seq<PassView>, order: Seq<PassId>, a: int, b: int) -> bool {
    exists|ka: int, kb: int|
        0 <= ka < kb < order.len() && order[ka].0 < passes.len() && order[kb].0 < passes.len()
            && enabled_in_order(passes, order)[a] == passes[order[ka].0 as int]
            && enabled_in_order(passes, order)[b] == passes[order[kb].0 as int]
}

/// The passes `enabled_in_order` lists keep the order of their ids in
/// `order`: of two listed passes, the earlier comes from an earlier entry.
proof fn lemma_enabled_positions(passes: Seq<PassView>, order: Seq<PassId>)
    ensures
        forall|a: int, b: int|
            0 <= a < b < enabled_in_order(passes, order).len() ==> #[trigger] from_entries(
                passes,
                order,
                a,
                b,
            ),
    decreases order.len(),
{
    if order.len() > 0 {
        let o = order.drop_last();
        lemma_enabled_positions(passes, o);
        lemma_enabled_members(passes, o);
        let rest = enabled_in_order(passes, o);
        let e = enabled_in_order(passes, order);
        let id = order.last();
        assert forall|a: int, b: int| 0 <= a < b < e.len() implies #[trigger] from_entries(
            passes,
            order,
            a,
            b,
        ) by {
            if id.0 < passes.len() && passes[id.0 as int].enabled && b == e.len() - 1 {
                assert(e[a] == rest[a]);
                assert(rest.contains(e[a]));
                let k = choose|k: int|
                    0 <= k < o.len() && (#[trigger] o[k]).0 < passes.len()
                        && passes[o[k].0 as int].enabled && e[a] == passes[o[k].0 as int];
                assert(o[k] == order[k]);
                assert(e[b] == passes[order[order.len() - 1].0 as int]);
                assert(0 <= k < order.len() - 1);
            } else {
                assert(e[a] == rest[a] && e[b] == rest[b]);
                assert(from_entries(passes, o, a, b));
                let (ka, kb) = choose|ka: int, kb: int|
                    0 <= ka < kb < o.len() && o[ka].0 < passes.len() && o[kb].0 < passes.len()
                        && rest[a] == passes[o[ka].0 as int] && rest[b] == passes[o[kb].0 as int];
                assert(o[ka] == order[ka] && o[kb] == order[kb]);
            }
        }
    }
}

/// The execution order of an acyclic graph lists every enabled pass exactly
/// once and no disabled pass, and each listed pass comes after every listed
/// pass it depends on.
pub proof fn lemma_execution_order_exact(g: GraphView, rank: spec_fn(int) -> nat, i: int)
    requires
        g.wf(),
        !g.stale,
        g.acyclic(rank),
        0 <= i < g.passes.len(),
    ensures
        enabled_in_order(g.passes, g.order).contains(g.passes[i]) <==> g.passes[i].enabled,
        forall|a: int, b: int|
            0 <= a < b < enabled_in_order(g.passes, g.order).len() ==> enabled_in_order(
                g.passes,
                g.order,
            )[a].id != enabled_in_order(g.passes, g.order)[b].id,
        forall|a: int, b: int|
            0 <= a < enabled_in_order(g.passes, g.order).len() && 0 <= b < enabled_in_order(
                g.passes,
                g.order,
            ).len() && (#[trigger] enabled_in_order(g.passes, g.order)[a]).depends_on.contains(
                (#[trigger] enabled_in_order(g.passes, g.order)[b]).id,
            ) ==> b < a,
{
    lemma_acyclic_orders_all(g, rank, i);
    lemma_enabled_members(g.passes, g.order);
    lemma_enabled_distinct(g.passes, g.order);
    lemma_enabled_positions(g.passes, g.order);
    let e = enabled_in_order(g.passes, g.order);
    assert forall|a: int, b: int|
        0 <= a < e.len() && 0 <= b < e.len() && (#[trigger] e[a]).depends_on.contains(
            (#[trigger] e[b]).id,
        ) implies b < a by {
        if b == a {
            assert(e.contains(e[a]));
            let q = choose|q: int|
                0 <= q < g.order.len() && (#[trigger] g.order[q]).0 < g.passes.len()
                    && g.passes[g.order[q].0 as int].enabled && e[a] == g.passes[g.order[q].0 as int];
            let j = g.order[q].0 as int;
            assert(g.passes[j].id == PassId(j as u32));
            let d = choose|d: int| 0 <= d < e[a].depends_on.len() && e[a].depends_on[d] == e[a].id;
            assert(g.passes[j].depends_on[d] == PassId(j as u32));
            assert(false);
        } else if b > a {
            assert(from_entries(g.passes, g.order, a, b));
            let (ka, kb) = choose|ka: int, kb: int|
                0 <= ka < kb < g.order.len() && g.order[ka].0 < g.passes.len() && g.order[kb].0
                    < g.passes.len() && e[a] == g.passes[g.order[ka].0 as int] && e[b]
                    == g.passes[g.order[kb].0 as int];
            let ja = g.order[ka].0 as int;
            let jb = g.order[kb].0 as int;
            assert(g.passes[jb].id == PassId(jb as u32));
            assert(e[b].id == g.order[kb]);
            let d = choose|d: int| 0 <= d < e[a].depends_on.len() && e[a].depends_on[d] == e[b].id;
            assert(g.passes[g.order[ka].0 as int].depends_on[d] == g.order[kb]);
            assert(placed_before(g.order, ka, g.passes[g.order[ka].0 as int].depends_on[d]));
            let j = choose|j: int| 0 <= j < ka && g.order[j] == g.order[kb];
            assert(false);
        }
    }
    let k = choose|k: int| 0 <= k < g.order.len() && g.order[k] == PassId(i as u32);
    assert(g.order[k].0 == i);
    if enabled_in_order(g.passes, g.order).contains(g.passes[i]) {
        let q = choose|q: int|
            0 <= q < g.order.len() && (#[trigger] g.order[q]).0 < g.passes.len()
                && g.passes[g.order[q].0 as int].enabled && g.passes[i] == g.passes[g.order[q].0 as int];
        assert(g.passes[g.order[q].0 as int].id == PassId(g.order[q].0));
        assert(g.passes[i].id == PassId(i as u32));
    }
}

} // verus!
