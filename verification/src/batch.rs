//! Keys that group draw commands into GPU batches, and the plan of one
//! frame's batches: which batch each command joins and the order in which
//! the batches are drawn.

use vstd::prelude::*;

use crate::render::BlendMode;

verus! {

/// Blend mode encoded as a key (ordered, hashable) for [`BatchKey`].
#[derive(Debug, Clone, Copy, PartialEq, Eq, Structural, Hash, PartialOrd, Ord)]
pub enum BlendModeKey {
    /// No blending; the source colour replaces the destination.
    Opaque,
    /// Standard alpha blending.
    Alpha,
    /// Additive blending.
    Additive,
}

impl Default for BlendModeKey {
    fn default() -> (k: Self)
        ensures
            k == BlendModeKey::Opaque,
    {
        BlendModeKey::Opaque
    }
}

/// The key of each blend mode.
pub open spec fn blend_key(m: BlendMode) -> BlendModeKey {
    match m {
        BlendMode::Opaque => BlendModeKey::Opaque,
        BlendMode::Alpha => BlendModeKey::Alpha,
        BlendMode::Additive => BlendModeKey::Additive,
    }
}

impl From<BlendMode> for BlendModeKey {
    fn from(m: BlendMode) -> (k: Self) {
        match m {
            BlendMode::Opaque => BlendModeKey::Opaque,
            BlendMode::Alpha => BlendModeKey::Alpha,
            BlendMode::Additive => BlendModeKey::Additive,
        }
    }
}

impl vstd::std_specs::convert::FromSpecImpl<BlendMode> for BlendModeKey {
    open spec fn obeys_from_spec() -> bool {
        true
    }

    open spec fn from_spec(m: BlendMode) -> Self {
        blend_key(m)
    }
}

/// Groups draw calls that can be merged into a single GPU draw command.
#[derive(Debug, Clone, Copy, PartialEq, Eq, Structural, Hash)]
pub struct BatchKey {
    pub blend_mode: BlendModeKey,
    /// Reserved for texture binding.
    pub texture_id: u32,
    /// Reserved for a pipeline variant.
    pub pipeline_id: u32,
    /// Z-order bucket (lower is drawn first).
    pub z_order: u16,
    /// Clip region: 0 is no clip, above 0 an index into the clip registry.
    pub clip_id: u16,
}

impl Default for BatchKey {
    fn default() -> (k: Self)
        ensures
            k == (BatchKey {
                blend_mode: BlendModeKey::Opaque,
                texture_id: 0,
                pipeline_id: 0,
                z_order: 0,
                clip_id: 0,
            }),
    {
        BatchKey { blend_mode: BlendModeKey::Opaque, texture_id: 0, pipeline_id: 0, z_order: 0, clip_id: 0 }
    }
}

/// Rank of a blend mode in batch order (declaration order of the key).
pub open spec fn blend_rank(k: BlendModeKey) -> int {
    match k {
        BlendModeKey::Opaque => 0,
        BlendModeKey::Alpha => 1,
        BlendModeKey::Additive => 2,
    }
}

/// Whether a batch with key `a` is drawn strictly before one with key `b`:
/// by z-order, then by blend mode.
pub open spec fn key_before(a: BatchKey, b: BatchKey) -> bool {
    a.z_order < b.z_order || (a.z_order == b.z_order && blend_rank(a.blend_mode) < blend_rank(
        b.blend_mode,
    ))
}

/// Drawing precedence follows z-order, then the declaration order of the
/// blend modes (Opaque, then Alpha, then Additive): a batch is drawn
/// strictly before another exactly when its z-order is lower, or equal
/// with an earlier-declared blend mode.
pub proof fn lemma_key_before_order(a: BatchKey, b: BatchKey)
    ensures
        key_before(a, b) <==> (a.z_order < b.z_order || (a.z_order == b.z_order && (
        (a.blend_mode is Opaque && !(b.blend_mode is Opaque)) || (a.blend_mode is Alpha
            && b.blend_mode is Additive)))),
{
}

/// In every drawing order of a plan, of two batches at the same z-order
/// the one with the earlier-declared blend mode is drawn first: opaque
/// before alpha before additive.
pub proof fn lemma_order_by_blend(keys: Seq<BatchKey>, order: Seq<usize>, i: int, j: int)
    requires
        stable_order(keys, order),
        0 <= i < order.len(),
        0 <= j < order.len(),
        keys[order[i] as int].z_order == keys[order[j] as int].z_order,
        (keys[order[i] as int].blend_mode is Opaque && !(keys[order[j] as int].blend_mode is Opaque))
            || (keys[order[i] as int].blend_mode is Alpha && keys[order[j] as int].blend_mode is Additive),
    ensures
        i < j,
{
    if j < i {
        assert(!key_before(keys[order[i] as int], keys[order[j] as int]));
    }
}

fn key_before_exec(a: &BatchKey, b: &BatchKey) -> (r: bool)
    ensures
        r == key_before(*a, *b),
{
    let ra: u8 = match a.blend_mode {
        BlendModeKey::Opaque => 0,
        BlendModeKey::Alpha => 1,
        BlendModeKey::Additive => 2,
    };
    let rb: u8 = match b.blend_mode {
        BlendModeKey::Opaque => 0,
        BlendModeKey::Alpha => 1,
        BlendModeKey::Additive => 2,
    };
    a.z_order < b.z_order || (a.z_order == b.z_order && ra < rb)
}

/// `order` lists every index of `keys` once, in drawing order, and batches
/// that draw at the same rank keep the order in which they were created.
pub open spec fn stable_order(keys: Seq<BatchKey>, order: Seq<usize>) -> bool {
    &&& order.len() == keys.len()
    &&& forall|i: int| 0 <= i < order.len() ==> #[trigger] order[i] < keys.len()
    &&& forall|i: int, j: int| 0 <= i < j < order.len() ==> order[i] != order[j]
    &&& forall|i: int, j: int|
        0 <= i < j < order.len() ==> !key_before(keys[order[j] as int], keys[order[i] as int])
    &&& forall|i: int, j: int|
        0 <= i < j < order.len() && !key_before(keys[order[i] as int], keys[order[j] as int])
            ==> order[i] < order[j]
}

/// Abstract state of a [`BatchPlan`].
pub struct BatchPlanView {
    /// The batch keys, in creation order.
    pub keys: Seq<BatchKey>,
    pub z_order: u16,
    pub clip_id: u16,
    /// Entries of the clip registry (entry 0 is "no clip").
    pub clip_entries: nat,
    /// Whether a batch was created out of drawing order.
    pub sort_dirty: bool,
}

impl BatchPlanView {
    /// Keys are distinct, and unless a batch came out of order they are
    /// already in drawing order.
    pub open spec fn wf(self) -> bool {
        &&& forall|i: int, j: int| 0 <= i < j < self.keys.len() ==> self.keys[i] != self.keys[j]
        &&& !self.sort_dirty ==> forall|i: int, j: int|
            0 <= i < j < self.keys.len() ==> !key_before(self.keys[j], self.keys[i])
        &&& self.clip_entries >= 1
    }

    /// The key a draw with blend mode `m` gets now.
    pub open spec fn key_for(self, m: BlendMode) -> BatchKey {
        BatchKey {
            blend_mode: blend_key(m),
            texture_id: 0,
            pipeline_id: 0,
            z_order: self.z_order,
            clip_id: self.clip_id,
        }
    }
}

/// The batches of one frame being planned: their keys in creation order,
/// the z-order and clip region that new draws get, and the number of clip
/// regions registered.
pub struct BatchPlan {
    keys: Vec<BatchKey>,
    current_z: u16,
    current_clip_id: u16,
    clip_entries: usize,
    sort_dirty: bool,
}

impl View for BatchPlan {
    type V = BatchPlanView;

    closed spec fn view(&self) -> BatchPlanView {
        BatchPlanView {
            keys: self.keys@,
            z_order: self.current_z,
            clip_id: self.current_clip_id,
            clip_entries: self.clip_entries as nat,
            sort_dirty: self.sort_dirty,
        }
    }
}

impl BatchPlan {
    /// A plan with no batch, z-order 0, no clip and only the "no clip" entry.
    pub fn new() -> (p: Self)
        ensures
            p@.wf(),
            p@.keys.len() == 0,
            p@.z_order == 0,
            p@.clip_id == 0,
            p@.clip_entries == 1,
            !p@.sort_dirty,
    {
        BatchPlan { keys: Vec::new(), current_z: 0, current_clip_id: 0, clip_entries: 1, sort_dirty: false }
    }

    /// The keys of the batches, in creation order.
    pub fn keys(&self) -> (k: &[BatchKey])
        ensures
            k@ == self@.keys,
    {
        self.keys.as_slice()
    }

    /// The key of batch `pos`.
    pub fn key(&self, pos: usize) -> (k: BatchKey)
        requires
            pos < self@.keys.len(),
        ensures
            k == self@.keys[pos as int],
    {
        self.keys[pos]
    }

    /// Number of batches.
    pub fn len(&self) -> (n: usize)
        ensures
            n == self@.keys.len(),
    {
        self.keys.len()
    }

    /// Later draws go to z-order bucket `z`.
    pub fn set_z(&mut self, z: u16)
        requires
            old(self)@.wf(),
        ensures
            final(self)@.wf(),
            final(self)@ == (BatchPlanView { z_order: z, ..old(self)@ }),
    {
        self.current_z = z;
    }

    /// Registers a new clip region; later draws are clipped to it.  Its id
    /// is the number of entries registered before it, as a `u16`.
    pub fn push_clip(&mut self) -> (id: u16)
        requires
            old(self)@.wf(),
            old(self)@.clip_entries < usize::MAX,
        ensures
            final(self)@.wf(),
            id == old(self)@.clip_entries as u16,
            final(self)@ == (BatchPlanView {
                clip_id: id,
                clip_entries: old(self)@.clip_entries + 1,
                ..old(self)@
            }),
    {
        let id = self.clip_entries as u16;
        self.clip_entries = self.clip_entries + 1;
        self.current_clip_id = id;
        id
    }

    /// Later draws are clipped to the region with id `id` (0: no clip).
    pub fn set_clip(&mut self, id: u16)
        requires
            old(self)@.wf(),
        ensures
            final(self)@.wf(),
            final(self)@ == (BatchPlanView { clip_id: id, ..old(self)@ }),
    {
        self.current_clip_id = id;
    }

    /// The batch a draw with blend mode `m` joins: the one with the current
    /// key, created (last) when there is none yet.  Returns its position and
    /// whether it was created.
    pub fn batch_for(&mut self, m: BlendMode) -> (r: (usize, bool))
        requires
            old(self)@.wf(),
        ensures
            final(self)@.wf(),
            r.0 < final(self)@.keys.len(),
            final(self)@.keys[r.0 as int] == old(self)@.key_for(m),
            r.1 == !old(self)@.keys.contains(old(self)@.key_for(m)),
            r.1 ==> final(self)@ == (BatchPlanView {
                keys: old(self)@.keys.push(old(self)@.key_for(m)),
                sort_dirty: old(self)@.sort_dirty || (old(self)@.keys.len() > 0
                    && key_before(old(self)@.key_for(m), old(self)@.keys.last())),
                ..old(self)@
            }),
            !r.1 ==> final(self)@ == old(self)@,
    {
        let key = BatchKey {
            blend_mode: BlendModeKey::from(m),
            texture_id: 0,
            pipeline_id: 0,
            z_order: self.current_z,
            clip_id: self.current_clip_id,
        };
        let mut i: usize = 0;
        while i < self.keys.len()
            invariant
                i <= self.keys@.len(),
                key == old(self)@.key_for(m),
                self@ == old(self)@,
                old(self)@.wf(),
                forall|j: int| 0 <= j < i ==> self.keys@[j] != key,
            decreases self.keys@.len() - i,
        {
            if self.keys[i] == key {
                return (i, false);
            }
            i = i + 1;
        }
        if !self.sort_dirty && self.keys.len() > 0 {
            let last = self.keys.len() - 1;
            if key_before_exec(&key, &self.keys[last]) {
                self.sort_dirty = true;
            }
        }
        proof {
            let ks = old(self)@.keys;
            if !self.sort_dirty {
                assert forall|a: int, b: int| 0 <= a < b < ks.len() + 1 implies !key_before(
                    ks.push(key)[b],
                    ks.push(key)[a],
                ) by {
                    if b == ks.len() && ks.len() > 0 {
                        assert(!key_before(ks[b - 1], ks[a]) || a == b - 1);
                    }
                }
            }
        }
        self.keys.push(key);
        (self.keys.len() - 1, true)
    }

    /// The drawing order of the batches: sorted by z-order then blend mode,
    /// batches of the same rank in creation order.
    pub fn order(&self) -> (order: Vec<usize>)
        requires
            self@.wf(),
        ensures
            stable_order(self@.keys, order@),
    {
        let n = self.keys.len();
        let mut order: Vec<usize> = Vec::new();
        if !self.sort_dirty || n <= 1 {
            let mut i: usize = 0;
            while i < n
                invariant
                    n == self.keys@.len(),
                    self@.wf(),
                    !self.sort_dirty || n <= 1,
                    i <= n,
                    order@.len() == i,
                    forall|j: int| 0 <= j < i ==> order@[j] == j,
                decreases n - i,
            {
                order.push(i);
                i = i + 1;
            }
            return order;
        }
        let ghost keys = self.keys@;
        let mut i: usize = 0;
        while i < n
            invariant
                n == keys.len(),
                keys == self.keys@,
                i <= n,
                order@.len() == i,
                forall|a: int| 0 <= a < order@.len() ==> #[trigger] order@[a] < i,
                forall|a: int, b: int| 0 <= a < b < order@.len() ==> order@[a] != order@[b],
                forall|a: int, b: int|
                    0 <= a < b < order@.len() ==> !key_before(
                        keys[order@[b] as int],
                        keys[order@[a] as int],
                    ),
                forall|a: int, b: int|
                    0 <= a < b < order@.len() && !key_before(
                        keys[order@[a] as int],
                        keys[order@[b] as int],
                    ) ==> order@[a] < order@[b],
            decreases n - i,
        {
            let mut p: usize = 0;
            let mut found = false;
            while !found && p < order.len()
                invariant
                    n == keys.len(),
                    keys == self.keys@,
                    i < n,
                    p <= order@.len(),
                    forall|a: int| 0 <= a < order@.len() ==> #[trigger] order@[a] < i,
                    forall|a: int| 0 <= a < p ==> !key_before(keys[i as int], #[trigger] keys[order@[a] as int]),
                    found ==> p < order@.len() && key_before(keys[i as int], keys[order@[p as int] as int]),
                decreases order@.len() - p + (if found { 0int } else { 1int }),
            {
                if key_before_exec(&self.keys[i], &self.keys[order[p]]) {
                    found = true;
                } else {
                    p = p + 1;
                }
            }
            let ghost before = order@;
            order.insert(p, i);
            proof {
                assert(order@ == before.insert(p as int, i));
                assert forall|a: int| 0 <= a < order@.len() implies #[trigger] order@[a] < i + 1 by {
                    if a < p {
                        assert(order@[a] == before[a]);
                    } else if a > p {
                        assert(order@[a] == before[a - 1]);
                    }
                }
                assert forall|a: int, b: int| 0 <= a < b < order@.len() implies order@[a] != order@[b] by {
                    if a < p && b < p {
                        assert(order@[a] == before[a] && order@[b] == before[b]);
                    } else if a < p && b > p {
                        assert(order@[a] == before[a] && order@[b] == before[b - 1]);
                    } else if a > p && b > p {
                        assert(order@[a] == before[a - 1] && order@[b] == before[b - 1]);
                    } else if a == p {
                        assert(order@[b] == before[b - 1]);
                    } else {
                        assert(order@[a] == before[a]);
                    }
                }
                assert forall|a: int, b: int| 0 <= a < b < order@.len() implies !key_before(
                    keys[order@[b] as int],
                    keys[order@[a] as int],
                ) && (!key_before(keys[order@[a] as int], keys[order@[b] as int]) ==> order@[a]
                    < order@[b]) by {
                    if a < p && b < p {
                        assert(order@[a] == before[a] && order@[b] == before[b]);
                    } else if a < p && b > p {
                        assert(order@[a] == before[a] && order@[b] == before[b - 1]);
                    } else if a > p && b > p {
                        assert(order@[a] == before[a - 1] && order@[b] == before[b - 1]);
                    } else if a == p {
                        assert(order@[b] == before[b - 1]);
                        assert(key_before(keys[i as int], keys[before[p as int] as int]));
                        if b - 1 > p {
                            assert(!key_before(keys[before[b - 1] as int], keys[before[p as int] as int]));
                        }
                    } else {
                        assert(order@[a] == before[a]);
                        assert(!key_before(keys[i as int], keys[before[a] as int]));
                    }
                }
            }
            i = i + 1;
        }
        order
    }
}

/// Draws that get the same key share one batch: in a well-formed plan a key
/// has one position, so a second draw under the same z-order, clip and blend
/// mode joins the batch the first one created.
pub proof fn lemma_one_batch_per_key(v: BatchPlanView, m: BlendMode, pos: int)
    requires
        v.wf(),
        0 <= pos < v.keys.len(),
        v.keys[pos] == v.key_for(m),
    ensures
        forall|j: int| 0 <= j < v.keys.len() && v.keys[j] == v.key_for(m) ==> j == pos,
        v.keys.contains(v.key_for(m)),
{
    assert forall|j: int| 0 <= j < v.keys.len() && v.keys[j] == v.key_for(m) implies j == pos by {
        if j < pos {
            assert(v.keys[j] != v.keys[pos]);
        } else if j > pos {
            assert(v.keys[pos] != v.keys[j]);
        }
    }
    assert(v.keys[pos] == v.key_for(m));
}

} // verus!
