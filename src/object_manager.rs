use crate::camera::Camera;
use crate::transform::{boxes_meet, extent_box_of, hull_of, Aabb, Rotation, Transform};
use crate::vec2i::Vec2i;
use vstd::prelude::*;

verus! {

/// Width of the culling window around the camera, in world units: the screen
/// plus a margin of 200 on each side.
pub const SCREEN_WIDTH: i32 = 2120;

/// Height of the culling window around the camera, in world units.
pub const SCREEN_HEIGHT: i32 = 1280;

/// The handle of an entity in the registry. Handles are never reused.
#[derive(PartialEq, Eq, Structural, Debug, Clone, Copy, Hash)]
pub struct ObjectId {
    pub value: u64,
}

/// What the registry knows of an entity: its rectangle, if it has one, its
/// tags, the identity of the shader that draws it, and whether it is currently
/// borrowed elsewhere (then queries and tag removal pass it by).
pub struct Object {
    pub transform: Option<Transform>,
    pub tags: Vec<String>,
    pub shader: Option<u32>,
    pub collides: bool,
    pub busy: bool,
}

/// One step of drawing the working set: switch to a shader, or draw an entity.
#[derive(PartialEq, Eq, Structural, Debug, Clone, Copy)]
pub enum DrawCall {
    BindShader(u32),
    Draw(ObjectId),
}

/// The registry of entities: the master list in insertion order, the working
/// set of entities near the camera, and the camera.
pub struct ObjectManager {
    pub objects: Vec<(ObjectId, Object)>,
    pub objects_on_screen: Vec<ObjectId>,
    pub camera: Camera,
    pub screen_transform: Transform,
    pub next_id: u64,
}

/// The entity carries `tag`.
pub open spec fn has_tag(o: &Object, tag: Seq<char>) -> bool {
    exists|k: int| 0 <= k < o.tags@.len() && (#[trigger] o.tags@[k])@ == tag
}

/// The broad-phase test of the registry: the entity is not borrowed elsewhere,
/// has a rectangle, and the box around that rectangle meets `bounds`.
pub open spec fn visible(o: &Object, bounds: Aabb) -> bool {
    !o.busy && match o.transform {
        Some(t) => boxes_meet(hull_of(t), bounds),
        None => false,
    }
}

/// The handles, in master-list order, of the first `n` entities that are
/// visible in `bounds`; with `keep_first`, the first entity is kept whatever it is.
pub open spec fn culled(objs: Seq<(ObjectId, Object)>, bounds: Aabb, n: int, keep_first: bool) -> Seq<
    ObjectId,
>
    decreases n,
{
    if n <= 0 {
        Seq::empty()
    } else {
        let prev = culled(objs, bounds, n - 1, keep_first);
        if (keep_first && n == 1) || visible(&objs[n - 1].1, bounds) {
            prev.push(objs[n - 1].0)
        } else {
            prev
        }
    }
}

/// The indices of the first `n` entities that are visible in `bounds`, in order.
pub open spec fn culled_indices(objs: Seq<(ObjectId, Object)>, bounds: Aabb, n: int) -> Seq<usize>
    decreases n,
{
    if n <= 0 {
        Seq::empty()
    } else {
        let prev = culled_indices(objs, bounds, n - 1);
        if visible(&objs[n - 1].1, bounds) {
            prev.push((n - 1) as usize)
        } else {
            prev
        }
    }
}

/// Whether `remove_object_tag(tag)` keeps the entity at index `i`: the first
/// entity always stays, as does one that is borrowed elsewhere or lacks the tag.
pub open spec fn keeps(objs: Seq<(ObjectId, Object)>, i: int, tag: Seq<char>) -> bool {
    i == 0 || objs[i].1.busy || !has_tag(&objs[i].1, tag)
}

/// The first `n` entities that `remove_object_tag(tag)` keeps, in order.
pub open spec fn retained(objs: Seq<(ObjectId, Object)>, tag: Seq<char>, n: int) -> Seq<
    (ObjectId, Object),
>
    decreases n,
{
    if n <= 0 {
        Seq::empty()
    } else {
        let prev = retained(objs, tag, n - 1);
        if keeps(objs, n - 1, tag) {
            prev.push(objs[n - 1])
        } else {
            prev
        }
    }
}

/// The index of the entity with handle `id` among the first `n`, or -1.
pub open spec fn find_index(objs: Seq<(ObjectId, Object)>, id: ObjectId, n: int) -> int
    decreases n,
{
    if n <= 0 {
        -1
    } else {
        let prev = find_index(objs, id, n - 1);
        if prev >= 0 {
            prev
        } else if objs[n - 1].0 == id {
            n - 1
        } else {
            -1
        }
    }
}

/// The draw calls for the first `n` handles of `ws`, with `current` the shader
/// bound before them, and the shader bound after them. A handle no longer in
/// the registry is passed by; a shader is bound only when it differs from the
/// one bound last.
pub open spec fn draw_calls(
    objs: Seq<(ObjectId, Object)>,
    ws: Seq<ObjectId>,
    n: int,
    current: Option<u32>,
) -> (Seq<DrawCall>, Option<u32>)
    decreases n,
{
    if n <= 0 {
        (Seq::empty(), current)
    } else {
        let (prev, cur) = draw_calls(objs, ws, n - 1, current);
        let i = find_index(objs, ws[n - 1], objs.len() as int);
        if i < 0 {
            (prev, cur)
        } else {
            match objs[i].1.shader {
                Some(s) => if cur == Some(s) {
                    (prev.push(DrawCall::Draw(ws[n - 1])), cur)
                } else {
                    (prev.push(DrawCall::BindShader(s)).push(DrawCall::Draw(ws[n - 1])), Some(s))
                },
                None => (prev.push(DrawCall::Draw(ws[n - 1])), cur),
            }
        }
    }
}

/// Removing by tag keeps, in their order, exactly the entities that are first
/// in the list, borrowed elsewhere, or without the tag: `idx` lists the
/// original indices of what is kept, in increasing order.
pub proof fn lemma_retained_positions(objs: Seq<(ObjectId, Object)>, tag: Seq<char>, n: int) -> (idx:
    Seq<int>)
    requires
        0 <= n <= objs.len(),
    ensures
        idx.len() == retained(objs, tag, n).len(),
        forall|a: int|
            0 <= a < idx.len() ==> 0 <= #[trigger] idx[a] < n && retained(objs, tag, n)[a]
                == objs[idx[a]] && keeps(objs, idx[a], tag),
        forall|a: int, b: int| 0 <= a < b < idx.len() ==> #[trigger] idx[a] < #[trigger] idx[b],
        forall|k: int|
            0 <= k < n && #[trigger] keeps(objs, k, tag) ==> exists|a: int|
                0 <= a < idx.len() && #[trigger] idx[a] == k,
    decreases n,
{
    if n == 0 {
        Seq::empty()
    } else {
        let prev = lemma_retained_positions(objs, tag, n - 1);
        let idx = if keeps(objs, n - 1, tag) {
            prev.push(n - 1)
        } else {
            prev
        };
        assert forall|k: int| 0 <= k < n && #[trigger] keeps(objs, k, tag) implies exists|a: int|
            0 <= a < idx.len() && #[trigger] idx[a] == k by {
            if k == n - 1 {
                assert(idx[idx.len() - 1] == k);
            } else {
                let a = choose|a: int| 0 <= a < prev.len() && #[trigger] prev[a] == k;
                assert(idx[a] == k);
            }
        }
        idx
    }
}

/// The first entity survives removal by tag.
pub proof fn lemma_retained_keeps_first(objs: Seq<(ObjectId, Object)>, tag: Seq<char>)
    requires
        objs.len() > 0,
    ensures
        retained(objs, tag, objs.len() as int).len() > 0,
        retained(objs, tag, objs.len() as int)[0] == objs[0],
{
    let idx = lemma_retained_positions(objs, tag, objs.len() as int);
    assert(keeps(objs, 0, tag));
    let a = choose|a: int| 0 <= a < idx.len() && #[trigger] idx[a] == 0;
    if a > 0 {
        assert(idx[0] < idx[a]);
    }
}

/// The working set holds, in master-list order, exactly the handles of the
/// entities that pass the broad-phase test (and the first entity, with
/// `keep_first`): `idx` lists their indices in increasing order.
pub proof fn lemma_culled_positions(
    objs: Seq<(ObjectId, Object)>,
    bounds: Aabb,
    n: int,
    keep_first: bool,
) -> (idx: Seq<int>)
    requires
        0 <= n <= objs.len(),
    ensures
        idx.len() == culled(objs, bounds, n, keep_first).len(),
        forall|a: int|
            0 <= a < idx.len() ==> 0 <= #[trigger] idx[a] < n && culled(objs, bounds, n, keep_first)[a]
                == objs[idx[a]].0 && ((keep_first && idx[a] == 0) || visible(&objs[idx[a]].1, bounds)),
        forall|a: int, b: int| 0 <= a < b < idx.len() ==> #[trigger] idx[a] < #[trigger] idx[b],
        forall|k: int|
            0 <= k < n && ((keep_first && k == 0) || visible(#[trigger] &objs[k].1, bounds))
                ==> exists|a: int| 0 <= a < idx.len() && #[trigger] idx[a] == k,
    decreases n,
{
    if n == 0 {
        Seq::empty()
    } else {
        let prev = lemma_culled_positions(objs, bounds, n - 1, keep_first);
        let idx = if (keep_first && n == 1) || visible(&objs[n - 1].1, bounds) {
            prev.push(n - 1)
        } else {
            prev
        };
        assert forall|k: int|
            0 <= k < n && ((keep_first && k == 0) || visible(#[trigger] &objs[k].1, bounds))
                implies exists|a: int| 0 <= a < idx.len() && #[trigger] idx[a] == k by {
            if k == n - 1 {
                assert(idx[idx.len() - 1] == k);
            } else {
                let a = choose|a: int| 0 <= a < prev.len() && #[trigger] prev[a] == k;
                assert(idx[a] == k);
            }
        }
        idx
    }
}

/// Once a handle is found among the first `n` entities, looking further finds the same index.
proof fn lemma_find_stable(objs: Seq<(ObjectId, Object)>, id: ObjectId, n: int, m: int)
    requires
        0 <= n <= m,
        find_index(objs, id, n) >= 0,
    ensures
        find_index(objs, id, m) == find_index(objs, id, n),
    decreases m - n,
{
    if m > n {
        lemma_find_stable(objs, id, n, m - 1);
    }
}

impl Object {
    /// Its rectangle, if any, is well formed.
    pub open spec fn wf(&self) -> bool {
        match self.transform {
            Some(t) => t.wf(),
            None => true,
        }
    }

    /// Whether its rectangle, if any, is well formed (`wf`).
    pub fn is_valid(&self) -> (r: bool)
        ensures
            r == self.wf(),
    {
        match &self.transform {
            Some(t) => t.is_valid(),
            None => true,
        }
    }

    /// Whether the entity carries `tag`.
    pub fn has_tag(&self, tag: &String) -> (r: bool)
        ensures
            r == has_tag(self, tag@),
    {
        let mut k: usize = 0;
        while k < self.tags.len()
            invariant
                0 <= k <= self.tags@.len(),
                forall|j: int| 0 <= j < k ==> (#[trigger] self.tags@[j])@ != tag@,
            decreases self.tags@.len() - k,
        {
            if self.tags[k] == *tag {
                return true;
            }
            k += 1;
        }
        false
    }
}

impl ObjectManager {
    /// Handles are unique and below `next_id`, rectangles are well formed, and
    /// the culling window is the unrotated screen-sized rectangle.
    pub open spec fn wf(&self) -> bool {
        &&& forall|i: int, j: int|
            0 <= i < j < self.objects@.len() ==> (#[trigger] self.objects@[i]).0 != (
            #[trigger] self.objects@[j]).0
        &&& forall|i: int|
            0 <= i < self.objects@.len() ==> (#[trigger] self.objects@[i]).0.value < self.next_id
        &&& forall|i: int| 0 <= i < self.objects@.len() ==> (#[trigger] self.objects@[i]).1.wf()
        &&& self.camera.wf()
        &&& self.screen_transform.wf()
        &&& self.screen_transform.size == Vec2i { x: SCREEN_WIDTH, y: SCREEN_HEIGHT }
        &&& self.screen_transform.rotation == Rotation { cos: crate::transform::ONE, sin: 0 }
    }

    /// An empty registry with the camera at the origin.
    pub fn init() -> (r: Self)
        ensures
            r.wf(),
            r.objects@.len() == 0,
            r.objects_on_screen@.len() == 0,
            r.camera.position == (Vec2i { x: 0, y: 0 }),
    {
        let camera = Camera::new(Vec2i::new(0, 0));
        let screen_transform = Transform::new(
            camera.position,
            Vec2i::new(SCREEN_WIDTH, SCREEN_HEIGHT),
            Rotation::identity(),
        );
        Self {
            objects: Vec::new(),
            objects_on_screen: Vec::new(),
            camera,
            screen_transform,
            next_id: 0,
        }
    }

    /// Appends `object` to the master list and returns its new handle.
    pub fn add_object(&mut self, object: Object) -> (r: ObjectId)
        requires
            old(self).wf(),
            old(self).next_id < u64::MAX,
            object.wf(),
        ensures
            final(self).wf(),
            r.value == old(self).next_id,
            final(self).next_id == old(self).next_id + 1,
            final(self).objects@ == old(self).objects@.push((r, object)),
            final(self).objects_on_screen == old(self).objects_on_screen,
            final(self).camera == old(self).camera,
    {
        let id = ObjectId { value: self.next_id };
        self.objects.push((id, object));
        self.next_id = self.next_id + 1;
        id
    }

    /// Removes every entity that carries `tag`, except the first entity and
    /// those borrowed elsewhere, which stay. The others keep their order.
    pub fn remove_object_tag(&mut self, tag: String)
        requires
            old(self).wf(),
        ensures
            final(self).wf(),
            final(self).objects@ == retained(old(self).objects@, tag@, old(self).objects@.len() as int),
            final(self).objects_on_screen == old(self).objects_on_screen,
            final(self).camera == old(self).camera,
            final(self).next_id == old(self).next_id,
            final(self).screen_transform == old(self).screen_transform,
    {
        let ghost orig = self.objects@;
        let mut i: usize = 0;
        let ghost mut j: int = 0;
        while i < self.objects.len()
            invariant
                0 <= j <= orig.len(),
                i == retained(orig, tag@, j).len(),
                self.objects@ == retained(orig, tag@, j) + orig.subrange(j, orig.len() as int),
                j > 0 ==> i > 0,
                self.objects_on_screen == old(self).objects_on_screen,
                self.camera == old(self).camera,
                self.next_id == old(self).next_id,
                self.screen_transform == old(self).screen_transform,
                orig == old(self).objects@,
            decreases orig.len() - j,
        {
            assert(self.objects@[i as int] == orig[j]);
            let keep = i == 0 || self.objects[i].1.busy || !self.objects[i].1.has_tag(&tag);
            assert(keep == keeps(orig, j, tag@));
            if keep {
                i += 1;
            } else {
                self.objects.remove(i);
            }
            proof {
                j = j + 1;
                assert(self.objects@ =~= retained(orig, tag@, j) + orig.subrange(j, orig.len() as int));
            }
        }
        proof {
            assert(self.objects@ =~= retained(orig, tag@, orig.len() as int));
            let idx = lemma_retained_positions(orig, tag@, orig.len() as int);
            assert forall|a: int, b: int|
                0 <= a < b < self.objects@.len() implies (#[trigger] self.objects@[a]).0 != (
                #[trigger] self.objects@[b]).0 by {
                assert(idx[a] < idx[b]);
            }
            assert forall|a: int| 0 <= a < self.objects@.len() implies (#[trigger] self.objects@[a]).0.value
                < self.next_id && self.objects@[a].1.wf() by {
                assert(self.objects@[a] == orig[idx[a]]);
            }
        }
    }

    /// The handles, in master-list order, of the entities that pass the
    /// broad-phase test against `bounds`, the first entity included whatever it
    /// is when `keep_first` holds.
    fn ids_in_box(&self, bounds: &Aabb, keep_first: bool) -> (r: Vec<ObjectId>)
        requires
            self.wf(),
        ensures
            r@ == culled(self.objects@, *bounds, self.objects@.len() as int, keep_first),
    {
        let mut ids: Vec<ObjectId> = Vec::new();
        let mut i: usize = 0;
        while i < self.objects.len()
            invariant
                self.wf(),
                0 <= i <= self.objects@.len(),
                ids@ == culled(self.objects@, *bounds, i as int, keep_first),
            decreases self.objects@.len() - i,
        {
            let object = &self.objects[i].1;
            assert(object.wf());
            let in_view = if object.busy {
                false
            } else {
                match &object.transform {
                    Some(t) => t.hull().meets(bounds),
                    None => false,
                }
            };
            if (keep_first && i == 0) || in_view {
                ids.push(self.objects[i].0);
            }
            i += 1;
        }
        ids
    }

    /// The indices in the master list of the entities that pass the broad-phase
    /// test against `bounds`, in order.
    pub fn candidates_in_box(&self, bounds: &Aabb) -> (r: Vec<usize>)
        requires
            self.wf(),
        ensures
            r@ == culled_indices(self.objects@, *bounds, self.objects@.len() as int),
            forall|k: int| 0 <= k < r@.len() ==> #[trigger] r@[k] < self.objects@.len(),
    {
        let mut indices: Vec<usize> = Vec::new();
        let mut i: usize = 0;
        while i < self.objects.len()
            invariant
                self.wf(),
                0 <= i <= self.objects@.len(),
                indices@ == culled_indices(self.objects@, *bounds, i as int),
                forall|k: int| 0 <= k < indices@.len() ==> #[trigger] indices@[k] < i,
            decreases self.objects@.len() - i,
        {
            let object = &self.objects[i].1;
            assert(object.wf());
            let in_view = if object.busy {
                false
            } else {
                match &object.transform {
                    Some(t) => t.hull().meets(bounds),
                    None => false,
                }
            };
            if in_view {
                indices.push(i);
            }
            i += 1;
        }
        indices
    }

    /// The handles, in master-list order, of the entities whose rectangle passes
    /// the broad-phase test against `transform` (`overlaps_lazy`), skipping
    /// entities borrowed elsewhere and those without a rectangle.
    pub fn objects_in_bounds(&self, transform: &Transform) -> (r: Vec<ObjectId>)
        requires
            self.wf(),
            transform.wf(),
        ensures
            r@ == culled(self.objects@, extent_box_of(*transform), self.objects@.len() as int, false),
    {
        let bounds = transform.extent_box();
        self.ids_in_box(&bounds, false)
    }

    /// Starts a frame: centres the culling window on the camera, recomputes the
    /// working set (the first entity, and every entity near the camera, in
    /// master-list order) and advances the camera. Returns the first entity,
    /// which the caller ticks.
    pub fn tick(&mut self) -> (r: Option<ObjectId>)
        requires
            old(self).wf(),
        ensures
            final(self).wf(),
            final(self).objects@ == old(self).objects@,
            final(self).next_id == old(self).next_id,
            final(self).camera == old(self).camera,
            final(self).screen_transform.position == old(self).camera.position,
            final(self).objects_on_screen@ == culled(
                old(self).objects@,
                extent_box_of(final(self).screen_transform),
                old(self).objects@.len() as int,
                true,
            ),
            r == (if old(self).objects@.len() > 0 {
                Some(old(self).objects@[0].0)
            } else {
                None
            }),
    {
        self.screen_transform.position = self.camera.position;
        let bounds = self.screen_transform.extent_box();
        self.objects_on_screen = self.ids_in_box(&bounds, true);
        self.camera.tick();
        if self.objects.len() > 0 {
            Some(self.objects[0].0)
        } else {
            None
        }
    }

    /// The index of the entity with handle `id`, if it is in the registry.
    pub fn index_of(&self, id: ObjectId) -> (r: Option<usize>)
        ensures
            r is Some <==> find_index(self.objects@, id, self.objects@.len() as int) >= 0,
            r matches Some(i) ==> i == find_index(self.objects@, id, self.objects@.len() as int)
                && i < self.objects@.len() && self.objects@[i as int].0 == id,
    {
        let mut k: usize = 0;
        while k < self.objects.len()
            invariant
                0 <= k <= self.objects@.len(),
                find_index(self.objects@, id, k as int) == -1,
            decreases self.objects@.len() - k,
        {
            if self.objects[k].0 == id {
                proof {
                    lemma_find_stable(self.objects@, id, k + 1, self.objects@.len() as int);
                }
                return Some(k);
            }
            k += 1;
        }
        None
    }

    /// The calls that draw the working set in order, binding a shader only when
    /// it differs from the one bound last. Entities removed since the working
    /// set was computed are passed by.
    pub fn draw(&self) -> (r: Vec<DrawCall>)
        ensures
            r@ == draw_calls(
                self.objects@,
                self.objects_on_screen@,
                self.objects_on_screen@.len() as int,
                None,
            ).0,
    {
        let mut calls: Vec<DrawCall> = Vec::new();
        let mut current: Option<u32> = None;
        let mut n: usize = 0;
        while n < self.objects_on_screen.len()
            invariant
                0 <= n <= self.objects_on_screen@.len(),
                (calls@, current) == draw_calls(
                    self.objects@,
                    self.objects_on_screen@,
                    n as int,
                    None,
                ),
            decreases self.objects_on_screen@.len() - n,
        {
            let id = self.objects_on_screen[n];
            let ghost next = draw_calls(
                self.objects@,
                self.objects_on_screen@,
                n as int + 1,
                None,
            );
            match self.index_of(id) {
                None => {},
                Some(i) => {
                    match self.objects[i].1.shader {
                        Some(s) => {
                            let same = match current {
                                Some(c) => c == s,
                                None => false,
                            };
                            if !same {
                                calls.push(DrawCall::BindShader(s));
                                current = Some(s);
                            }
                        },
                        None => {},
                    }
                    calls.push(DrawCall::Draw(id));
                },
            }
            assert(calls@ =~= next.0);
            n += 1;
        }
        calls
    }

    /// Removes the entity with handle `id`, unless it is the first entity.
    /// Nothing changes when no other entity has that handle.
    pub fn remove_object(&mut self, id: ObjectId)
        requires
            old(self).wf(),
        ensures
            final(self).wf(),
            forall|i: int|
                1 <= i < old(self).objects@.len() && (#[trigger] old(self).objects@[i]).0 == id
                    ==> final(self).objects@ == old(self).objects@.remove(i),
            (forall|i: int|
                1 <= i < old(self).objects@.len() ==> (#[trigger] old(self).objects@[i]).0 != id)
                ==> final(self).objects@ == old(self).objects@,
            final(self).objects_on_screen == old(self).objects_on_screen,
            final(self).camera == old(self).camera,
            final(self).next_id == old(self).next_id,
    {
        let mut i: usize = 1;
        while i < self.objects.len()
            invariant
                self.wf(),
                *self == *old(self),
                1 <= i,
                forall|k: int| 1 <= k < i && k < self.objects@.len() ==> (#[trigger] self.objects@[k]).0 != id,
            decreases self.objects@.len() - i,
        {
            if self.objects[i].0 == id {
                let ghost before = self.objects@;
                self.objects.remove(i);
                proof {
                    assert forall|a: int, b: int|
                        0 <= a < b < self.objects@.len() implies (#[trigger] self.objects@[a]).0
                        != (#[trigger] self.objects@[b]).0 by {
                        let a2 = if a < i { a } else { a + 1 };
                        let b2 = if b < i { b } else { b + 1 };
                        assert(before[a2].0 != before[b2].0);
                    }
                    assert forall|k: int|
                        1 <= k < before.len() && (#[trigger] before[k]).0 == id implies k == i by {
                        if k != i {
                            if k < i {
                                assert(before[k].0 != before[i as int].0);
                            } else {
                                assert(before[i as int].0 != before[k].0);
                            }
                        }
                    }
                }
                return;
            }
            i += 1;
        }
    }
}

} // verus!
