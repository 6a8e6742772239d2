//! Scene-object store: persistent visual entities (rectangles, circles,
//! complex paths, text) with batch creation, animation modes, spatial
//! selection, bulk mutation and flat-buffer export.
//!
//! Coordinates, sizes and angles are fixed-point integers: milliunits on
//! the canvas, milliradians for rotation, a scale of 1000 for the
//! per-axis scale factors.

use vstd::prelude::*;

verus! {

use crate::fixed::{
    TAU_MILLI, imin, imax, min_i64, max_i64, div_trunc, div_trunc_i64, sin_milli_spec,
    cos_milli_spec, sin_milli, cos_milli,
};
use crate::rng::rand_u64_in;

/// Smallest canvas side (exclusive) on which objects can still be placed
/// with their margin.
pub const MIN_CANVAS: i64 = 150000;

/// Largest canvas side accepted, in milliunits.
pub const MAX_CANVAS: i64 = 2000000000;

/// Cap on the store size, so that counters fit their machine words.
pub const MAX_OBJECTS: usize = 100000000;

/// Entries per object in the exported flat buffer.
pub const FIELDS_PER_OBJECT: usize = 11;

/// Heuristic per-object footprint used for the memory estimate.
pub const OBJECT_FOOTPRINT_BYTES: u64 = 80;

/// Saturation horizon for drifting positions: far outside any canvas,
/// close enough to zero to keep every product in machine range.
pub const POS_LIMIT: i64 = 1000000000000;

#[derive(Clone, Copy, PartialEq, Eq, Structural, Debug)]
pub enum ObjectType {
    Rectangle,
    Circle,
    ComplexPath,
    Text,
}

impl ObjectType {
    /// Numeric tag under which the kind travels in buffers.
    pub open spec fn tag_spec(self) -> u8 {
        match self {
            ObjectType::Rectangle => 0,
            ObjectType::Circle => 1,
            ObjectType::ComplexPath => 2,
            ObjectType::Text => 3,
        }
    }

    pub fn tag(self) -> (t: u8)
        ensures
            t == self.tag_spec(),
    {
        match self {
            ObjectType::Rectangle => 0,
            ObjectType::Circle => 1,
            ObjectType::ComplexPath => 2,
            ObjectType::Text => 3,
        }
    }
}

/// Per-tick animation rule applied to every visible object.
#[derive(Clone, Copy, PartialEq, Eq, Structural, Debug)]
pub enum AnimationMode {
    Static,
    Rotating,
    Scaling,
    Stress,
}

#[derive(Clone, Copy, PartialEq, Eq, Structural, Debug)]
pub struct CanvasObject {
    pub id: u32,
    pub object_type: u8,
    /// Anchor position, milliunits.
    pub x: i64,
    pub y: i64,
    /// Size, milliunits.
    pub width: i64,
    pub height: i64,
    /// Rotation, milliradians in `[0, TAU_MILLI)`.
    pub rotation: i64,
    /// Per-axis scale, in thousandths.
    pub scale_x: i64,
    pub scale_y: i64,
    /// Packed 0xRRGGBB colour.
    pub color: u32,
    pub selected: bool,
    pub visible: bool,
}

/// Range invariants every stored object keeps.
pub open spec fn obj_wf(o: CanvasObject) -> bool {
    &&& -POS_LIMIT <= o.x <= POS_LIMIT
    &&& -POS_LIMIT <= o.y <= POS_LIMIT
    &&& 30000 <= o.width < 80000
    &&& 30000 <= o.height < 80000
    &&& 0 <= o.rotation < TAU_MILLI
    &&& 200 <= o.scale_x <= 1500
    &&& 200 <= o.scale_y <= 1500
}

pub open spec fn count_visible(s: Seq<CanvasObject>) -> nat
    decreases s.len(),
{
    if s.len() == 0 {
        0
    } else {
        count_visible(s.drop_last()) + (if s.last().visible {
            1nat
        } else {
            0nat
        })
    }
}

pub open spec fn count_selected(s: Seq<CanvasObject>) -> nat
    decreases s.len(),
{
    if s.len() == 0 {
        0
    } else {
        count_selected(s.drop_last()) + (if s.last().selected {
            1nat
        } else {
            0nat
        })
    }
}

pub proof fn lemma_counts_le_len(s: Seq<CanvasObject>)
    ensures
        count_visible(s) <= s.len(),
        count_selected(s) <= s.len(),
    decreases s.len(),
{
    if s.len() > 0 {
        lemma_counts_le_len(s.drop_last());
    }
}

/// A prefix one longer splits off its last element.
pub proof fn lemma_take_one_more<T>(s: Seq<T>, i: int)
    requires
        0 <= i < s.len(),
    ensures
        s.take(i + 1).drop_last() == s.take(i),
        s.take(i + 1).last() == s[i],
{
    assert(s.take(i + 1).drop_last() =~= s.take(i));
}

/// The fixed eight-entry colour palette objects are drawn from.
pub open spec fn palette_spec(k: int) -> u32 {
    if k == 0 {
        0xFF6B6B
    } else if k == 1 {
        0x4ECDC4
    } else if k == 2 {
        0x45B7D1
    } else if k == 3 {
        0x96CEB4
    } else if k == 4 {
        0xFECA57
    } else if k == 5 {
        0xFF9FF3
    } else if k == 6 {
        0x54A0FF
    } else {
        0x5F27CD
    }
}

pub open spec fn is_palette_color(c: u32) -> bool {
    exists|k: int| 0 <= k < 8 && c == #[trigger] palette_spec(k)
}

pub proof fn lemma_palette_witness(k: int)
    requires
        0 <= k < 8,
    ensures
        is_palette_color(palette_spec(k)),
{
    assert(0 <= k < 8 && palette_spec(k) == palette_spec(k));
}

fn palette_color(k: u64) -> (c: u32)
    requires
        k < 8,
    ensures
        c == palette_spec(k as int),
        is_palette_color(c),
{
    proof {
        lemma_palette_witness(k as int);
    }
    if k == 0 {
        0xFF6B6B
    } else if k == 1 {
        0x4ECDC4
    } else if k == 2 {
        0x45B7D1
    } else if k == 3 {
        0x96CEB4
    } else if k == 4 {
        0xFECA57
    } else if k == 5 {
        0xFF9FF3
    } else if k == 6 {
        0x54A0FF
    } else {
        0x5F27CD
    }
}

/// What batch creation promises of each new object: the assigned id and
/// kind tag, placement inside the canvas margin, randomized size and
/// scale inside their ranges, a palette colour, unrotated, unselected,
/// visible.
pub open spec fn fresh_object(o: CanvasObject, id: u32, tag: u8, w: int, h: int) -> bool {
    &&& o.id == id
    &&& o.object_type == tag
    &&& 50000 <= o.x < w - 100000
    &&& 50000 <= o.y < h - 100000
    &&& 30000 <= o.width < 80000
    &&& 30000 <= o.height < 80000
    &&& o.rotation == 0
    &&& 500 <= o.scale_x < 1500
    &&& 500 <= o.scale_y < 1500
    &&& is_palette_color(o.color)
    &&& !o.selected
    &&& o.visible
}

/// Which kind tag the `k`-th object of a mixed batch carries: first the
/// rectangles, then the circles, then the complex paths.
pub open spec fn batch_tag(k: int, rectangles: int, circles: int) -> u8 {
    if k < rectangles {
        ObjectType::Rectangle.tag_spec()
    } else if k < rectangles + circles {
        ObjectType::Circle.tag_spec()
    } else {
        ObjectType::ComplexPath.tag_spec()
    }
}

/// The same object with its selected flag replaced.
pub open spec fn with_selected(o: CanvasObject, sel: bool) -> CanvasObject {
    CanvasObject { selected: sel, ..o }
}

/// Whether a visible object's anchor point falls inside the inclusive
/// rectangle spanned by two opposite corners, in either corner order.
pub open spec fn in_rect(o: CanvasObject, x1: int, y1: int, x2: int, y2: int) -> bool {
    &&& o.visible
    &&& imin(x1, x2) <= o.x <= imax(x1, x2)
    &&& imin(y1, y2) <= o.y <= imax(y1, y2)
}

/// Ids of the objects inside the rectangle, in store order.
pub open spec fn ids_in_rect(s: Seq<CanvasObject>, x1: int, y1: int, x2: int, y2: int) -> Seq<
    u32,
>
    decreases s.len(),
{
    if s.len() == 0 {
        Seq::empty()
    } else {
        ids_in_rect(s.drop_last(), x1, y1, x2, y2) + (if in_rect(s.last(), x1, y1, x2, y2) {
            seq![s.last().id]
        } else {
            Seq::empty()
        })
    }
}

/// Law: spatial selection does not depend on the order in which the two
/// rectangle corners are given — the normalized rectangle, the per-object
/// membership and the returned ids all agree.
pub proof fn lemma_select_corner_order(s: Seq<CanvasObject>, x1: int, y1: int, x2: int, y2: int)
    ensures
        forall|i: int|
            0 <= i < s.len() ==> in_rect(#[trigger] s[i], x1, y1, x2, y2) == in_rect(
                s[i],
                x2,
                y2,
                x1,
                y1,
            ),
        ids_in_rect(s, x1, y1, x2, y2) == ids_in_rect(s, x2, y2, x1, y1),
    decreases s.len(),
{
    if s.len() > 0 {
        lemma_select_corner_order(s.drop_last(), x1, y1, x2, y2);
    }
}

/// One translated-and-clamped coordinate: after the move, the span
/// `[coord, coord + side]` lies inside `[0, bound]`.
pub open spec fn move_coord(x: int, d: int, bound: int, side: int) -> int {
    imin(imax(x + d, 0), bound - side)
}

/// The whole-object effect of a bulk move: selected, visible objects
/// translate and clamp; everything else is untouched.
pub open spec fn moved_object(o: CanvasObject, dx: int, dy: int, w: int, h: int) -> CanvasObject {
    if o.selected && o.visible {
        CanvasObject {
            x: move_coord(o.x as int, dx, w, o.width as int) as i64,
            y: move_coord(o.y as int, dy, h, o.height as int) as i64,
            ..o
        }
    } else {
        o
    }
}

/// Law: a moved object's bounding box never leaves the canvas — for any
/// object no wider or taller than the canvas, the clamped position keeps
/// `[x, x + width]` inside `[0, w]` and `[y, y + height]` inside `[0, h]`.
pub proof fn lemma_move_keeps_bbox(o: CanvasObject, dx: int, dy: int, w: int, h: int)
    requires
        o.selected && o.visible,
        0 < o.width <= w <= MAX_CANVAS,
        0 < o.height <= h <= MAX_CANVAS,
    ensures
        0 <= moved_object(o, dx, dy, w, h).x,
        moved_object(o, dx, dy, w, h).x + o.width <= w,
        0 <= moved_object(o, dx, dy, w, h).y,
        moved_object(o, dx, dy, w, h).y + o.height <= h,
{
}

/// The survivors of a deletion: the subsequence of unselected objects,
/// in their original order.
pub open spec fn retain_unselected(s: Seq<CanvasObject>) -> Seq<CanvasObject>
    decreases s.len(),
{
    if s.len() == 0 {
        s
    } else {
        retain_unselected(s.drop_last()) + (if s.last().selected {
            Seq::empty()
        } else {
            seq![s.last()]
        })
    }
}

/// Deletion keeps exactly the unselected objects: the survivor count is
/// the store size minus the selected count, and well-formedness, the id
/// bound and the strict id order all carry over.
pub proof fn lemma_retain_wf(s: Seq<CanvasObject>, bound: u32)
    requires
        forall|i: int| 0 <= i < s.len() ==> obj_wf(#[trigger] s[i]),
        forall|i: int| 0 <= i < s.len() ==> (#[trigger] s[i]).id < bound,
        forall|i: int, j: int| 0 <= i < j < s.len() ==> s[i].id < s[j].id,
    ensures
        retain_unselected(s).len() + count_selected(s) == s.len(),
        forall|i: int|
            0 <= i < retain_unselected(s).len() ==> obj_wf(#[trigger] retain_unselected(s)[i]),
        forall|i: int|
            0 <= i < retain_unselected(s).len() ==> (#[trigger] retain_unselected(s)[i]).id
                < bound,
        forall|i: int, j: int|
            0 <= i < j < retain_unselected(s).len() ==> retain_unselected(s)[i].id
                < retain_unselected(s)[j].id,
    decreases s.len(),
{
    if s.len() > 0 {
        let butlast = s.drop_last();
        lemma_retain_wf(butlast, bound);
        if !s.last().selected {
            lemma_retain_wf(butlast, s.last().id);
        }
    }
}

/// Law: deleting after selecting everything empties the store.
pub proof fn lemma_delete_all_selected(s: Seq<CanvasObject>)
    requires
        forall|i: int| 0 <= i < s.len() ==> (#[trigger] s[i]).selected,
    ensures
        retain_unselected(s).len() == 0,
    decreases s.len(),
{
    if s.len() > 0 {
        lemma_delete_all_selected(s.drop_last());
    }
}

/// Law: in a well-formed store, ids strictly increase along the store,
/// sit below the id counter, and are therefore pairwise distinct — an id
/// is never reused within one store lifetime.
pub proof fn lemma_ids_unique(sim: &CanvasSimulation)
    requires
        sim.wf(),
    ensures
        forall|i: int, j: int|
            0 <= i < sim.objects@.len() && 0 <= j < sim.objects@.len() && i != j
                ==> sim.objects@[i].id != sim.objects@[j].id,
        forall|i: int| 0 <= i < sim.objects@.len() ==> (#[trigger] sim.objects@[i]).id < sim.next_id,
{
    assert forall|i: int, j: int|
        0 <= i < sim.objects@.len() && 0 <= j < sim.objects@.len() && i != j implies sim.objects@[i].id
        != sim.objects@[j].id by {
        if i < j {
            assert(sim.objects@[i].id < sim.objects@[j].id);
        } else {
            assert(sim.objects@[j].id < sim.objects@[i].id);
        }
    }
}

/// Placeholder memory probe kept at the export surface; live tracking is
/// not wired up, so it reports zero.
pub fn get_memory_usage() -> (r: u32)
    ensures
        r == 0,
{
    0
}

/// Saturation of a drifting coordinate at the far horizon, so the
/// oscillation drift can never push a position out of machine range.
pub open spec fn sat_pos(v: int) -> int {
    imin(imax(v, -POS_LIMIT as int), POS_LIMIT as int)
}

/// One tick of the rotation mode on one object: visible objects turn at
/// half a milliradian per millisecond, wrapped into `[0, TAU_MILLI)`.
pub open spec fn rotating_step(o: CanvasObject, delta_ms: int) -> CanvasObject {
    if o.visible {
        CanvasObject { rotation: ((o.rotation + delta_ms / 2) % 6283) as i64, ..o }
    } else {
        o
    }
}

/// One tick of the scaling mode on one object: a sinusoidal scale around
/// one half, phase-shifted by the object's index so pulses stay
/// unsynchronized.
pub open spec fn scaling_step(o: CanvasObject, i: int, now_ms: int) -> CanvasObject {
    if o.visible {
        let s = 500 + div_trunc(300 * sin_milli_spec(now_ms + i * 100), 1000);
        CanvasObject { scale_x: s as i64, scale_y: s as i64, ..o }
    } else {
        o
    }
}

/// One tick of the stress mode: rotation, sinusoidal scale and a circular
/// positional oscillation at once. The oscillation is centred on the
/// object's current (already drifted) position, so it drifts tick by
/// tick; that mirrors the mode's observed behaviour and is covered by a
/// test rather than recentred.
pub open spec fn stress_step(o: CanvasObject, i: int, delta_ms: int, now_ms: int) -> CanvasObject {
    if o.visible {
        let rot = (o.rotation + 3 * delta_ms / 10) % 6283;
        let s = 400 + div_trunc(200 * sin_milli_spec(now_ms + i * 100), 1000);
        let px = sat_pos(o.x + 20 * cos_milli_spec(now_ms / 2 + i * 200));
        let py = sat_pos(o.y + 20 * sin_milli_spec(now_ms / 2 + i * 200));
        CanvasObject {
            rotation: rot as i64,
            scale_x: s as i64,
            scale_y: s as i64,
            x: px as i64,
            y: py as i64,
            ..o
        }
    } else {
        o
    }
}

/// The fixed field tuple one object contributes to the export buffer.
pub open spec fn obj_fields(o: CanvasObject) -> Seq<i64> {
    seq![
        o.id as i64,
        o.object_type as i64,
        o.x,
        o.y,
        o.width,
        o.height,
        o.rotation,
        o.scale_x,
        o.scale_y,
        o.color as i64,
        (if o.selected {
            1i64
        } else {
            0i64
        }),
    ]
}

/// The export buffer: the field tuples of the visible objects, in store
/// order.
pub open spec fn export_spec(s: Seq<CanvasObject>) -> Seq<i64>
    decreases s.len(),
{
    if s.len() == 0 {
        Seq::empty()
    } else {
        export_spec(s.drop_last()) + (if s.last().visible {
            obj_fields(s.last())
        } else {
            Seq::empty()
        })
    }
}

/// Law: the export buffer's length is exactly the per-object field count
/// times the number of visible objects.
pub proof fn lemma_export_len(s: Seq<CanvasObject>)
    ensures
        export_spec(s).len() == FIELDS_PER_OBJECT * count_visible(s),
    decreases s.len(),
{
    if s.len() > 0 {
        lemma_export_len(s.drop_last());
    }
}

/// Derived performance snapshot; recomputed on demand, never stored.
#[derive(Clone, Copy, PartialEq, Eq, Structural, Debug)]
pub struct PerformanceMetrics {
    pub object_count: u32,
    pub visible_objects: u32,
    pub selected_objects: u32,
    pub update_time_ms: u32,
    pub memory_usage_bytes: u64,
}

pub struct CanvasSimulation {
    pub objects: Vec<CanvasObject>,
    pub next_id: u32,
    pub canvas_width: i64,
    pub canvas_height: i64,
    pub last_update_time: u32,
}

impl CanvasSimulation {
    /// Store invariant: canvas bounds in range, objects well formed, and
    /// ids strictly increasing along the store and below the counter —
    /// so an id, once handed out, is never reused.
    pub open spec fn wf(&self) -> bool {
        &&& MIN_CANVAS < self.canvas_width <= MAX_CANVAS
        &&& MIN_CANVAS < self.canvas_height <= MAX_CANVAS
        &&& self.objects@.len() <= MAX_OBJECTS
        &&& forall|i: int|
            0 <= i < self.objects@.len() ==> obj_wf(#[trigger] self.objects@[i])
        &&& forall|i: int|
            0 <= i < self.objects@.len() ==> (#[trigger] self.objects@[i]).id < self.next_id
        &&& forall|i: int, j: int|
            0 <= i < j < self.objects@.len() ==> self.objects@[i].id < self.objects@[j].id
    }

    pub fn new() -> (s: CanvasSimulation)
        ensures
            s.wf(),
            s.objects@.len() == 0,
            s.next_id == 0,
            s.canvas_width == 1920000,
            s.canvas_height == 1080000,
            s.last_update_time == 0,
    {
        CanvasSimulation {
            objects: Vec::new(),
            next_id: 0,
            canvas_width: 1920000,
            canvas_height: 1080000,
            last_update_time: 0,
        }
    }

    pub fn set_canvas_size(&mut self, width: i64, height: i64)
        requires
            old(self).wf(),
            MIN_CANVAS < width <= MAX_CANVAS,
            MIN_CANVAS < height <= MAX_CANVAS,
        ensures
            final(self).wf(),
            final(self).canvas_width == width,
            final(self).canvas_height == height,
            final(self).objects == old(self).objects,
            final(self).next_id == old(self).next_id,
            final(self).last_update_time == old(self).last_update_time,
    {
        self.canvas_width = width;
        self.canvas_height = height;
    }

    /// Empties the store and resets the id counter, so ids start over.
    pub fn clear_objects(&mut self)
        requires
            old(self).wf(),
        ensures
            final(self).wf(),
            final(self).objects@.len() == 0,
            final(self).next_id == 0,
            final(self).canvas_width == old(self).canvas_width,
            final(self).canvas_height == old(self).canvas_height,
            final(self).last_update_time == old(self).last_update_time,
    {
        self.objects.clear();
        self.next_id = 0;
    }

    pub fn get_object_count(&self) -> (n: u32)
        requires
            self.wf(),
        ensures
            n == self.objects@.len(),
    {
        self.objects.len() as u32
    }

    pub fn get_visible_count(&self) -> (n: u32)
        requires
            self.wf(),
        ensures
            n == count_visible(self.objects@),
    {
        let s = Ghost(self.objects@);
        let mut n: u32 = 0;
        let mut i: usize = 0;
        proof {
            lemma_counts_le_len(s@);
        }
        while i < self.objects.len()
            invariant
                self.wf(),
                s@ == self.objects@,
                0 <= i <= s@.len(),
                n == count_visible(s@.take(i as int)),
                n <= i,
            decreases s@.len() - i,
        {
            proof {
                lemma_take_one_more(s@, i as int);
            }
            if self.objects[i].visible {
                n = n + 1;
            }
            i = i + 1;
        }
        proof {
            assert(s@.take(s@.len() as int) =~= s@);
        }
        n
    }

    /// Records the wall-clock duration of the last update pass, measured
    /// by the caller around `update_transformations`.
    pub fn record_update_time(&mut self, ms: u32)
        requires
            old(self).wf(),
        ensures
            final(self).wf(),
            final(self).last_update_time == ms,
            final(self).objects == old(self).objects,
            final(self).next_id == old(self).next_id,
            final(self).canvas_width == old(self).canvas_width,
            final(self).canvas_height == old(self).canvas_height,
    {
        self.last_update_time = ms;
    }

    /// Creates `count` objects of one kind with sequential ids and
    /// randomized placement, size, scale and colour. Every id handed out
    /// is fresh: strictly above every id already in the store.
    pub fn create_objects(&mut self, count: u32, object_type: ObjectType) -> (ids: Vec<u32>)
        requires
            old(self).wf(),
            old(self).next_id + count <= u32::MAX,
            old(self).objects@.len() + count <= MAX_OBJECTS,
        ensures
            final(self).wf(),
            final(self).objects@.len() == old(self).objects@.len() + count,
            forall|i: int|
                0 <= i < old(self).objects@.len() ==> final(self).objects@[i] == old(
                    self,
                ).objects@[i],
            forall|i: int|
                old(self).objects@.len() <= i < final(self).objects@.len() ==> fresh_object(
                    #[trigger] final(self).objects@[i],
                    (old(self).next_id + (i - old(self).objects@.len())) as u32,
                    object_type.tag_spec(),
                    old(self).canvas_width as int,
                    old(self).canvas_height as int,
                ),
            final(self).next_id == old(self).next_id + count,
            final(self).canvas_width == old(self).canvas_width,
            final(self).canvas_height == old(self).canvas_height,
            final(self).last_update_time == old(self).last_update_time,
            ids@.len() == count,
            forall|k: int| 0 <= k < count ==> ids@[k] == old(self).next_id + k,
    {
        let ghost old_objs = self.objects@;
        let ghost old_next = self.next_id;
        let ghost old_w = self.canvas_width;
        let ghost old_h = self.canvas_height;
        let ghost old_lut = self.last_update_time;
        let old_len: usize = self.objects.len();
        let tag: u8 = object_type.tag();
        let mut ids: Vec<u32> = Vec::new();
        let mut k: u32 = 0;
        while k < count
            invariant
                self.wf(),
                old_len == old_objs.len(),
                self.canvas_width == old_w,
                self.canvas_height == old_h,
                self.last_update_time == old_lut,
                0 <= k <= count,
                old_next + count <= u32::MAX,
                old_objs.len() + count <= MAX_OBJECTS,
                self.objects@.len() == old_objs.len() + k,
                forall|i: int| 0 <= i < old_objs.len() ==> self.objects@[i] == old_objs[i],
                forall|j: int|
                    old_objs.len() <= j < self.objects@.len() ==> fresh_object(
                        #[trigger] self.objects@[j],
                        (old_next + (j - old_objs.len())) as u32,
                        tag,
                        self.canvas_width as int,
                        self.canvas_height as int,
                    ),
                self.next_id == old_next + k,
                ids@.len() == k,
                forall|j: int| 0 <= j < k ==> ids@[j] == old_next + j,
            decreases count - k,
        {
            let x: i64 = rand_u64_in(50000, (self.canvas_width - 100000) as u64) as i64;
            let y: i64 = rand_u64_in(50000, (self.canvas_height - 100000) as u64) as i64;
            let width: i64 = rand_u64_in(30000, 80000) as i64;
            let height: i64 = rand_u64_in(30000, 80000) as i64;
            let scale_x: i64 = rand_u64_in(500, 1500) as i64;
            let scale_y: i64 = rand_u64_in(500, 1500) as i64;
            let color: u32 = palette_color(rand_u64_in(0, 8));
            let object = CanvasObject {
                id: self.next_id,
                object_type: tag,
                x,
                y,
                width,
                height,
                rotation: 0,
                scale_x,
                scale_y,
                color,
                selected: false,
                visible: true,
            };
            self.objects.push(object);
            ids.push(self.next_id);
            self.next_id = self.next_id + 1;
            k = k + 1;
        }
        ids
    }

    /// Creates rectangles, circles and complex paths in one batch and
    /// reports how many objects were made in all.
    pub fn batch_create_test_objects(
        &mut self,
        rectangles: u32,
        circles: u32,
        complex_paths: u32,
    ) -> (total: u32)
        requires
            old(self).wf(),
            old(self).next_id + rectangles + circles + complex_paths <= u32::MAX,
            old(self).objects@.len() + rectangles + circles + complex_paths <= MAX_OBJECTS,
        ensures
            final(self).wf(),
            total == rectangles + circles + complex_paths,
            final(self).objects@.len() == old(self).objects@.len() + total,
            final(self).next_id == old(self).next_id + total,
            forall|i: int|
                0 <= i < old(self).objects@.len() ==> final(self).objects@[i] == old(
                    self,
                ).objects@[i],
            forall|i: int|
                old(self).objects@.len() <= i < final(self).objects@.len() ==> fresh_object(
                    #[trigger] final(self).objects@[i],
                    (old(self).next_id + (i - old(self).objects@.len())) as u32,
                    batch_tag(i - old(self).objects@.len(), rectangles as int, circles as int),
                    old(self).canvas_width as int,
                    old(self).canvas_height as int,
                ),
            final(self).canvas_width == old(self).canvas_width,
            final(self).canvas_height == old(self).canvas_height,
    {
        self.create_objects(rectangles, ObjectType::Rectangle);
        self.create_objects(circles, ObjectType::Circle);
        self.create_objects(complex_paths, ObjectType::ComplexPath);
        rectangles + circles + complex_paths
    }

    /// Memory-pressure exercise: creates a batch of rectangles, then
    /// removes a per-mille share of the store at random indices.
    pub fn memory_stress_test(&mut self, create_count: u32, destroy_permille: u32)
        requires
            old(self).wf(),
            destroy_permille <= 1000,
            old(self).next_id + create_count <= u32::MAX,
            old(self).objects@.len() + create_count <= MAX_OBJECTS,
        ensures
            final(self).wf(),
            final(self).objects@.len() == (old(self).objects@.len() + create_count) - (
            (old(self).objects@.len() + create_count) * destroy_permille / 1000),
            final(self).next_id == old(self).next_id + create_count,
            final(self).canvas_width == old(self).canvas_width,
            final(self).canvas_height == old(self).canvas_height,
    {
        self.create_objects(create_count, ObjectType::Rectangle);
        let total: usize = self.objects.len();
        proof {
            assert((total as int) * (destroy_permille as int) <= (total as int) * 1000
                <= 100000000int * 1000) by (nonlinear_arith)
                requires destroy_permille <= 1000, 0 <= total <= 100000000int;
            assert((total as int) * 1000 / 1000 == total as int) by {
                vstd::arithmetic::div_mod::lemma_div_multiples_vanish(total as int, 1000);
            }
            vstd::arithmetic::div_mod::lemma_div_is_ordered(
                (total as int) * (destroy_permille as int),
                (total as int) * 1000,
                1000,
            );
        }
        let destroy_count: usize = ((total as u64) * (destroy_permille as u64) / 1000) as usize;
        let mut d: usize = 0;
        while d < destroy_count
            invariant
                self.wf(),
                destroy_count <= total,
                0 <= d <= destroy_count,
                self.objects@.len() == total - d,
                self.next_id == old(self).next_id + create_count,
                self.canvas_width == old(self).canvas_width,
                self.canvas_height == old(self).canvas_height,
            decreases destroy_count - d,
        {
            let ghost prev = self.objects@;
            let len: usize = self.objects.len();
            let index: usize = rand_u64_in(0, len as u64) as usize;
            self.objects.remove(index);
            proof {
                assert forall|a: int, b: int|
                    0 <= a < b < self.objects@.len() implies self.objects@[a].id
                    < self.objects@[b].id by {
                    assert(self.objects@[a] == if a < index {
                        prev[a]
                    } else {
                        prev[a + 1]
                    });
                    assert(self.objects@[b] == if b < index {
                        prev[b]
                    } else {
                        prev[b + 1]
                    });
                }
                assert forall|a: int| 0 <= a < self.objects@.len() implies obj_wf(
                    #[trigger] self.objects@[a],
                ) && self.objects@[a].id < self.next_id by {
                    assert(self.objects@[a] == if a < index {
                        prev[a]
                    } else {
                        prev[a + 1]
                    });
                }
            }
            d = d + 1;
        }
    }

    /// Applies one animation step to every visible object. The wall
    /// clock drives the oscillation phases and is handed in by the
    /// caller; the elapsed time of the pass is recorded separately
    /// through `record_update_time`.
    pub fn update_transformations(&mut self, delta_ms: u32, mode: AnimationMode, now_ms: u64)
        requires
            old(self).wf(),
            now_ms <= 1000000000000000,
        ensures
            final(self).wf(),
            final(self).objects@.len() == old(self).objects@.len(),
            mode == AnimationMode::Static ==> final(self).objects == old(self).objects,
            mode == AnimationMode::Rotating ==> forall|i: int|
                0 <= i < old(self).objects@.len() ==> final(self).objects@[i] == rotating_step(
                    #[trigger] old(self).objects@[i],
                    delta_ms as int,
                ),
            mode == AnimationMode::Scaling ==> forall|i: int|
                0 <= i < old(self).objects@.len() ==> final(self).objects@[i] == scaling_step(
                    #[trigger] old(self).objects@[i],
                    i,
                    now_ms as int,
                ),
            mode == AnimationMode::Stress ==> forall|i: int|
                0 <= i < old(self).objects@.len() ==> final(self).objects@[i] == stress_step(
                    #[trigger] old(self).objects@[i],
                    i,
                    delta_ms as int,
                    now_ms as int,
                ),
            final(self).next_id == old(self).next_id,
            final(self).canvas_width == old(self).canvas_width,
            final(self).canvas_height == old(self).canvas_height,
            final(self).last_update_time == old(self).last_update_time,
    {
        let ghost s = self.objects@;
        match mode {
            AnimationMode::Static => {},
            AnimationMode::Rotating => {
                let step: u32 = delta_ms / 2;
                let mut i: usize = 0;
                while i < self.objects.len()
                    invariant
                        self.wf(),
                        self.objects@.len() == s.len(),
                        0 <= i <= s.len(),
                        step == delta_ms / 2,
                        forall|j: int|
                            0 <= j < i ==> self.objects@[j] == rotating_step(
                                #[trigger] s[j],
                                delta_ms as int,
                            ),
                        forall|j: int| i <= j < s.len() ==> self.objects@[j] == s[j],
                        self.next_id == old(self).next_id,
                        self.canvas_width == old(self).canvas_width,
                        self.canvas_height == old(self).canvas_height,
                        self.last_update_time == old(self).last_update_time,
                    decreases s.len() - i,
                {
                    let o = self.objects[i];
                    if o.visible {
                        let mut updated = o;
                        updated.rotation = (((o.rotation as u64) + (step as u64)) % 6283) as i64;
                        self.objects[i] = updated;
                    }
                    i = i + 1;
                }
            },
            AnimationMode::Scaling => {
                let mut i: usize = 0;
                while i < self.objects.len()
                    invariant
                        self.wf(),
                        self.objects@.len() == s.len(),
                        0 <= i <= s.len(),
                        now_ms <= 1000000000000000,
                        forall|j: int|
                            0 <= j < i ==> self.objects@[j] == scaling_step(
                                #[trigger] s[j],
                                j,
                                now_ms as int,
                            ),
                        forall|j: int| i <= j < s.len() ==> self.objects@[j] == s[j],
                        self.next_id == old(self).next_id,
                        self.canvas_width == old(self).canvas_width,
                        self.canvas_height == old(self).canvas_height,
                        self.last_update_time == old(self).last_update_time,
                    decreases s.len() - i,
                {
                    let o = self.objects[i];
                    if o.visible {
                        let phase: u64 = now_ms + (i as u64) * 100;
                        let sv: i64 = sin_milli(phase);
                        let sc: i64 = 500 + div_trunc_i64(300 * sv, 1000);
                        proof {
                            crate::fixed::lemma_div_trunc_bounds(300 * sv as int, 1000, 300000);
                        }
                        let mut updated = o;
                        updated.scale_x = sc;
                        updated.scale_y = sc;
                        self.objects[i] = updated;
                    }
                    i = i + 1;
                }
            },
            AnimationMode::Stress => {
                let mut i: usize = 0;
                while i < self.objects.len()
                    invariant
                        self.wf(),
                        self.objects@.len() == s.len(),
                        0 <= i <= s.len(),
                        now_ms <= 1000000000000000,
                        forall|j: int|
                            0 <= j < i ==> self.objects@[j] == stress_step(
                                #[trigger] s[j],
                                j,
                                delta_ms as int,
                                now_ms as int,
                            ),
                        forall|j: int| i <= j < s.len() ==> self.objects@[j] == s[j],
                        self.next_id == old(self).next_id,
                        self.canvas_width == old(self).canvas_width,
                        self.canvas_height == old(self).canvas_height,
                        self.last_update_time == old(self).last_update_time,
                    decreases s.len() - i,
                {
                    let o = self.objects[i];
                    if o.visible {
                        let rot_step: u64 = (3 * (delta_ms as u64)) / 10;
                        let scale_phase: u64 = now_ms + (i as u64) * 100;
                        let osc_phase: u64 = now_ms / 2 + (i as u64) * 200;
                        let sv: i64 = sin_milli(scale_phase);
                        let sc: i64 = 400 + div_trunc_i64(200 * sv, 1000);
                        let cv: i64 = cos_milli(osc_phase);
                        let ov: i64 = sin_milli(osc_phase);
                        proof {
                            crate::fixed::lemma_div_trunc_bounds(200 * sv as int, 1000, 200000);
                        }
                        let mut updated = o;
                        updated.rotation = (((o.rotation as u64) + rot_step) % 6283) as i64;
                        updated.scale_x = sc;
                        updated.scale_y = sc;
                        updated.x = min_i64(max_i64(o.x + 20 * cv, -POS_LIMIT), POS_LIMIT);
                        updated.y = min_i64(max_i64(o.y + 20 * ov, -POS_LIMIT), POS_LIMIT);
                        self.objects[i] = updated;
                    }
                    i = i + 1;
                }
            },
        }
    }

    /// Marks every visible object whose anchor lies in the (corner-order
    /// independent, inclusive) rectangle as selected, additively, and
    /// returns their ids in store order.
    pub fn select_objects_in_area(&mut self, x1: i64, y1: i64, x2: i64, y2: i64) -> (ids: Vec<
        u32,
    >)
        requires
            old(self).wf(),
        ensures
            final(self).wf(),
            final(self).objects@.len() == old(self).objects@.len(),
            forall|i: int|
                0 <= i < old(self).objects@.len() ==> final(self).objects@[i] == with_selected(
                    #[trigger] old(self).objects@[i],
                    old(self).objects@[i].selected || in_rect(
                        old(self).objects@[i],
                        x1 as int,
                        y1 as int,
                        x2 as int,
                        y2 as int,
                    ),
                ),
            ids@ == ids_in_rect(old(self).objects@, x1 as int, y1 as int, x2 as int, y2 as int),
            final(self).next_id == old(self).next_id,
            final(self).canvas_width == old(self).canvas_width,
            final(self).canvas_height == old(self).canvas_height,
            final(self).last_update_time == old(self).last_update_time,
    {
        let ghost s = self.objects@;
        let min_x: i64 = min_i64(x1, x2);
        let max_x: i64 = max_i64(x1, x2);
        let min_y: i64 = min_i64(y1, y2);
        let max_y: i64 = max_i64(y1, y2);
        let mut ids: Vec<u32> = Vec::new();
        let mut i: usize = 0;
        while i < self.objects.len()
            invariant
                self.wf(),
                self.objects@.len() == s.len(),
                0 <= i <= s.len(),
                min_x == imin(x1 as int, x2 as int),
                max_x == imax(x1 as int, x2 as int),
                min_y == imin(y1 as int, y2 as int),
                max_y == imax(y1 as int, y2 as int),
                forall|j: int|
                    0 <= j < i ==> self.objects@[j] == with_selected(
                        #[trigger] s[j],
                        s[j].selected || in_rect(s[j], x1 as int, y1 as int, x2 as int, y2 as int),
                    ),
                forall|j: int| i <= j < s.len() ==> self.objects@[j] == s[j],
                ids@ == ids_in_rect(s.take(i as int), x1 as int, y1 as int, x2 as int, y2 as int),
                self.next_id == old(self).next_id,
                self.canvas_width == old(self).canvas_width,
                self.canvas_height == old(self).canvas_height,
                self.last_update_time == old(self).last_update_time,
            decreases s.len() - i,
        {
            proof {
                lemma_take_one_more(s, i as int);
            }
            let o = self.objects[i];
            if o.visible && o.x >= min_x && o.x <= max_x && o.y >= min_y && o.y <= max_y {
                let mut updated = o;
                updated.selected = true;
                self.objects[i] = updated;
                ids.push(o.id);
            }
            i = i + 1;
        }
        proof {
            assert(s.take(s.len() as int) =~= s);
        }
        ids
    }

    /// Unsets the selected flag on every object.
    pub fn clear_selections(&mut self)
        requires
            old(self).wf(),
        ensures
            final(self).wf(),
            final(self).objects@.len() == old(self).objects@.len(),
            forall|i: int|
                0 <= i < old(self).objects@.len() ==> final(self).objects@[i] == with_selected(
                    #[trigger] old(self).objects@[i],
                    false,
                ),
            final(self).next_id == old(self).next_id,
            final(self).canvas_width == old(self).canvas_width,
            final(self).canvas_height == old(self).canvas_height,
            final(self).last_update_time == old(self).last_update_time,
    {
        let ghost s = self.objects@;
        let mut i: usize = 0;
        while i < self.objects.len()
            invariant
                self.wf(),
                self.objects@.len() == s.len(),
                0 <= i <= s.len(),
                forall|j: int| 0 <= j < i ==> self.objects@[j] == with_selected(#[trigger] s[j], false),
                forall|j: int| i <= j < s.len() ==> self.objects@[j] == s[j],
                self.next_id == old(self).next_id,
                self.canvas_width == old(self).canvas_width,
                self.canvas_height == old(self).canvas_height,
                self.last_update_time == old(self).last_update_time,
            decreases s.len() - i,
        {
            let mut updated = self.objects[i];
            updated.selected = false;
            self.objects[i] = updated;
            i = i + 1;
        }
    }

    /// Translates every selected, visible object, then clamps it so its
    /// whole bounding box stays inside the canvas.
    pub fn move_selected_objects(&mut self, delta_x: i64, delta_y: i64)
        requires
            old(self).wf(),
            -POS_LIMIT <= delta_x <= POS_LIMIT,
            -POS_LIMIT <= delta_y <= POS_LIMIT,
        ensures
            final(self).wf(),
            final(self).objects@.len() == old(self).objects@.len(),
            forall|i: int|
                0 <= i < old(self).objects@.len() ==> final(self).objects@[i] == moved_object(
                    #[trigger] old(self).objects@[i],
                    delta_x as int,
                    delta_y as int,
                    old(self).canvas_width as int,
                    old(self).canvas_height as int,
                ),
            final(self).next_id == old(self).next_id,
            final(self).canvas_width == old(self).canvas_width,
            final(self).canvas_height == old(self).canvas_height,
            final(self).last_update_time == old(self).last_update_time,
    {
        let ghost s = self.objects@;
        let mut i: usize = 0;
        while i < self.objects.len()
            invariant
                self.wf(),
                self.objects@.len() == s.len(),
                0 <= i <= s.len(),
                -POS_LIMIT <= delta_x <= POS_LIMIT,
                -POS_LIMIT <= delta_y <= POS_LIMIT,
                forall|j: int|
                    0 <= j < i ==> self.objects@[j] == moved_object(
                        #[trigger] s[j],
                        delta_x as int,
                        delta_y as int,
                        self.canvas_width as int,
                        self.canvas_height as int,
                    ),
                forall|j: int| i <= j < s.len() ==> self.objects@[j] == s[j],
                self.next_id == old(self).next_id,
                self.canvas_width == old(self).canvas_width,
                self.canvas_height == old(self).canvas_height,
                self.last_update_time == old(self).last_update_time,
            decreases s.len() - i,
        {
            let o = self.objects[i];
            if o.selected && o.visible {
                let mut updated = o;
                updated.x = min_i64(max_i64(o.x + delta_x, 0), self.canvas_width - o.width);
                updated.y = min_i64(max_i64(o.y + delta_y, 0), self.canvas_height - o.height);
                self.objects[i] = updated;
            }
            i = i + 1;
        }
    }

    /// Removes every selected object outright (no tombstones), keeping
    /// the survivors in their relative order; returns how many went.
    pub fn delete_selected_objects(&mut self) -> (removed: u32)
        requires
            old(self).wf(),
        ensures
            final(self).wf(),
            final(self).objects@ == retain_unselected(old(self).objects@),
            removed == count_selected(old(self).objects@),
            final(self).objects@.len() + removed == old(self).objects@.len(),
            final(self).next_id == old(self).next_id,
            final(self).canvas_width == old(self).canvas_width,
            final(self).canvas_height == old(self).canvas_height,
            final(self).last_update_time == old(self).last_update_time,
    {
        let ghost s = self.objects@;
        let mut kept: Vec<CanvasObject> = Vec::new();
        let mut i: usize = 0;
        while i < self.objects.len()
            invariant
                self.wf(),
                s == self.objects@,
                0 <= i <= s.len(),
                kept@ == retain_unselected(s.take(i as int)),
                kept@.len() + count_selected(s.take(i as int)) == i,
            decreases s.len() - i,
        {
            proof {
                lemma_take_one_more(s, i as int);
            }
            let o = self.objects[i];
            if !o.selected {
                kept.push(o);
            }
            i = i + 1;
        }
        proof {
            assert(s.take(s.len() as int) =~= s);
            lemma_counts_le_len(s);
            lemma_retain_wf(s, old(self).next_id);
        }
        let removed: u32 = (self.objects.len() - kept.len()) as u32;
        self.objects = kept;
        removed
    }

    /// Serializes every visible object's fields, in store order, into one
    /// flat buffer (a value copy, never a view into the store).
    pub fn get_object_data(&self) -> (data: Vec<i64>)
        requires
            self.wf(),
        ensures
            data@ == export_spec(self.objects@),
    {
        let ghost s = self.objects@;
        let mut data: Vec<i64> = Vec::new();
        let mut i: usize = 0;
        while i < self.objects.len()
            invariant
                self.wf(),
                s == self.objects@,
                0 <= i <= s.len(),
                data@ == export_spec(s.take(i as int)),
            decreases s.len() - i,
        {
            proof {
                lemma_take_one_more(s, i as int);
            }
            let o = self.objects[i];
            if o.visible {
                data.push(o.id as i64);
                data.push(o.object_type as i64);
                data.push(o.x);
                data.push(o.y);
                data.push(o.width);
                data.push(o.height);
                data.push(o.rotation);
                data.push(o.scale_x);
                data.push(o.scale_y);
                data.push(o.color as i64);
                data.push(if o.selected { 1 } else { 0 });
                proof {
                    assert(data@ =~= export_spec(s.take(i as int)) + obj_fields(o));
                }
            }
            i = i + 1;
        }
        proof {
            assert(s.take(s.len() as int) =~= s);
        }
        data
    }

    /// Counts and the fixed-footprint memory estimate, derived on demand.
    pub fn get_performance_metrics(&self) -> (m: PerformanceMetrics)
        requires
            self.wf(),
        ensures
            m.object_count == self.objects@.len(),
            m.visible_objects == count_visible(self.objects@),
            m.selected_objects == count_selected(self.objects@),
            m.update_time_ms == self.last_update_time,
            m.memory_usage_bytes == self.objects@.len() * OBJECT_FOOTPRINT_BYTES,
    {
        let visible = self.get_visible_count();
        let s = Ghost(self.objects@);
        let mut selected: u32 = 0;
        let mut i: usize = 0;
        proof {
            lemma_counts_le_len(s@);
        }
        while i < self.objects.len()
            invariant
                self.wf(),
                s@ == self.objects@,
                0 <= i <= s@.len(),
                selected == count_selected(s@.take(i as int)),
                selected <= i,
            decreases s@.len() - i,
        {
            proof {
                lemma_take_one_more(s@, i as int);
            }
            if self.objects[i].selected {
                selected = selected + 1;
            }
            i = i + 1;
        }
        proof {
            assert(s@.take(s@.len() as int) =~= s@);
        }
        PerformanceMetrics {
            object_count: self.objects.len() as u32,
            visible_objects: visible,
            selected_objects: selected,
            update_time_ms: self.last_update_time,
            memory_usage_bytes: (self.objects.len() as u64) * OBJECT_FOOTPRINT_BYTES,
        }
    }
}

} // verus!
