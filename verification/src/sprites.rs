//! The instance store and group table for sprite groups.
//!
//! A [`SpriteGroup`] owns a pair of parallel semantic arrays (world
//! transforms and sheet regions) plus a model of the GPU-resident copies of
//! those arrays.  A group has a capacity (allocated slots) and a logical
//! length (active slots, never above the capacity); shrinking only moves the
//! logical bound, growing past the capacity reallocates both the host arrays
//! and the device buffers.
//!
//! A [`SpriteRenderer`] keeps the groups in a table whose indices stay
//! stable: removing a group leaves a tombstone in place, and the next
//! addition reuses the lowest tombstoned slot before appending a new one.

use crate::instance::GroupError;
use crate::instance::SheetRegion;
use crate::instance::TextureRef;
use crate::instance::Transform;
use vstd::prelude::*;

verus! {

/// Mathematical model of one group-table slot.
///
/// `trs`/`regs` are the host-side parallel arrays, `gtrs`/`gregs` the
/// modeled contents of the GPU-side buffers; all four always have the
/// capacity as their length.  `len` is the logical length.  A tombstoned
/// slot keeps its storage but has `live == false`.
#[verifier::ext_equal]
pub ghost struct GroupView {
    pub live: bool,
    pub tex: TextureRef,
    pub len: nat,
    pub trs: Seq<Transform>,
    pub regs: Seq<SheetRegion>,
    pub gtrs: Seq<Transform>,
    pub gregs: Seq<SheetRegion>,
}

impl GroupView {
    /// Allocated slots of the group; the four arrays all have this length.
    pub open spec fn cap(self) -> nat {
        self.trs.len()
    }

    /// The parallel arrays agree on the capacity and the logical length
    /// fits inside it.
    pub open spec fn wf(self) -> bool {
        &&& self.regs.len() == self.cap()
        &&& self.gtrs.len() == self.cap()
        &&& self.gregs.len() == self.cap()
        &&& self.len <= self.cap()
        &&& self.cap() <= usize::MAX
    }
}

/// `n` zeroed transforms.
pub open spec fn zero_transforms(n: int) -> Seq<Transform> {
    Seq::new(n as nat, |i: int| Transform::spec_zero())
}

/// `n` zeroed sheet regions.
pub open spec fn zero_regions(n: int) -> Seq<SheetRegion> {
    Seq::new(n as nat, |i: int| SheetRegion::spec_zero())
}

/// `dst` with `src` written over the window starting at `start`.
pub open spec fn splice<T>(dst: Seq<T>, start: int, src: Seq<T>) -> Seq<T> {
    Seq::new(dst.len(), |i: int| if start <= i < start + src.len() { src[i - start] } else { dst[i] })
}

/// `dst` with the elements of `src` at indices `[lo, hi)` copied over it.
pub open spec fn copy_range<T>(dst: Seq<T>, src: Seq<T>, lo: int, hi: int) -> Seq<T> {
    Seq::new(dst.len(), |i: int| if lo <= i < hi { src[i] } else { dst[i] })
}

/// A freshly allocated live group: storage sized to the initial data, and
/// the device buffers created with that same data.
pub open spec fn fresh_group(tex: TextureRef, trs: Seq<Transform>, regs: Seq<SheetRegion>)
    -> GroupView {
    GroupView { live: true, tex, len: trs.len(), trs, regs, gtrs: trs, gregs: regs }
}

/// The slot after removal: a tombstone.  Storage is retained but is not
/// reachable until an addition reuses the slot.
pub open spec fn tombstoned(g: GroupView) -> GroupView {
    GroupView { live: false, ..g }
}

/// Resize within the current capacity: only the logical bound moves; no
/// data moves, nothing is reallocated and nothing is cleared.
pub open spec fn with_len(g: GroupView, n: nat) -> GroupView {
    GroupView { len: n, ..g }
}

/// Resize past the current capacity: the host arrays are rebuilt keeping
/// the first `len` live records and zero-filling the rest, and the device
/// buffers are recreated, so they hold no data yet.
pub open spec fn grown(g: GroupView, n: nat) -> GroupView {
    GroupView {
        len: n,
        trs: g.trs.take(g.len as int) + zero_transforms(n - g.len),
        regs: g.regs.take(g.len as int) + zero_regions(n - g.len),
        gtrs: zero_transforms(n as int),
        gregs: zero_regions(n as int),
        ..g
    }
}

/// What a resize to `n` does to a live group.
pub open spec fn resize_spec(g: GroupView, n: nat) -> GroupView {
    if n <= g.cap() {
        with_len(g, n)
    } else {
        grown(g, n)
    }
}

/// What writing `vt`/`vr` at `start` does to a live group's host arrays.
pub open spec fn write_spec(g: GroupView, start: int, vt: Seq<Transform>, vr: Seq<SheetRegion>)
    -> GroupView {
    GroupView { trs: splice(g.trs, start, vt), regs: splice(g.regs, start, vr), ..g }
}

/// What replaying one queued range `[s, e)` does to a group: the current
/// host data over that range, clamped to the live range, is copied into the
/// device buffers.  A tombstoned slot is left untouched.
pub open spec fn upload_spec(g: GroupView, s: int, e: int) -> GroupView {
    if !g.live {
        g
    } else {
        let hi = if e <= g.len as int { e } else { g.len as int };
        let lo = if s <= hi { s } else { hi };
        GroupView {
            gtrs: copy_range(g.gtrs, g.trs, lo, hi),
            gregs: copy_range(g.gregs, g.regs, lo, hi),
            ..g
        }
    }
}

/// One slot of the group table: a group together with the modeled contents
/// of its GPU buffers, or a tombstone (`live == false`).
pub struct SpriteGroup {
    live: bool,
    tex: TextureRef,
    len: usize,
    transforms: Vec<Transform>,
    regions: Vec<SheetRegion>,
    gpu_transforms: Vec<Transform>,
    gpu_regions: Vec<SheetRegion>,
}

impl View for SpriteGroup {
    type V = GroupView;

    closed spec fn view(&self) -> GroupView {
        GroupView {
            live: self.live,
            tex: self.tex,
            len: self.len as nat,
            trs: self.transforms@,
            regs: self.regions@,
            gtrs: self.gpu_transforms@,
            gregs: self.gpu_regions@,
        }
    }
}

/// Copies a vector of plain records.
fn dup_vec<T: Copy>(src: &Vec<T>) -> (r: Vec<T>)
    ensures
        r@ == src@,
{
    let mut r: Vec<T> = Vec::new();
    let mut i: usize = 0;
    while i < src.len()
        invariant
            i <= src@.len(),
            r@ == src@.take(i as int),
        decreases src@.len() - i,
    {
        let x = src[i];
        r.push(x);
        i += 1;
        proof {
            assert(r@ =~= src@.take(i as int));
        }
    }
    proof {
        assert(r@ =~= src@);
    }
    r
}

impl SpriteGroup {
    /// Allocates a live group sized to the initial data; the device buffers
    /// are created holding that same data.
    pub fn new_group(tex: TextureRef, transforms: Vec<Transform>, regions: Vec<SheetRegion>) -> (
        r: SpriteGroup)
        requires
            transforms@.len() == regions@.len(),
        ensures
            r@ == fresh_group(tex, transforms@, regions@),
            r@.wf(),
    {
        let gpu_transforms = dup_vec(&transforms);
        let gpu_regions = dup_vec(&regions);
        let len = transforms.len();
        SpriteGroup { live: true, tex, len, transforms, regions, gpu_transforms, gpu_regions }
    }

    /// Whether the slot holds a live group.
    pub fn live(&self) -> (r: bool)
        ensures
            r == self@.live,
    {
        self.live
    }

    /// Logical length of the group.
    pub fn len(&self) -> (r: usize)
        ensures
            r == self@.len,
    {
        self.len
    }

    /// Allocated slots of the group.
    pub fn capacity(&self) -> (r: usize)
        ensures
            r == self@.cap(),
    {
        self.transforms.len()
    }

    /// Reads one host-side instance record pair.
    pub fn get(&self, i: usize) -> (r: (Transform, SheetRegion))
        requires
            self@.wf(),
            i < self@.len,
        ensures
            r.0 == self@.trs[i as int],
            r.1 == self@.regs[i as int],
    {
        (self.transforms[i], self.regions[i])
    }

    /// Reads one record pair back from the modeled device buffers.
    pub fn gpu_get(&self, i: usize) -> (r: (Transform, SheetRegion))
        requires
            self@.wf(),
            i < self@.len,
        ensures
            r.0 == self@.gtrs[i as int],
            r.1 == self@.gregs[i as int],
    {
        (self.gpu_transforms[i], self.gpu_regions[i])
    }

    /// Marks the slot as a tombstone; the storage stays behind, unreadable,
    /// until an addition reuses the slot.
    pub fn remove(&mut self)
        ensures
            final(self)@ == tombstoned(old(self)@),
    {
        self.live = false;
    }

    /// Overwrites the host arrays at `[start, start + trs.len())` with the
    /// given records.
    pub fn write_range(&mut self, start: usize, trs: &Vec<Transform>, regs: &Vec<SheetRegion>)
        requires
            old(self)@.wf(),
            trs@.len() == regs@.len(),
            start + trs@.len() <= old(self)@.len,
        ensures
            final(self)@ == write_spec(old(self)@, start as int, trs@, regs@),
            final(self)@.wf(),
    {
        let mut k: usize = 0;
        while k < trs.len()
            invariant
                old(self)@.wf(),
                trs@.len() == regs@.len(),
                start + trs@.len() <= old(self)@.len,
                k <= trs@.len(),
                self.live == old(self)@.live,
                self.tex == old(self)@.tex,
                self.len == old(self)@.len,
                self.gpu_transforms@ == old(self)@.gtrs,
                self.gpu_regions@ == old(self)@.gregs,
                self.transforms@.len() == old(self)@.trs.len(),
                self.regions@.len() == old(self)@.regs.len(),
                forall|i: int|
                    0 <= i < self.transforms@.len() ==> self.transforms@[i] == (if start <= i
                        < start + k { trs@[i - start] } else { old(self)@.trs[i] }),
                forall|i: int|
                    0 <= i < self.regions@.len() ==> self.regions@[i] == (if start <= i < start
                        + k { regs@[i - start] } else { old(self)@.regs[i] }),
            decreases trs@.len() - k,
        {
            let t = trs[k];
            let r = regs[k];
            let idx = start + k;
            self.transforms[idx] = t;
            self.regions[idx] = r;
            k += 1;
        }
        proof {
            assert(self.transforms@ =~= splice(old(self)@.trs, start as int, trs@));
            assert(self.regions@ =~= splice(old(self)@.regs, start as int, regs@));
            assert(self@ =~= write_spec(old(self)@, start as int, trs@, regs@));
        }
    }

    /// Sets the logical length to `new_len`.  Within the capacity only the
    /// logical bound moves; past it the storage and the device buffers are
    /// reallocated, keeping the live records and zero-filling the rest.
    /// Returns whether a reallocation happened.
    pub fn resize(&mut self, new_len: usize) -> (grew: bool)
        requires
            old(self)@.wf(),
        ensures
            final(self)@ == resize_spec(old(self)@, new_len as nat),
            final(self)@.wf(),
            grew <==> new_len > old(self)@.cap(),
            final(self)@.live == old(self)@.live,
    {
        if new_len <= self.transforms.len() {
            self.len = new_len;
            proof {
                assert(self@ =~= with_len(old(self)@, new_len as nat));
            }
            false
        } else {
            let mut new_trs: Vec<Transform> = Vec::new();
            let mut new_regs: Vec<SheetRegion> = Vec::new();
            let mut new_gtrs: Vec<Transform> = Vec::new();
            let mut new_gregs: Vec<SheetRegion> = Vec::new();
            let mut i: usize = 0;
            while i < self.len
                invariant
                    old(self)@.wf(),
                    self == old(self),
                    i <= self.len,
                    new_trs@ == self.transforms@.take(i as int),
                    new_regs@ == self.regions@.take(i as int),
                decreases self.len - i,
            {
                let t = self.transforms[i];
                let r = self.regions[i];
                new_trs.push(t);
                new_regs.push(r);
                i += 1;
                proof {
                    assert(new_trs@ =~= self.transforms@.take(i as int));
                    assert(new_regs@ =~= self.regions@.take(i as int));
                }
            }
            while i < new_len
                invariant
                    old(self)@.wf(),
                    self == old(self),
                    self.len <= i <= new_len,
                    new_trs@ == self.transforms@.take(self.len as int) + zero_transforms(
                        i - self.len,
                    ),
                    new_regs@ == self.regions@.take(self.len as int) + zero_regions(i - self.len),
                decreases new_len - i,
            {
                new_trs.push(Transform::zero());
                new_regs.push(SheetRegion::zero());
                i += 1;
                proof {
                    assert(new_trs@ =~= self.transforms@.take(self.len as int) + zero_transforms(
                        i - self.len,
                    ));
                    assert(new_regs@ =~= self.regions@.take(self.len as int) + zero_regions(
                        i - self.len,
                    ));
                }
            }
            let mut j: usize = 0;
            while j < new_len
                invariant
                    j <= new_len,
                    new_gtrs@ == zero_transforms(j as int),
                    new_gregs@ == zero_regions(j as int),
                decreases new_len - j,
            {
                new_gtrs.push(Transform::zero());
                new_gregs.push(SheetRegion::zero());
                j += 1;
                proof {
                    assert(new_gtrs@ =~= zero_transforms(j as int));
                    assert(new_gregs@ =~= zero_regions(j as int));
                }
            }
            self.transforms = new_trs;
            self.regions = new_regs;
            self.gpu_transforms = new_gtrs;
            self.gpu_regions = new_gregs;
            self.len = new_len;
            proof {
                assert(self@ =~= grown(old(self)@, new_len as nat));
            }
            true
        }
    }

    /// Replays one queued range against the device buffers: copies the
    /// current host data at `[start, end)`, clamped to the live range, into
    /// the GPU-side arrays.  A tombstoned slot is left untouched.
    pub fn upload_range(&mut self, start: usize, end: usize)
        requires
            old(self)@.wf(),
        ensures
            final(self)@ == upload_spec(old(self)@, start as int, end as int),
            final(self)@.wf(),
    {
        if !self.live {
            proof {
                assert(self@ =~= upload_spec(old(self)@, start as int, end as int));
            }
            return ;
        }
        let hi = if end <= self.len { end } else { self.len };
        let lo = if start <= hi { start } else { hi };
        let mut j = lo;
        while j < hi
            invariant
                old(self)@.wf(),
                old(self)@.live,
                hi <= old(self)@.len,
                lo <= j <= hi,
                self.live == old(self)@.live,
                self.tex == old(self)@.tex,
                self.len == old(self)@.len,
                self.transforms@ == old(self)@.trs,
                self.regions@ == old(self)@.regs,
                self.gpu_transforms@ == copy_range(old(self)@.gtrs, old(self)@.trs, lo as int, j as int),
                self.gpu_regions@ == copy_range(old(self)@.gregs, old(self)@.regs, lo as int, j as int),
            decreases hi - j,
        {
            let t = self.transforms[j];
            let r = self.regions[j];
            self.gpu_transforms[j] = t;
            self.gpu_regions[j] = r;
            j += 1;
            proof {
                assert(self.gpu_transforms@ =~= copy_range(
                    old(self)@.gtrs,
                    old(self)@.trs,
                    lo as int,
                    j as int,
                ));
                assert(self.gpu_regions@ =~= copy_range(
                    old(self)@.gregs,
                    old(self)@.regs,
                    lo as int,
                    j as int,
                ));
            }
        }
        proof {
            assert(self.gpu_transforms@ =~= copy_range(
                old(self)@.gtrs,
                old(self)@.trs,
                lo as int,
                hi as int,
            ));
            assert(self.gpu_regions@ =~= copy_range(
                old(self)@.gregs,
                old(self)@.regs,
                lo as int,
                hi as int,
            ));
            assert(self@ =~= upload_spec(old(self)@, start as int, end as int));
        }
    }
}

/// Index of the lowest tombstoned slot, or `gs.len()` if every slot is
/// live: the slot the next addition will use.
pub open spec fn first_free(gs: Seq<GroupView>) -> int
    decreases gs.len(),
{
    if gs.len() == 0 {
        0
    } else if !gs[0].live {
        0
    } else {
        1 + first_free(gs.drop_first())
    }
}

/// `first_free` really is the lowest tombstoned slot.
pub proof fn lemma_first_free(gs: Seq<GroupView>)
    ensures
        0 <= first_free(gs) <= gs.len(),
        first_free(gs) < gs.len() ==> !gs[first_free(gs)].live,
        forall|j: int| 0 <= j < first_free(gs) ==> gs[j].live,
    decreases gs.len(),
{
    if gs.len() == 0 {
    } else if !gs[0].live {
    } else {
        lemma_first_free(gs.drop_first());
        assert forall|j: int| 0 <= j < first_free(gs) implies gs[j].live by {
            if j > 0 {
                assert(gs.drop_first()[j - 1] == gs[j]);
            }
        }
    }
}

/// A scan that passes only live slots and stops at a tombstone (or at the
/// end) has found `first_free`.
pub proof fn lemma_first_free_is(gs: Seq<GroupView>, i: int)
    requires
        0 <= i <= gs.len(),
        forall|j: int| 0 <= j < i ==> gs[j].live,
        i < gs.len() ==> !gs[i].live,
    ensures
        first_free(gs) == i,
    decreases gs.len(),
{
    if gs.len() == 0 {
    } else if i == 0 {
    } else {
        assert(gs[0].live);
        assert forall|j: int| 0 <= j < i - 1 implies gs.drop_first()[j].live by {
            assert(gs.drop_first()[j] == gs[j + 1]);
        }
        assert(i - 1 < gs.drop_first().len() ==> !gs.drop_first()[i - 1].live);
        lemma_first_free_is(gs.drop_first(), i - 1);
    }
}

/// Every slot of the table is well formed.
pub open spec fn wf_groups(gs: Seq<GroupView>) -> bool {
    forall|i: int| 0 <= i < gs.len() ==> (#[trigger] gs[i]).wf()
}

/// The group table: a growable collection of sprite groups with stable
/// indices.  Removal tombstones a slot instead of compacting, and the next
/// addition reuses the lowest tombstoned slot.
pub struct SpriteRenderer {
    groups: Vec<SpriteGroup>,
}

impl SpriteRenderer {
    /// The table as a sequence of slot models.
    pub closed spec fn gviews(&self) -> Seq<GroupView> {
        self.groups@.map_values(|g: SpriteGroup| g@)
    }

    /// Every slot of the table is well formed.
    pub open spec fn wf(&self) -> bool {
        wf_groups(self.gviews())
    }

    /// An empty table.
    pub fn new() -> (r: SpriteRenderer)
        ensures
            r.wf(),
            r.gviews() == Seq::<GroupView>::empty(),
    {
        let r = SpriteRenderer { groups: Vec::new() };
        proof {
            assert(r.gviews() =~= Seq::<GroupView>::empty());
        }
        r
    }

    /// Number of slots, tombstones included.
    pub fn sprite_group_count(&self) -> (r: usize)
        ensures
            r == self.gviews().len(),
    {
        self.groups.len()
    }

    /// Adds a group sized to the initial data, reusing the lowest
    /// tombstoned slot if there is one and appending a new slot otherwise.
    /// The returned index stays valid until the group is removed.
    pub fn add_sprite_group(
        &mut self,
        tex: TextureRef,
        transforms: Vec<Transform>,
        regions: Vec<SheetRegion>,
    ) -> (id: usize)
        requires
            old(self).wf(),
            transforms@.len() == regions@.len(),
        ensures
            final(self).wf(),
            id == first_free(old(self).gviews()),
            id <= old(self).gviews().len(),
            final(self).gviews() == (if id < old(self).gviews().len() {
                old(self).gviews().update(id as int, fresh_group(tex, transforms@, regions@))
            } else {
                old(self).gviews().push(fresh_group(tex, transforms@, regions@))
            }),
    {
        let n = self.groups.len();
        let mut i: usize = 0;
        while i < n && self.groups[i].live()
            invariant
                n == self.gviews().len(),
                i <= n,
                self == old(self),
                forall|j: int| 0 <= j < i ==> (#[trigger] self.gviews()[j]).live,
            decreases n - i,
        {
            i += 1;
        }
        proof {
            lemma_first_free_is(self.gviews(), i as int);
        }
        let g = SpriteGroup::new_group(tex, transforms, regions);
        if i < n {
            self.groups[i] = g;
            proof {
                assert(self.gviews() =~= old(self).gviews().update(
                    i as int,
                    fresh_group(tex, transforms@, regions@),
                ));
            }
        } else {
            self.groups.push(g);
            proof {
                assert(self.gviews() =~= old(self).gviews().push(
                    fresh_group(tex, transforms@, regions@),
                ));
            }
        }
        i
    }

    /// Tombstones a group.  Fails if the slot is unknown or already
    /// tombstoned; the slot's storage stays unreadable until an addition
    /// reuses it.
    pub fn remove_sprite_group(&mut self, which: usize) -> (r: Result<(), GroupError>)
        requires
            old(self).wf(),
        ensures
            final(self).wf(),
            r is Err <==> (which >= old(self).gviews().len() || !old(self).gviews()[which as int].live),
            r is Err ==> r == Err::<(), GroupError>(GroupError::InvalidGroup) && *final(self)
                == *old(self),
            r is Ok ==> final(self).gviews() == old(self).gviews().update(
                which as int,
                tombstoned(old(self).gviews()[which as int]),
            ),
    {
        if which >= self.groups.len() {
            return Err(GroupError::InvalidGroup);
        }
        if !self.groups[which].live() {
            return Err(GroupError::InvalidGroup);
        }
        let g = &mut self.groups[which];
        g.remove();
        proof {
            assert(self.gviews() =~= old(self).gviews().update(
                which as int,
                tombstoned(old(self).gviews()[which as int]),
            ));
        }
        Ok(())
    }

    /// Logical length of a live group.
    pub fn sprite_group_size(&self, which: usize) -> (r: Result<usize, GroupError>)
        ensures
            r is Err <==> (which >= self.gviews().len() || !self.gviews()[which as int].live),
            r is Err ==> r == Err::<usize, GroupError>(GroupError::InvalidGroup),
            r is Ok ==> r == Ok::<usize, GroupError>((self.gviews()[which as int].len) as usize),
    {
        if which >= self.groups.len() {
            return Err(GroupError::InvalidGroup);
        }
        if !self.groups[which].live() {
            return Err(GroupError::InvalidGroup);
        }
        Ok(self.groups[which].len())
    }

    /// Allocated slots of a live group.
    pub fn group_capacity(&self, which: usize) -> (r: Result<usize, GroupError>)
        ensures
            r is Err <==> (which >= self.gviews().len() || !self.gviews()[which as int].live),
            r is Err ==> r == Err::<usize, GroupError>(GroupError::InvalidGroup),
            r is Ok ==> r == Ok::<usize, GroupError>((self.gviews()[which as int].cap()) as usize),
    {
        if which >= self.groups.len() {
            return Err(GroupError::InvalidGroup);
        }
        if !self.groups[which].live() {
            return Err(GroupError::InvalidGroup);
        }
        Ok(self.groups[which].capacity())
    }

    /// Reads one host-side record pair of a live group.
    pub fn get_sprite(&self, which: usize, i: usize) -> (r: Result<
        (Transform, SheetRegion),
        GroupError,
    >)
        requires
            self.wf(),
        ensures
            which >= self.gviews().len() || !self.gviews()[which as int].live ==> r == Err::<
                (Transform, SheetRegion),
                GroupError,
            >(GroupError::InvalidGroup),
            which < self.gviews().len() && self.gviews()[which as int].live && i
                >= self.gviews()[which as int].len ==> r == Err::<
                (Transform, SheetRegion),
                GroupError,
            >(GroupError::OutOfBounds),
            which < self.gviews().len() && self.gviews()[which as int].live && i
                < self.gviews()[which as int].len ==> r == Ok::<(Transform, SheetRegion), GroupError>(
                (self.gviews()[which as int].trs[i as int], self.gviews()[which as int].regs[i as int]),
            ),
    {
        if which >= self.groups.len() {
            return Err(GroupError::InvalidGroup);
        }
        if !self.groups[which].live() {
            return Err(GroupError::InvalidGroup);
        }
        if i >= self.groups[which].len() {
            return Err(GroupError::OutOfBounds);
        }
        Ok(self.groups[which].get(i))
    }

    /// Reads one record pair back from a live group's modeled device
    /// buffers.
    pub fn gpu_sprite(&self, which: usize, i: usize) -> (r: Result<
        (Transform, SheetRegion),
        GroupError,
    >)
        requires
            self.wf(),
        ensures
            which >= self.gviews().len() || !self.gviews()[which as int].live ==> r == Err::<
                (Transform, SheetRegion),
                GroupError,
            >(GroupError::InvalidGroup),
            which < self.gviews().len() && self.gviews()[which as int].live && i
                >= self.gviews()[which as int].len ==> r == Err::<
                (Transform, SheetRegion),
                GroupError,
            >(GroupError::OutOfBounds),
            which < self.gviews().len() && self.gviews()[which as int].live && i
                < self.gviews()[which as int].len ==> r == Ok::<(Transform, SheetRegion), GroupError>(
                (
                    self.gviews()[which as int].gtrs[i as int],
                    self.gviews()[which as int].gregs[i as int],
                ),
            ),
    {
        if which >= self.groups.len() {
            return Err(GroupError::InvalidGroup);
        }
        if !self.groups[which].live() {
            return Err(GroupError::InvalidGroup);
        }
        if i >= self.groups[which].len() {
            return Err(GroupError::OutOfBounds);
        }
        Ok(self.groups[which].gpu_get(i))
    }

    /// Sets the logical length of a live group.  Returns the resulting
    /// length; the second component says whether the backing storage (and
    /// so the device buffer) had to be reallocated.
    pub fn resize_sprite_group(&mut self, which: usize, new_len: usize) -> (r: Result<
        (usize, bool),
        GroupError,
    >)
        requires
            old(self).wf(),
        ensures
            final(self).wf(),
            r is Err <==> (which >= old(self).gviews().len() || !old(self).gviews()[which as int].live),
            r is Err ==> r == Err::<(usize, bool), GroupError>(GroupError::InvalidGroup)
                && *final(self) == *old(self),
            r is Ok ==> ({
                let g = old(self).gviews()[which as int];
                r == Ok::<(usize, bool), GroupError>((new_len, new_len > g.cap()))
                    && final(self).gviews() == old(self).gviews().update(
                    which as int,
                    resize_spec(g, new_len as nat),
                )
            }),
    {
        if which >= self.groups.len() {
            return Err(GroupError::InvalidGroup);
        }
        if !self.groups[which].live() {
            return Err(GroupError::InvalidGroup);
        }
        proof {
            assert(self.gviews()[which as int] == self.groups@[which as int]@);
            assert(self.gviews()[which as int].wf());
        }
        let g = &mut self.groups[which];
        let grew = g.resize(new_len);
        proof {
            assert(self.gviews() =~= old(self).gviews().update(
                which as int,
                resize_spec(old(self).gviews()[which as int], new_len as nat),
            ));
        }
        Ok((new_len, grew))
    }

    /// Overwrites the records of a live group at
    /// `[start, start + trs.len())` in both parallel arrays.
    pub fn write_sprite_range(
        &mut self,
        which: usize,
        start: usize,
        trs: &Vec<Transform>,
        regs: &Vec<SheetRegion>,
    ) -> (r: Result<(), GroupError>)
        requires
            old(self).wf(),
            trs@.len() == regs@.len(),
        ensures
            final(self).wf(),
            which >= old(self).gviews().len() || !old(self).gviews()[which as int].live ==> r
                == Err::<(), GroupError>(GroupError::InvalidGroup) && *final(self) == *old(self),
            which < old(self).gviews().len() && old(self).gviews()[which as int].live && start
                + trs@.len() > old(self).gviews()[which as int].len ==> r == Err::<(), GroupError>(
                GroupError::OutOfBounds,
            ) && *final(self) == *old(self),
            which < old(self).gviews().len() && old(self).gviews()[which as int].live && start
                + trs@.len() <= old(self).gviews()[which as int].len ==> r == Ok::<(), GroupError>(())
                && final(self).gviews() == old(self).gviews().update(
                which as int,
                write_spec(old(self).gviews()[which as int], start as int, trs@, regs@),
            ),
    {
        if which >= self.groups.len() {
            return Err(GroupError::InvalidGroup);
        }
        if !self.groups[which].live() {
            return Err(GroupError::InvalidGroup);
        }
        let glen = self.groups[which].len();
        if start > glen || trs.len() > glen - start {
            return Err(GroupError::OutOfBounds);
        }
        proof {
            assert(self.gviews()[which as int] == self.groups@[which as int]@);
            assert(self.gviews()[which as int].wf());
        }
        let g = &mut self.groups[which];
        g.write_range(start, trs, regs);
        proof {
            assert(self.gviews() =~= old(self).gviews().update(
                which as int,
                write_spec(old(self).gviews()[which as int], start as int, trs@, regs@),
            ));
        }
        Ok(())
    }

    /// Replays one queued range against a group's device buffers.  Unknown
    /// slots and tombstones are left untouched, and the range is clamped to
    /// the group's live range.
    pub fn upload_sprites(&mut self, which: usize, start: usize, end: usize)
        requires
            old(self).wf(),
        ensures
            final(self).wf(),
            which < old(self).gviews().len() ==> final(self).gviews() == old(self).gviews().update(
                which as int,
                upload_spec(old(self).gviews()[which as int], start as int, end as int),
            ),
            which >= old(self).gviews().len() ==> *final(self) == *old(self),
    {
        if which >= self.groups.len() {
            return ;
        }
        proof {
            assert(self.gviews()[which as int] == self.groups@[which as int]@);
            assert(self.gviews()[which as int].wf());
        }
        let g = &mut self.groups[which];
        g.upload_range(start, end);
        proof {
            assert(self.gviews() =~= old(self).gviews().update(
                which as int,
                upload_spec(old(self).gviews()[which as int], start as int, end as int),
            ));
        }
    }
}

/// Shrinking a live group and then resizing back to the original length
/// moves only the logical bound: every record of the original live range is
/// preserved, because neither resize reallocates (the original length never
/// exceeds the capacity already reached).
pub proof fn lemma_shrink_then_regrow_preserves(g: GroupView, small: nat)
    requires
        g.wf(),
        small <= g.len,
    ensures
        resize_spec(resize_spec(g, small), g.len) == g,
{
    assert(resize_spec(resize_spec(g, small), g.len) =~= g);
}

/// A removed slot's identifier is reused only by a later addition: right
/// after the removal the slot is a tombstone (so every use of the
/// identifier fails), the next addition reuses a tombstoned slot at or
/// before it (never displacing a live group), and the reused slot then
/// holds exactly the new group's data — host and device side alike — with
/// nothing of the previous group visible.
pub proof fn lemma_remove_then_add_reuses_tombstone(
    gs: Seq<GroupView>,
    which: usize,
    tex: TextureRef,
    trs: Seq<Transform>,
    regs: Seq<SheetRegion>,
)
    requires
        wf_groups(gs),
        which < gs.len(),
        gs[which as int].live,
        trs.len() == regs.len(),
    ensures
        ({
            let gs1 = gs.update(which as int, tombstoned(gs[which as int]));
            let id = first_free(gs1);
            &&& !gs1[which as int].live
            &&& 0 <= id <= which
            &&& !gs1[id].live
            &&& gs1.update(id, fresh_group(tex, trs, regs))[id] == fresh_group(tex, trs, regs)
            &&& fresh_group(tex, trs, regs).trs == trs
            &&& fresh_group(tex, trs, regs).regs == regs
            &&& fresh_group(tex, trs, regs).gtrs == trs
            &&& fresh_group(tex, trs, regs).gregs == regs
        }),
{
    let gs1 = gs.update(which as int, tombstoned(gs[which as int]));
    let id = first_free(gs1);
    lemma_first_free(gs1);
    assert(!gs1[which as int].live);
    if id > which {
        assert(gs1[which as int].live);
        assert(false);
    }
}

} // verus!
