//! The instance store and group table for mesh groups.
//!
//! A mesh group bundles several meshes that share one set of static
//! vertex/index assets; what this core tracks per mesh is its instance
//! array (one world transform per instance) together with the modeled
//! GPU-side copy of that array.  Each mesh has its own capacity and
//! logical length with the same shrink/grow rules as sprite groups.
//!
//! [`MeshRenderer`] keeps the groups in a table with stable indices and
//! tombstoned removal, exactly like the sprite table; it serves both the
//! textured-mesh family and the flat-colored family, whose difference
//! (materials instead of a texture) lives outside this core.

use crate::instance::GroupError;
use crate::instance::TextureRef;
use crate::instance::Transform3D;
use crate::sprites::copy_range;
use crate::sprites::splice;
use vstd::prelude::*;

verus! {

/// Mathematical model of one mesh's instance array: the host-side records,
/// the modeled GPU-side copy, and the logical length.  Both arrays always
/// have the capacity as their length.
#[verifier::ext_equal]
pub ghost struct MeshView {
    pub len: nat,
    pub trs: Seq<Transform3D>,
    pub gtrs: Seq<Transform3D>,
}

impl MeshView {
    /// Allocated instance slots of the mesh.
    pub open spec fn cap(self) -> nat {
        self.trs.len()
    }

    /// The arrays agree on the capacity and the logical length fits.
    pub open spec fn wf(self) -> bool {
        &&& self.gtrs.len() == self.cap()
        &&& self.len <= self.cap()
        &&& self.cap() <= usize::MAX
    }
}

/// Mathematical model of one mesh-group slot: a tombstone flag, the bound
/// texture, and the instance arrays of the group's meshes.  The set of
/// meshes is fixed when the group is added.
#[verifier::ext_equal]
pub ghost struct MeshGroupView {
    pub live: bool,
    pub tex: TextureRef,
    pub meshes: Seq<MeshView>,
}

impl MeshGroupView {
    /// Every mesh of the group is well formed.
    pub open spec fn wf(self) -> bool {
        forall|i: int| 0 <= i < self.meshes.len() ==> (#[trigger] self.meshes[i]).wf()
    }
}

/// `n` zeroed mesh transforms.
pub open spec fn zero_transforms3(n: int) -> Seq<Transform3D> {
    Seq::new(n as nat, |i: int| Transform3D::spec_zero())
}

/// A freshly allocated mesh with `n` zeroed instances on both sides.
pub open spec fn fresh_mesh(n: nat) -> MeshView {
    MeshView { len: n, trs: zero_transforms3(n as int), gtrs: zero_transforms3(n as int) }
}

/// A freshly allocated live group: one mesh per requested instance count.
pub open spec fn fresh_mesh_group(tex: TextureRef, counts: Seq<usize>) -> MeshGroupView {
    MeshGroupView {
        live: true,
        tex,
        meshes: counts.map_values(|c: usize| fresh_mesh(c as nat)),
    }
}

/// The slot after removal: a tombstone.
pub open spec fn mesh_group_tombstoned(g: MeshGroupView) -> MeshGroupView {
    MeshGroupView { live: false, ..g }
}

/// Resize within the mesh's capacity: only the logical bound moves.
pub open spec fn mesh_with_len(m: MeshView, n: nat) -> MeshView {
    MeshView { len: n, ..m }
}

/// Resize past the capacity: the host array is rebuilt keeping the live
/// records and zero-filling the rest; the device buffer is recreated and
/// holds no data yet.
pub open spec fn mesh_grown(m: MeshView, n: nat) -> MeshView {
    MeshView {
        len: n,
        trs: m.trs.take(m.len as int) + zero_transforms3(n - m.len),
        gtrs: zero_transforms3(n as int),
    }
}

/// What a resize to `n` does to a mesh.
pub open spec fn mesh_resize_spec(m: MeshView, n: nat) -> MeshView {
    if n <= m.cap() {
        mesh_with_len(m, n)
    } else {
        mesh_grown(m, n)
    }
}

/// What writing `vals` at `start` does to a mesh's host array.
pub open spec fn mesh_write_spec(m: MeshView, start: int, vals: Seq<Transform3D>) -> MeshView {
    MeshView { trs: splice(m.trs, start, vals), ..m }
}

/// What replaying one queued range `[s, e)` does to a mesh: the current
/// host data over the range, clamped to the live range, is copied into the
/// device buffer.
pub open spec fn mesh_upload_spec(m: MeshView, s: int, e: int) -> MeshView {
    let hi = if e <= m.len as int { e } else { m.len as int };
    let lo = if s <= hi { s } else { hi };
    MeshView { gtrs: copy_range(m.gtrs, m.trs, lo, hi), ..m }
}

/// What replaying one queued range does to a group: the named mesh's
/// device buffer is brought up to date.  Tombstoned groups and unknown
/// mesh numbers are left untouched.
pub open spec fn mesh_group_upload_spec(g: MeshGroupView, mesh: int, s: int, e: int)
    -> MeshGroupView {
    if !g.live || mesh < 0 || mesh >= g.meshes.len() {
        g
    } else {
        MeshGroupView { meshes: g.meshes.update(mesh, mesh_upload_spec(g.meshes[mesh], s, e)), ..g }
    }
}

/// Index of the lowest tombstoned mesh-group slot, or `gs.len()`.
pub open spec fn first_free_mesh_group(gs: Seq<MeshGroupView>) -> int
    decreases gs.len(),
{
    if gs.len() == 0 {
        0
    } else if !gs[0].live {
        0
    } else {
        1 + first_free_mesh_group(gs.drop_first())
    }
}

/// A scan that passes only live slots and stops at a tombstone (or at the
/// end) has found `first_free_mesh_group`.
pub proof fn lemma_first_free_mesh_group_is(gs: Seq<MeshGroupView>, i: int)
    requires
        0 <= i <= gs.len(),
        forall|j: int| 0 <= j < i ==> gs[j].live,
        i < gs.len() ==> !gs[i].live,
    ensures
        first_free_mesh_group(gs) == i,
    decreases gs.len(),
{
    if gs.len() == 0 {
    } else if i == 0 {
    } else {
        assert(gs[0].live);
        assert forall|j: int| 0 <= j < i - 1 implies gs.drop_first()[j].live by {
            assert(gs.drop_first()[j] == gs[j + 1]);
        }
        assert(i - 1 < gs.drop_first().len() ==> !gs.drop_first()[i - 1].live);
        lemma_first_free_mesh_group_is(gs.drop_first(), i - 1);
    }
}

/// Every slot of the table is well formed.
pub open spec fn wf_mesh_groups(gs: Seq<MeshGroupView>) -> bool {
    forall|i: int| 0 <= i < gs.len() ==> (#[trigger] gs[i]).wf()
}

/// One mesh's instance arrays: the host-side records and the modeled
/// contents of the GPU-side buffer.
pub struct Mesh {
    len: usize,
    transforms: Vec<Transform3D>,
    gpu_transforms: Vec<Transform3D>,
}

impl View for Mesh {
    type V = MeshView;

    closed spec fn view(&self) -> MeshView {
        MeshView { len: self.len as nat, trs: self.transforms@, gtrs: self.gpu_transforms@ }
    }
}

/// Builds a zero-filled instance array.
fn zero_vec3(n: usize) -> (r: Vec<Transform3D>)
    ensures
        r@ == zero_transforms3(n as int),
{
    let mut r: Vec<Transform3D> = Vec::new();
    let mut i: usize = 0;
    while i < n
        invariant
            i <= n,
            r@ == zero_transforms3(i as int),
        decreases n - i,
    {
        r.push(Transform3D::zero());
        i += 1;
        proof {
            assert(r@ =~= zero_transforms3(i as int));
        }
    }
    r
}

impl Mesh {
    /// A mesh with `n` zeroed instances on both sides.
    pub fn new_mesh(n: usize) -> (r: Mesh)
        ensures
            r@ == fresh_mesh(n as nat),
            r@.wf(),
    {
        Mesh { len: n, transforms: zero_vec3(n), gpu_transforms: zero_vec3(n) }
    }

    /// Number of live instances.
    pub fn len(&self) -> (r: usize)
        ensures
            r == self@.len,
    {
        self.len
    }

    /// Allocated instance slots.
    pub fn capacity(&self) -> (r: usize)
        ensures
            r == self@.cap(),
    {
        self.transforms.len()
    }

    /// Reads one host-side instance transform.
    pub fn get(&self, i: usize) -> (r: Transform3D)
        requires
            self@.wf(),
            i < self@.len,
        ensures
            r == self@.trs[i as int],
    {
        self.transforms[i]
    }

    /// Reads one transform back from the modeled device buffer.
    pub fn gpu_get(&self, i: usize) -> (r: Transform3D)
        requires
            self@.wf(),
            i < self@.len,
        ensures
            r == self@.gtrs[i as int],
    {
        self.gpu_transforms[i]
    }

    /// Overwrites the host array at `[start, start + vals.len())`.
    pub fn write_range(&mut self, start: usize, vals: &Vec<Transform3D>)
        requires
            old(self)@.wf(),
            start + vals@.len() <= old(self)@.len,
        ensures
            final(self)@ == mesh_write_spec(old(self)@, start as int, vals@),
            final(self)@.wf(),
    {
        let mut k: usize = 0;
        while k < vals.len()
            invariant
                old(self)@.wf(),
                start + vals@.len() <= old(self)@.len,
                k <= vals@.len(),
                self.len == old(self)@.len,
                self.gpu_transforms@ == old(self)@.gtrs,
                self.transforms@.len() == old(self)@.trs.len(),
                forall|i: int|
                    0 <= i < self.transforms@.len() ==> self.transforms@[i] == (if start <= i
                        < start + k { vals@[i - start] } else { old(self)@.trs[i] }),
            decreases vals@.len() - k,
        {
            let t = vals[k];
            let idx = start + k;
            self.transforms[idx] = t;
            k += 1;
        }
        proof {
            assert(self.transforms@ =~= splice(old(self)@.trs, start as int, vals@));
            assert(self@ =~= mesh_write_spec(old(self)@, start as int, vals@));
        }
    }

    /// Sets the logical length; past the capacity the arrays are rebuilt
    /// as [`mesh_grown`] describes.  Returns whether that happened.
    pub fn resize(&mut self, new_len: usize) -> (grew: bool)
        requires
            old(self)@.wf(),
        ensures
            final(self)@ == mesh_resize_spec(old(self)@, new_len as nat),
            final(self)@.wf(),
            grew <==> new_len > old(self)@.cap(),
    {
        if new_len <= self.transforms.len() {
            self.len = new_len;
            proof {
                assert(self@ =~= mesh_with_len(old(self)@, new_len as nat));
            }
            false
        } else {
            let mut new_trs: Vec<Transform3D> = Vec::new();
            let mut i: usize = 0;
            while i < self.len
                invariant
                    old(self)@.wf(),
                    self == old(self),
                    i <= self.len,
                    new_trs@ == self.transforms@.take(i as int),
                decreases self.len - i,
            {
                let t = self.transforms[i];
                new_trs.push(t);
                i += 1;
                proof {
                    assert(new_trs@ =~= self.transforms@.take(i as int));
                }
            }
            while i < new_len
                invariant
                    old(self)@.wf(),
                    self == old(self),
                    self.len <= i <= new_len,
                    new_trs@ == self.transforms@.take(self.len as int) + zero_transforms3(
                        i - self.len,
                    ),
                decreases new_len - i,
            {
                new_trs.push(Transform3D::zero());
                i += 1;
                proof {
                    assert(new_trs@ =~= self.transforms@.take(self.len as int) + zero_transforms3(
                        i - self.len,
                    ));
                }
            }
            self.transforms = new_trs;
            self.gpu_transforms = zero_vec3(new_len);
            self.len = new_len;
            proof {
                assert(self@ =~= mesh_grown(old(self)@, new_len as nat));
            }
            true
        }
    }

    /// Replays one queued range: current host data at `[start, end)`,
    /// clamped to the live range, is copied into the device buffer.
    pub fn upload_range(&mut self, start: usize, end: usize)
        requires
            old(self)@.wf(),
        ensures
            final(self)@ == mesh_upload_spec(old(self)@, start as int, end as int),
            final(self)@.wf(),
    {
        let hi = if end <= self.len { end } else { self.len };
        let lo = if start <= hi { start } else { hi };
        let mut j = lo;
        while j < hi
            invariant
                old(self)@.wf(),
                hi <= old(self)@.len,
                lo <= j <= hi,
                self.len == old(self)@.len,
                self.transforms@ == old(self)@.trs,
                self.gpu_transforms@ == copy_range(
                    old(self)@.gtrs,
                    old(self)@.trs,
                    lo as int,
                    j as int,
                ),
            decreases hi - j,
        {
            let t = self.transforms[j];
            self.gpu_transforms[j] = t;
            j += 1;
            proof {
                assert(self.gpu_transforms@ =~= copy_range(
                    old(self)@.gtrs,
                    old(self)@.trs,
                    lo as int,
                    j as int,
                ));
            }
        }
        proof {
            assert(self.gpu_transforms@ =~= copy_range(
                old(self)@.gtrs,
                old(self)@.trs,
                lo as int,
                hi as int,
            ));
            assert(self@ =~= mesh_upload_spec(old(self)@, start as int, end as int));
        }
    }
}

/// One slot of the mesh-group table.
pub struct MeshGroup {
    live: bool,
    tex: TextureRef,
    meshes: Vec<Mesh>,
}

impl View for MeshGroup {
    type V = MeshGroupView;

    closed spec fn view(&self) -> MeshGroupView {
        MeshGroupView {
            live: self.live,
            tex: self.tex,
            meshes: self.meshes@.map_values(|m: Mesh| m@),
        }
    }
}

impl MeshGroup {
    /// A live group with one mesh per requested instance count, each
    /// zero-filled on both sides.
    pub fn new_group(tex: TextureRef, counts: &Vec<usize>) -> (r: MeshGroup)
        ensures
            r@ == fresh_mesh_group(tex, counts@),
            r@.wf(),
    {
        let mut meshes: Vec<Mesh> = Vec::new();
        let mut i: usize = 0;
        while i < counts.len()
            invariant
                i <= counts@.len(),
                meshes@.len() == i,
                forall|j: int| 0 <= j < i ==> (#[trigger] meshes@[j])@ == fresh_mesh(counts@[j] as nat),
            decreases counts@.len() - i,
        {
            let c = counts[i];
            meshes.push(Mesh::new_mesh(c));
            i += 1;
        }
        let r = MeshGroup { live: true, tex, meshes };
        proof {
            assert(r@ =~= fresh_mesh_group(tex, counts@));
        }
        r
    }

    /// Whether the slot holds a live group.
    pub fn live(&self) -> (r: bool)
        ensures
            r == self@.live,
    {
        self.live
    }

    /// Number of meshes in the group.
    pub fn mesh_count(&self) -> (r: usize)
        ensures
            r == self@.meshes.len(),
    {
        self.meshes.len()
    }

    /// Marks the slot as a tombstone.
    pub fn remove(&mut self)
        ensures
            final(self)@ == mesh_group_tombstoned(old(self)@),
    {
        self.live = false;
        proof {
            assert(self@ =~= mesh_group_tombstoned(old(self)@));
        }
    }

    /// Number of live instances of one mesh.
    pub fn instance_count(&self, idx: usize) -> (r: usize)
        requires
            idx < self@.meshes.len(),
        ensures
            r == self@.meshes[idx as int].len,
    {
        self.meshes[idx].len()
    }

    /// Allocated instance slots of one mesh.
    pub fn instance_capacity(&self, idx: usize) -> (r: usize)
        requires
            idx < self@.meshes.len(),
        ensures
            r == self@.meshes[idx as int].cap(),
    {
        self.meshes[idx].capacity()
    }

    /// Reads one host-side instance transform of one mesh.
    pub fn get(&self, idx: usize, i: usize) -> (r: Transform3D)
        requires
            self@.wf(),
            idx < self@.meshes.len(),
            i < self@.meshes[idx as int].len,
        ensures
            r == self@.meshes[idx as int].trs[i as int],
    {
        proof {
            assert(self@.meshes[idx as int].wf());
            assert(self@.meshes[idx as int] == self.meshes@[idx as int]@);
        }
        self.meshes[idx].get(i)
    }

    /// Reads one transform of one mesh back from the modeled device
    /// buffer.
    pub fn gpu_get(&self, idx: usize, i: usize) -> (r: Transform3D)
        requires
            self@.wf(),
            idx < self@.meshes.len(),
            i < self@.meshes[idx as int].len,
        ensures
            r == self@.meshes[idx as int].gtrs[i as int],
    {
        proof {
            assert(self@.meshes[idx as int].wf());
            assert(self@.meshes[idx as int] == self.meshes@[idx as int]@);
        }
        self.meshes[idx].gpu_get(i)
    }

    /// Overwrites one mesh's host array at `[start, start + vals.len())`.
    pub fn write_range(&mut self, idx: usize, start: usize, vals: &Vec<Transform3D>)
        requires
            old(self)@.wf(),
            idx < old(self)@.meshes.len(),
            start + vals@.len() <= old(self)@.meshes[idx as int].len,
        ensures
            final(self)@ == (MeshGroupView {
                meshes: old(self)@.meshes.update(
                    idx as int,
                    mesh_write_spec(old(self)@.meshes[idx as int], start as int, vals@),
                ),
                ..old(self)@
            }),
            final(self)@.wf(),
    {
        proof {
            assert(old(self)@.meshes[idx as int].wf());
            assert(self@.meshes[idx as int] == self.meshes@[idx as int]@);
        }
        let m = &mut self.meshes[idx];
        m.write_range(start, vals);
        proof {
            assert(self@ =~= (MeshGroupView {
                meshes: old(self)@.meshes.update(
                    idx as int,
                    mesh_write_spec(old(self)@.meshes[idx as int], start as int, vals@),
                ),
                ..old(self)@
            }));
        }
    }

    /// Sets one mesh's logical length; returns it together with whether
    /// the backing storage was reallocated.
    pub fn resize(&mut self, idx: usize, new_len: usize) -> (grew: bool)
        requires
            old(self)@.wf(),
            idx < old(self)@.meshes.len(),
        ensures
            final(self)@ == (MeshGroupView {
                meshes: old(self)@.meshes.update(
                    idx as int,
                    mesh_resize_spec(old(self)@.meshes[idx as int], new_len as nat),
                ),
                ..old(self)@
            }),
            final(self)@.wf(),
            grew <==> new_len > old(self)@.meshes[idx as int].cap(),
    {
        proof {
            assert(old(self)@.meshes[idx as int].wf());
            assert(self@.meshes[idx as int] == self.meshes@[idx as int]@);
        }
        let m = &mut self.meshes[idx];
        let grew = m.resize(new_len);
        proof {
            assert(self@ =~= (MeshGroupView {
                meshes: old(self)@.meshes.update(
                    idx as int,
                    mesh_resize_spec(old(self)@.meshes[idx as int], new_len as nat),
                ),
                ..old(self)@
            }));
        }
        grew
    }

    /// Replays one queued range against one mesh's device buffer.
    /// Tombstoned groups and unknown mesh numbers are left untouched.
    pub fn upload_range(&mut self, idx: usize, start: usize, end: usize)
        requires
            old(self)@.wf(),
        ensures
            final(self)@ == mesh_group_upload_spec(
                old(self)@,
                idx as int,
                start as int,
                end as int,
            ),
            final(self)@.wf(),
    {
        if !self.live || idx >= self.meshes.len() {
            proof {
                assert(self@ =~= mesh_group_upload_spec(
                    old(self)@,
                    idx as int,
                    start as int,
                    end as int,
                ));
            }
            return ;
        }
        proof {
            assert(old(self)@.meshes[idx as int].wf());
            assert(self@.meshes[idx as int] == self.meshes@[idx as int]@);
        }
        let m = &mut self.meshes[idx];
        m.upload_range(start, end);
        proof {
            assert(self@ =~= mesh_group_upload_spec(
                old(self)@,
                idx as int,
                start as int,
                end as int,
            ));
        }
    }
}

/// The mesh-group table: growable, with stable indices and tombstoned
/// removal; the next addition reuses the lowest tombstoned slot.
pub struct MeshRenderer {
    groups: Vec<MeshGroup>,
}

impl MeshRenderer {
    /// The table as a sequence of slot models.
    pub closed spec fn gviews(&self) -> Seq<MeshGroupView> {
        self.groups@.map_values(|g: MeshGroup| g@)
    }

    /// Every slot of the table is well formed.
    pub open spec fn wf(&self) -> bool {
        wf_mesh_groups(self.gviews())
    }

    /// An empty table.
    pub fn new() -> (r: MeshRenderer)
        ensures
            r.wf(),
            r.gviews() == Seq::<MeshGroupView>::empty(),
    {
        let r = MeshRenderer { groups: Vec::new() };
        proof {
            assert(r.gviews() =~= Seq::<MeshGroupView>::empty());
        }
        r
    }

    /// Number of slots, tombstones included.
    pub fn mesh_group_count(&self) -> (r: usize)
        ensures
            r == self.gviews().len(),
    {
        self.groups.len()
    }

    /// Adds a group with one mesh per requested instance count, reusing
    /// the lowest tombstoned slot if there is one.  The returned index
    /// stays valid until the group is removed.
    pub fn add_mesh_group(&mut self, tex: TextureRef, counts: &Vec<usize>) -> (id: usize)
        requires
            old(self).wf(),
        ensures
            final(self).wf(),
            id == first_free_mesh_group(old(self).gviews()),
            id <= old(self).gviews().len(),
            final(self).gviews() == (if id < old(self).gviews().len() {
                old(self).gviews().update(id as int, fresh_mesh_group(tex, counts@))
            } else {
                old(self).gviews().push(fresh_mesh_group(tex, counts@))
            }),
    {
        let n = self.groups.len();
        let mut i: usize = 0;
        while i < n && self.groups[i].live()
            invariant
                n == self.gviews().len(),
                i <= n,
                *self == *old(self),
                forall|j: int| 0 <= j < i ==> (#[trigger] self.gviews()[j]).live,
            decreases n - i,
        {
            i += 1;
        }
        proof {
            lemma_first_free_mesh_group_is(self.gviews(), i as int);
        }
        let g = MeshGroup::new_group(tex, counts);
        if i < n {
            self.groups[i] = g;
            proof {
                assert(self.gviews() =~= old(self).gviews().update(
                    i as int,
                    fresh_mesh_group(tex, counts@),
                ));
            }
        } else {
            self.groups.push(g);
            proof {
                assert(self.gviews() =~= old(self).gviews().push(fresh_mesh_group(tex, counts@)));
            }
        }
        i
    }

    /// Tombstones a group.  Fails if the slot is unknown or already
    /// tombstoned.
    pub fn remove_mesh_group(&mut self, which: usize) -> (r: Result<(), GroupError>)
        requires
            old(self).wf(),
        ensures
            final(self).wf(),
            r is Err <==> (which >= old(self).gviews().len() || !old(self).gviews()[which as int].live),
            r is Err ==> r == Err::<(), GroupError>(GroupError::InvalidGroup) && *final(self)
                == *old(self),
            r is Ok ==> final(self).gviews() == old(self).gviews().update(
                which as int,
                mesh_group_tombstoned(old(self).gviews()[which as int]),
            ),
    {
        if which >= self.groups.len() {
            return Err(GroupError::InvalidGroup);
        }
        if !self.groups[which].live() {
            return Err(GroupError::InvalidGroup);
        }
        let g = &mut self.groups[which];
        g.remove();
        proof {
            assert(self.gviews() =~= old(self).gviews().update(
                which as int,
                mesh_group_tombstoned(old(self).gviews()[which as int]),
            ));
        }
        Ok(())
    }

    /// Number of meshes in a live group.
    pub fn mesh_count(&self, which: usize) -> (r: Result<usize, GroupError>)
        ensures
            r is Err <==> (which >= self.gviews().len() || !self.gviews()[which as int].live),
            r is Err ==> r == Err::<usize, GroupError>(GroupError::InvalidGroup),
            r is Ok ==> r == Ok::<usize, GroupError>(
                (self.gviews()[which as int].meshes.len()) as usize,
            ),
    {
        if which >= self.groups.len() {
            return Err(GroupError::InvalidGroup);
        }
        if !self.groups[which].live() {
            return Err(GroupError::InvalidGroup);
        }
        Ok(self.groups[which].mesh_count())
    }

    /// Number of live instances of one mesh of a live group.
    pub fn mesh_instance_count(&self, which: usize, idx: usize) -> (r: Result<usize, GroupError>)
        ensures
            which >= self.gviews().len() || !self.gviews()[which as int].live ==> r == Err::<
                usize,
                GroupError,
            >(GroupError::InvalidGroup),
            which < self.gviews().len() && self.gviews()[which as int].live && idx
                >= self.gviews()[which as int].meshes.len() ==> r == Err::<usize, GroupError>(
                GroupError::OutOfBounds,
            ),
            which < self.gviews().len() && self.gviews()[which as int].live && idx
                < self.gviews()[which as int].meshes.len() ==> r == Ok::<usize, GroupError>(
                (self.gviews()[which as int].meshes[idx as int].len) as usize,
            ),
    {
        if which >= self.groups.len() {
            return Err(GroupError::InvalidGroup);
        }
        if !self.groups[which].live() {
            return Err(GroupError::InvalidGroup);
        }
        if idx >= self.groups[which].mesh_count() {
            return Err(GroupError::OutOfBounds);
        }
        Ok(self.groups[which].instance_count(idx))
    }

    /// Allocated instance slots of one mesh of a live group.
    pub fn mesh_instance_capacity(&self, which: usize, idx: usize) -> (r: Result<
        usize,
        GroupError,
    >)
        ensures
            which >= self.gviews().len() || !self.gviews()[which as int].live ==> r == Err::<
                usize,
                GroupError,
            >(GroupError::InvalidGroup),
            which < self.gviews().len() && self.gviews()[which as int].live && idx
                >= self.gviews()[which as int].meshes.len() ==> r == Err::<usize, GroupError>(
                GroupError::OutOfBounds,
            ),
            which < self.gviews().len() && self.gviews()[which as int].live && idx
                < self.gviews()[which as int].meshes.len() ==> r == Ok::<usize, GroupError>(
                (self.gviews()[which as int].meshes[idx as int].cap()) as usize,
            ),
    {
        if which >= self.groups.len() {
            return Err(GroupError::InvalidGroup);
        }
        if !self.groups[which].live() {
            return Err(GroupError::InvalidGroup);
        }
        if idx >= self.groups[which].mesh_count() {
            return Err(GroupError::OutOfBounds);
        }
        Ok(self.groups[which].instance_capacity(idx))
    }

    /// Sets the number of instances of one mesh of a live group.  Returns
    /// the resulting length and whether the backing storage (and so the
    /// device buffer) had to be reallocated.
    pub fn resize_group_mesh(&mut self, which: usize, idx: usize, new_len: usize) -> (r: Result<
        (usize, bool),
        GroupError,
    >)
        requires
            old(self).wf(),
        ensures
            final(self).wf(),
            which >= old(self).gviews().len() || !old(self).gviews()[which as int].live ==> r
                == Err::<(usize, bool), GroupError>(GroupError::InvalidGroup) && *final(self)
                == *old(self),
            which < old(self).gviews().len() && old(self).gviews()[which as int].live && idx
                >= old(self).gviews()[which as int].meshes.len() ==> r == Err::<
                (usize, bool),
                GroupError,
            >(GroupError::OutOfBounds) && *final(self) == *old(self),
            which < old(self).gviews().len() && old(self).gviews()[which as int].live && idx
                < old(self).gviews()[which as int].meshes.len() ==> ({
                let g = old(self).gviews()[which as int];
                let m = g.meshes[idx as int];
                &&& r == Ok::<(usize, bool), GroupError>((new_len, new_len > m.cap()))
                &&& final(self).gviews() == old(self).gviews().update(
                    which as int,
                    MeshGroupView {
                        meshes: g.meshes.update(idx as int, mesh_resize_spec(m, new_len as nat)),
                        ..g
                    },
                )
            }),
    {
        if which >= self.groups.len() {
            return Err(GroupError::InvalidGroup);
        }
        if !self.groups[which].live() {
            return Err(GroupError::InvalidGroup);
        }
        if idx >= self.groups[which].mesh_count() {
            return Err(GroupError::OutOfBounds);
        }
        proof {
            assert(self.gviews()[which as int] == self.groups@[which as int]@);
            assert(self.gviews()[which as int].wf());
        }
        let g = &mut self.groups[which];
        let grew = g.resize(idx, new_len);
        proof {
            assert(self.gviews() =~= old(self).gviews().update(
                which as int,
                MeshGroupView {
                    meshes: old(self).gviews()[which as int].meshes.update(
                        idx as int,
                        mesh_resize_spec(
                            old(self).gviews()[which as int].meshes[idx as int],
                            new_len as nat,
                        ),
                    ),
                    ..old(self).gviews()[which as int]
                },
            ));
        }
        Ok((new_len, grew))
    }

    /// Overwrites the instance records of one mesh of a live group at
    /// `[start, start + vals.len())`.
    pub fn write_mesh_range(
        &mut self,
        which: usize,
        idx: usize,
        start: usize,
        vals: &Vec<Transform3D>,
    ) -> (r: Result<(), GroupError>)
        requires
            old(self).wf(),
        ensures
            final(self).wf(),
            which >= old(self).gviews().len() || !old(self).gviews()[which as int].live ==> r
                == Err::<(), GroupError>(GroupError::InvalidGroup) && *final(self) == *old(self),
            which < old(self).gviews().len() && old(self).gviews()[which as int].live && (idx
                >= old(self).gviews()[which as int].meshes.len() || start + vals@.len() > old(
                self,
            ).gviews()[which as int].meshes[idx as int].len) ==> r == Err::<(), GroupError>(
                GroupError::OutOfBounds,
            ) && *final(self) == *old(self),
            which < old(self).gviews().len() && old(self).gviews()[which as int].live && idx < old(
                self,
            ).gviews()[which as int].meshes.len() && start + vals@.len() <= old(
                self,
            ).gviews()[which as int].meshes[idx as int].len ==> ({
                let g = old(self).gviews()[which as int];
                &&& r == Ok::<(), GroupError>(())
                &&& final(self).gviews() == old(self).gviews().update(
                    which as int,
                    MeshGroupView {
                        meshes: g.meshes.update(
                            idx as int,
                            mesh_write_spec(g.meshes[idx as int], start as int, vals@),
                        ),
                        ..g
                    },
                )
            }),
    {
        if which >= self.groups.len() {
            return Err(GroupError::InvalidGroup);
        }
        if !self.groups[which].live() {
            return Err(GroupError::InvalidGroup);
        }
        if idx >= self.groups[which].mesh_count() {
            return Err(GroupError::OutOfBounds);
        }
        proof {
            assert(self.gviews()[which as int] == self.groups@[which as int]@);
            assert(self.gviews()[which as int].wf());
        }
        let mlen = self.groups[which].instance_count(idx);
        if start > mlen || vals.len() > mlen - start {
            return Err(GroupError::OutOfBounds);
        }
        let g = &mut self.groups[which];
        g.write_range(idx, start, vals);
        proof {
            assert(self.gviews() =~= old(self).gviews().update(
                which as int,
                MeshGroupView {
                    meshes: old(self).gviews()[which as int].meshes.update(
                        idx as int,
                        mesh_write_spec(
                            old(self).gviews()[which as int].meshes[idx as int],
                            start as int,
                            vals@,
                        ),
                    ),
                    ..old(self).gviews()[which as int]
                },
            ));
        }
        Ok(())
    }

    /// Reads one host-side instance transform of one mesh.
    pub fn get_mesh(&self, which: usize, idx: usize, i: usize) -> (r: Result<
        Transform3D,
        GroupError,
    >)
        requires
            self.wf(),
        ensures
            which >= self.gviews().len() || !self.gviews()[which as int].live ==> r == Err::<
                Transform3D,
                GroupError,
            >(GroupError::InvalidGroup),
            which < self.gviews().len() && self.gviews()[which as int].live && (idx
                >= self.gviews()[which as int].meshes.len() || i
                >= self.gviews()[which as int].meshes[idx as int].len) ==> r == Err::<
                Transform3D,
                GroupError,
            >(GroupError::OutOfBounds),
            which < self.gviews().len() && self.gviews()[which as int].live && idx
                < self.gviews()[which as int].meshes.len() && i
                < self.gviews()[which as int].meshes[idx as int].len ==> r == Ok::<
                Transform3D,
                GroupError,
            >(self.gviews()[which as int].meshes[idx as int].trs[i as int]),
    {
        if which >= self.groups.len() {
            return Err(GroupError::InvalidGroup);
        }
        if !self.groups[which].live() {
            return Err(GroupError::InvalidGroup);
        }
        if idx >= self.groups[which].mesh_count() {
            return Err(GroupError::OutOfBounds);
        }
        proof {
            assert(self.gviews()[which as int] == self.groups@[which as int]@);
            assert(self.gviews()[which as int].wf());
        }
        if i >= self.groups[which].instance_count(idx) {
            return Err(GroupError::OutOfBounds);
        }
        Ok(self.groups[which].get(idx, i))
    }

    /// Reads one instance transform of one mesh back from the modeled
    /// device buffer.
    pub fn gpu_mesh(&self, which: usize, idx: usize, i: usize) -> (r: Result<
        Transform3D,
        GroupError,
    >)
        requires
            self.wf(),
        ensures
            which >= self.gviews().len() || !self.gviews()[which as int].live ==> r == Err::<
                Transform3D,
                GroupError,
            >(GroupError::InvalidGroup),
            which < self.gviews().len() && self.gviews()[which as int].live && (idx
                >= self.gviews()[which as int].meshes.len() || i
                >= self.gviews()[which as int].meshes[idx as int].len) ==> r == Err::<
                Transform3D,
                GroupError,
            >(GroupError::OutOfBounds),
            which < self.gviews().len() && self.gviews()[which as int].live && idx
                < self.gviews()[which as int].meshes.len() && i
                < self.gviews()[which as int].meshes[idx as int].len ==> r == Ok::<
                Transform3D,
                GroupError,
            >(self.gviews()[which as int].meshes[idx as int].gtrs[i as int]),
    {
        if which >= self.groups.len() {
            return Err(GroupError::InvalidGroup);
        }
        if !self.groups[which].live() {
            return Err(GroupError::InvalidGroup);
        }
        if idx >= self.groups[which].mesh_count() {
            return Err(GroupError::OutOfBounds);
        }
        proof {
            assert(self.gviews()[which as int] == self.groups@[which as int]@);
            assert(self.gviews()[which as int].wf());
        }
        if i >= self.groups[which].instance_count(idx) {
            return Err(GroupError::OutOfBounds);
        }
        Ok(self.groups[which].gpu_get(idx, i))
    }

    /// Replays one queued range against one mesh's device buffer.
    /// Unknown slots, tombstones and unknown mesh numbers are left
    /// untouched, and the range is clamped to the live range.
    pub fn upload_meshes(&mut self, which: usize, idx: usize, start: usize, end: usize)
        requires
            old(self).wf(),
        ensures
            final(self).wf(),
            which < old(self).gviews().len() ==> final(self).gviews() == old(self).gviews().update(
                which as int,
                mesh_group_upload_spec(
                    old(self).gviews()[which as int],
                    idx as int,
                    start as int,
                    end as int,
                ),
            ),
            which >= old(self).gviews().len() ==> *final(self) == *old(self),
    {
        if which >= self.groups.len() {
            return ;
        }
        proof {
            assert(self.gviews()[which as int] == self.groups@[which as int]@);
            assert(self.gviews()[which as int].wf());
        }
        let g = &mut self.groups[which];
        g.upload_range(idx, start, end);
        proof {
            assert(self.gviews() =~= old(self).gviews().update(
                which as int,
                mesh_group_upload_spec(
                    old(self).gviews()[which as int],
                    idx as int,
                    start as int,
                    end as int,
                ),
            ));
        }
    }
}

/// Shrinking a mesh and then resizing back to its original instance count
/// moves only the logical bound: every record of the original live range
/// is preserved, because neither resize reallocates (the original count
/// never exceeds the capacity already reached).
pub proof fn lemma_mesh_shrink_then_regrow_preserves(m: MeshView, small: nat)
    requires
        m.wf(),
        small <= m.len,
    ensures
        mesh_resize_spec(mesh_resize_spec(m, small), m.len) == m,
{
    assert(mesh_resize_spec(mesh_resize_spec(m, small), m.len) =~= m);
}

} // verus!
