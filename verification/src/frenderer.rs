//! The renderer facade and the upload scheduler.
//!
//! [`Renderer`] owns the sprite group table, the two mesh-group tables
//! (textured and flat-colored), and one FIFO queue of pending dirty
//! ranges spanning all three.  Range-scoped writes and capacity growth
//! enqueue entries; [`Renderer::do_uploads`] drains the queue in order of
//! insertion and replays each entry as one write against the named
//! table's modeled device buffers.

use crate::instance::GroupError;
use crate::instance::SheetRegion;
use crate::instance::TextureRef;
use crate::instance::Transform;
use crate::instance::Transform3D;
use crate::meshes::MeshGroupView;
use crate::meshes::MeshRenderer;
use crate::meshes::first_free_mesh_group;
use crate::meshes::fresh_mesh_group;
use crate::meshes::mesh_group_tombstoned;
use crate::meshes::mesh_group_upload_spec;
use crate::meshes::mesh_resize_spec;
use crate::meshes::mesh_upload_spec;
use crate::meshes::mesh_write_spec;
use crate::meshes::wf_mesh_groups;
use crate::sprites::GroupView;
use crate::sprites::SpriteRenderer;
use crate::sprites::first_free;
use crate::sprites::fresh_group;
use crate::sprites::resize_spec;
use crate::sprites::tombstoned;
use crate::sprites::upload_spec;
use crate::sprites::wf_groups;
use crate::sprites::write_spec;
use vstd::prelude::*;

verus! {

/// One pending dirty range: a half-open index interval of instance
/// records, tagged with the semantic family it targets — a sprite group's
/// parallel arrays, or one mesh of a textured or flat mesh group.
#[derive(Clone, Copy, PartialEq, Eq, Structural, Debug)]
pub enum Upload {
    Sprite { group: usize, start: usize, end: usize },
    Mesh { group: usize, mesh: usize, start: usize, end: usize },
    Flat { group: usize, mesh: usize, start: usize, end: usize },
}

/// The sprite table after one queued entry has been replayed.  Entries of
/// the mesh families and entries naming an unknown slot leave it as is.
pub open spec fn apply_upload(gs: Seq<GroupView>, u: Upload) -> Seq<GroupView> {
    match u {
        Upload::Sprite { group, start, end } => {
            if group < gs.len() {
                gs.update(group as int, upload_spec(gs[group as int], start as int, end as int))
            } else {
                gs
            }
        },
        _ => gs,
    }
}

/// The sprite table after a whole queue has been replayed, first entry
/// first.
pub open spec fn apply_uploads(gs: Seq<GroupView>, us: Seq<Upload>) -> Seq<GroupView>
    decreases us.len(),
{
    if us.len() == 0 {
        gs
    } else {
        apply_uploads(apply_upload(gs, us[0]), us.drop_first())
    }
}

/// The mesh entry a queued range holds for one mesh family: the flat
/// family when `flat` is set, the textured family otherwise.
pub open spec fn mesh_entry_of(u: Upload, flat: bool) -> Option<(usize, usize, usize, usize)> {
    match u {
        Upload::Mesh { group, mesh, start, end } => if flat {
            None
        } else {
            Some((group, mesh, start, end))
        },
        Upload::Flat { group, mesh, start, end } => if flat {
            Some((group, mesh, start, end))
        } else {
            None
        },
        Upload::Sprite { group, start, end } => None,
    }
}

/// One mesh-family table after one queued entry has been replayed.
pub open spec fn apply_mesh_upload(gs: Seq<MeshGroupView>, u: Upload, flat: bool) -> Seq<
    MeshGroupView,
> {
    match mesh_entry_of(u, flat) {
        Some(entry) => {
            if entry.0 < gs.len() {
                gs.update(
                    entry.0 as int,
                    mesh_group_upload_spec(
                        gs[entry.0 as int],
                        entry.1 as int,
                        entry.2 as int,
                        entry.3 as int,
                    ),
                )
            } else {
                gs
            }
        },
        None => gs,
    }
}

/// One mesh-family table after a whole queue has been replayed, first
/// entry first.
pub open spec fn apply_mesh_uploads(gs: Seq<MeshGroupView>, us: Seq<Upload>, flat: bool) -> Seq<
    MeshGroupView,
>
    decreases us.len(),
{
    if us.len() == 0 {
        gs
    } else {
        apply_mesh_uploads(apply_mesh_upload(gs, us[0], flat), us.drop_first(), flat)
    }
}

/// Replaying a queue with one more entry at the back replays the queue
/// and then the entry (sprite table).
pub proof fn lemma_apply_uploads_snoc(gs: Seq<GroupView>, us: Seq<Upload>, u: Upload)
    ensures
        apply_uploads(gs, us.push(u)) == apply_upload(apply_uploads(gs, us), u),
    decreases us.len(),
{
    let p = us.push(u);
    if us.len() == 0 {
        assert(p[0] == u);
        assert(p.drop_first() =~= Seq::<Upload>::empty());
        assert(apply_uploads(gs, p) == apply_uploads(apply_upload(gs, u), p.drop_first()));
        assert(apply_uploads(apply_upload(gs, u), Seq::<Upload>::empty()) == apply_upload(gs, u));
        assert(apply_uploads(gs, us) == gs);
    } else {
        assert(p[0] == us[0]);
        assert(p.drop_first() =~= us.drop_first().push(u));
        lemma_apply_uploads_snoc(apply_upload(gs, us[0]), us.drop_first(), u);
        assert(apply_uploads(gs, p) == apply_uploads(apply_upload(gs, us[0]), p.drop_first()));
        assert(apply_uploads(gs, us) == apply_uploads(apply_upload(gs, us[0]), us.drop_first()));
    }
}

/// Replaying a queue with one more entry at the back replays the queue
/// and then the entry (mesh-family tables).
pub proof fn lemma_apply_mesh_uploads_snoc(
    gs: Seq<MeshGroupView>,
    us: Seq<Upload>,
    u: Upload,
    flat: bool,
)
    ensures
        apply_mesh_uploads(gs, us.push(u), flat) == apply_mesh_upload(
            apply_mesh_uploads(gs, us, flat),
            u,
            flat,
        ),
    decreases us.len(),
{
    let p = us.push(u);
    if us.len() == 0 {
        assert(p[0] == u);
        assert(p.drop_first() =~= Seq::<Upload>::empty());
        assert(apply_mesh_uploads(gs, p, flat) == apply_mesh_uploads(
            apply_mesh_upload(gs, u, flat),
            p.drop_first(),
            flat,
        ));
        assert(apply_mesh_uploads(apply_mesh_upload(gs, u, flat), Seq::<Upload>::empty(), flat)
            == apply_mesh_upload(gs, u, flat));
        assert(apply_mesh_uploads(gs, us, flat) == gs);
    } else {
        assert(p[0] == us[0]);
        assert(p.drop_first() =~= us.drop_first().push(u));
        lemma_apply_mesh_uploads_snoc(apply_mesh_upload(gs, us[0], flat), us.drop_first(), u, flat);
        assert(apply_mesh_uploads(gs, p, flat) == apply_mesh_uploads(
            apply_mesh_upload(gs, us[0], flat),
            p.drop_first(),
            flat,
        ));
        assert(apply_mesh_uploads(gs, us, flat) == apply_mesh_uploads(
            apply_mesh_upload(gs, us[0], flat),
            us.drop_first(),
            flat,
        ));
    }
}

/// Replaying an entry touches only device buffers: slot count, liveness,
/// metadata, logical lengths and the host arrays of the sprite table all
/// stay as they were, and well-formedness is kept.
pub proof fn lemma_apply_upload_preserves(gs: Seq<GroupView>, u: Upload)
    requires
        wf_groups(gs),
    ensures
        apply_upload(gs, u).len() == gs.len(),
        wf_groups(apply_upload(gs, u)),
        forall|i: int|
            0 <= i < gs.len() ==> {
                let r = #[trigger] apply_upload(gs, u)[i];
                r.live == gs[i].live && r.tex == gs[i].tex && r.len == gs[i].len && r.trs
                    == gs[i].trs && r.regs == gs[i].regs
            },
{
}

/// Replaying a whole queue touches only device buffers (sprite table).
pub proof fn lemma_apply_uploads_preserves(gs: Seq<GroupView>, us: Seq<Upload>)
    requires
        wf_groups(gs),
    ensures
        apply_uploads(gs, us).len() == gs.len(),
        wf_groups(apply_uploads(gs, us)),
        forall|i: int|
            0 <= i < gs.len() ==> {
                let r = #[trigger] apply_uploads(gs, us)[i];
                r.live == gs[i].live && r.tex == gs[i].tex && r.len == gs[i].len && r.trs
                    == gs[i].trs && r.regs == gs[i].regs
            },
    decreases us.len(),
{
    if us.len() == 0 {
    } else {
        lemma_apply_upload_preserves(gs, us[0]);
        lemma_apply_uploads_preserves(apply_upload(gs, us[0]), us.drop_first());
    }
}

/// Replaying an entry touches only device buffers: slot count, liveness,
/// metadata, mesh counts, logical lengths and the host arrays of a
/// mesh-family table all stay as they were, and well-formedness is kept.
pub proof fn lemma_apply_mesh_upload_preserves(gs: Seq<MeshGroupView>, u: Upload, flat: bool)
    requires
        wf_mesh_groups(gs),
    ensures
        apply_mesh_upload(gs, u, flat).len() == gs.len(),
        wf_mesh_groups(apply_mesh_upload(gs, u, flat)),
        forall|i: int|
            0 <= i < gs.len() ==> {
                let r = #[trigger] apply_mesh_upload(gs, u, flat)[i];
                r.live == gs[i].live && r.tex == gs[i].tex && r.meshes.len() == gs[i].meshes.len()
                    && (forall|k: int|
                    0 <= k < gs[i].meshes.len() ==> (#[trigger] r.meshes[k]).len
                        == gs[i].meshes[k].len && r.meshes[k].trs == gs[i].meshes[k].trs)
            },
{
}

/// Replaying a whole queue touches only device buffers (mesh-family
/// tables).
pub proof fn lemma_apply_mesh_uploads_preserves(gs: Seq<MeshGroupView>, us: Seq<Upload>, flat: bool)
    requires
        wf_mesh_groups(gs),
    ensures
        apply_mesh_uploads(gs, us, flat).len() == gs.len(),
        wf_mesh_groups(apply_mesh_uploads(gs, us, flat)),
        forall|i: int|
            0 <= i < gs.len() ==> {
                let r = #[trigger] apply_mesh_uploads(gs, us, flat)[i];
                r.live == gs[i].live && r.tex == gs[i].tex && r.meshes.len() == gs[i].meshes.len()
                    && (forall|k: int|
                    0 <= k < gs[i].meshes.len() ==> (#[trigger] r.meshes[k]).len
                        == gs[i].meshes[k].len && r.meshes[k].trs == gs[i].meshes[k].trs)
            },
    decreases us.len(),
{
    if us.len() == 0 {
    } else {
        lemma_apply_mesh_upload_preserves(gs, us[0], flat);
        lemma_apply_mesh_uploads_preserves(
            apply_mesh_upload(gs, us[0], flat),
            us.drop_first(),
            flat,
        );
    }
}

/// The renderer: the three group tables together with the pending upload
/// queue.  All edits go through here so that every handed-out range is
/// queued for the next flush.
pub struct Renderer {
    sprites: SpriteRenderer,
    meshes: MeshRenderer,
    flats: MeshRenderer,
    queued_uploads: Vec<Upload>,
}

impl Renderer {
    /// The sprite table as a sequence of slot models.
    pub closed spec fn gviews(&self) -> Seq<GroupView> {
        self.sprites.gviews()
    }

    /// The textured-mesh table as a sequence of slot models.
    pub closed spec fn mviews(&self) -> Seq<MeshGroupView> {
        self.meshes.gviews()
    }

    /// The flat-mesh table as a sequence of slot models.
    pub closed spec fn fviews(&self) -> Seq<MeshGroupView> {
        self.flats.gviews()
    }

    /// The pending dirty ranges, in order of insertion.
    pub closed spec fn queue(&self) -> Seq<Upload> {
        self.queued_uploads@
    }

    /// Every slot of every table is well formed.
    pub open spec fn wf(&self) -> bool {
        &&& wf_groups(self.gviews())
        &&& wf_mesh_groups(self.mviews())
        &&& wf_mesh_groups(self.fviews())
    }

    /// The two mesh-family tables are those of `other`.
    pub open spec fn same_mesh_tables(&self, other: &Renderer) -> bool {
        &&& self.mviews() == other.mviews()
        &&& self.fviews() == other.fviews()
    }

    /// The sprite table and the flat table are those of `other`.
    pub open spec fn same_but_meshes(&self, other: &Renderer) -> bool {
        &&& self.gviews() == other.gviews()
        &&& self.fviews() == other.fviews()
    }

    /// The sprite table and the textured-mesh table are those of `other`.
    pub open spec fn same_but_flats(&self, other: &Renderer) -> bool {
        &&& self.gviews() == other.gviews()
        &&& self.mviews() == other.mviews()
    }

    /// A renderer with no groups and nothing queued.
    pub fn new() -> (r: Renderer)
        ensures
            r.wf(),
            r.gviews() == Seq::<GroupView>::empty(),
            r.mviews() == Seq::<MeshGroupView>::empty(),
            r.fviews() == Seq::<MeshGroupView>::empty(),
            r.queue() == Seq::<Upload>::empty(),
    {
        Renderer {
            sprites: SpriteRenderer::new(),
            meshes: MeshRenderer::new(),
            flats: MeshRenderer::new(),
            queued_uploads: Vec::new(),
        }
    }

    /// Creates a sprite group sized to the given parallel arrays, which
    /// must have the same length, and returns its stable index.  The
    /// lowest tombstoned slot is reused before a new slot is appended.
    /// The device buffers are created holding the initial data, so
    /// nothing is queued.
    pub fn sprite_group_add(
        &mut self,
        tex: TextureRef,
        world_transforms: Vec<Transform>,
        sheet_regions: Vec<SheetRegion>,
    ) -> (id: usize)
        requires
            old(self).wf(),
            world_transforms@.len() == sheet_regions@.len(),
        ensures
            final(self).wf(),
            id == first_free(old(self).gviews()),
            id <= old(self).gviews().len(),
            final(self).gviews() == (if id < old(self).gviews().len() {
                old(self).gviews().update(
                    id as int,
                    fresh_group(tex, world_transforms@, sheet_regions@),
                )
            } else {
                old(self).gviews().push(fresh_group(tex, world_transforms@, sheet_regions@))
            }),
            final(self).queue() == old(self).queue(),
            final(self).same_mesh_tables(old(self)),
    {
        self.sprites.add_sprite_group(tex, world_transforms, sheet_regions)
    }

    /// Number of sprite group slots, tombstones included.
    pub fn sprite_group_count(&self) -> (r: usize)
        ensures
            r == self.gviews().len(),
    {
        self.sprites.sprite_group_count()
    }

    /// Tombstones a sprite group.  Fails if the index is unknown or
    /// already tombstoned; afterwards every use of the index fails until
    /// an addition reuses the slot.
    pub fn sprite_group_remove(&mut self, which: usize) -> (r: Result<(), GroupError>)
        requires
            old(self).wf(),
        ensures
            final(self).wf(),
            r is Err <==> (which >= old(self).gviews().len() || !old(self).gviews()[which as int].live),
            r is Err ==> r == Err::<(), GroupError>(GroupError::InvalidGroup) && *final(self)
                == *old(self),
            r is Ok ==> final(self).gviews() == old(self).gviews().update(
                which as int,
                tombstoned(old(self).gviews()[which as int]),
            ),
            final(self).queue() == old(self).queue(),
            final(self).same_mesh_tables(old(self)),
    {
        self.sprites.remove_sprite_group(which)
    }

    /// Logical length of a live sprite group.
    pub fn sprite_group_size(&self, which: usize) -> (r: Result<usize, GroupError>)
        ensures
            r is Err <==> (which >= self.gviews().len() || !self.gviews()[which as int].live),
            r is Err ==> r == Err::<usize, GroupError>(GroupError::InvalidGroup),
            r is Ok ==> r == Ok::<usize, GroupError>((self.gviews()[which as int].len) as usize),
    {
        self.sprites.sprite_group_size(which)
    }

    /// Sets the logical length of a live sprite group and returns it.
    /// Within the group's capacity only the logical bound moves.  Past it
    /// the storage and the device buffer are reallocated — the recreated
    /// buffer holds no data, so the whole live range is queued as dirty.
    pub fn sprite_group_resize(&mut self, which: usize, new_len: usize) -> (r: Result<
        usize,
        GroupError,
    >)
        requires
            old(self).wf(),
        ensures
            final(self).wf(),
            r is Err <==> (which >= old(self).gviews().len() || !old(self).gviews()[which as int].live),
            r is Err ==> r == Err::<usize, GroupError>(GroupError::InvalidGroup) && *final(self)
                == *old(self),
            r is Ok ==> ({
                let g = old(self).gviews()[which as int];
                &&& r == Ok::<usize, GroupError>(new_len)
                &&& final(self).gviews() == old(self).gviews().update(
                    which as int,
                    resize_spec(g, new_len as nat),
                )
                &&& final(self).queue() == (if new_len > g.cap() {
                    old(self).queue().push(Upload::Sprite { group: which, start: 0, end: new_len })
                } else {
                    old(self).queue()
                })
            }),
            final(self).same_mesh_tables(old(self)),
    {
        match self.sprites.resize_sprite_group(which, new_len) {
            Err(e) => Err(e),
            Ok((n, grew)) => {
                if grew {
                    self.queued_uploads.push(
                        Upload::Sprite { group: which, start: 0, end: new_len },
                    );
                }
                Ok(n)
            },
        }
    }

    /// Overwrites the records of a live sprite group at
    /// `[start, start + world_transforms.len())` in both parallel arrays
    /// and queues exactly that range for the next flush.  The two slices
    /// must have the same length; a range beyond the group's logical
    /// length is rejected.
    pub fn write_sprites(
        &mut self,
        which: usize,
        start: usize,
        world_transforms: &Vec<Transform>,
        sheet_regions: &Vec<SheetRegion>,
    ) -> (r: Result<(), GroupError>)
        requires
            old(self).wf(),
            world_transforms@.len() == sheet_regions@.len(),
        ensures
            final(self).wf(),
            which >= old(self).gviews().len() || !old(self).gviews()[which as int].live ==> r
                == Err::<(), GroupError>(GroupError::InvalidGroup) && *final(self) == *old(self),
            which < old(self).gviews().len() && old(self).gviews()[which as int].live && start
                + world_transforms@.len() > old(self).gviews()[which as int].len ==> r == Err::<
                (),
                GroupError,
            >(GroupError::OutOfBounds) && *final(self) == *old(self),
            which < old(self).gviews().len() && old(self).gviews()[which as int].live && start
                + world_transforms@.len() <= old(self).gviews()[which as int].len ==> ({
                &&& r == Ok::<(), GroupError>(())
                &&& final(self).gviews() == old(self).gviews().update(
                    which as int,
                    write_spec(
                        old(self).gviews()[which as int],
                        start as int,
                        world_transforms@,
                        sheet_regions@,
                    ),
                )
                &&& final(self).queue() == old(self).queue().push(
                    Upload::Sprite {
                        group: which,
                        start,
                        end: (start + world_transforms@.len()) as usize,
                    },
                )
            }),
            final(self).same_mesh_tables(old(self)),
    {
        match self.sprites.write_sprite_range(which, start, world_transforms, sheet_regions) {
            Err(e) => Err(e),
            Ok(()) => {
                proof {
                    assert(old(self).gviews()[which as int].wf());
                }
                let end = start + world_transforms.len();
                self.queued_uploads.push(Upload::Sprite { group: which, start, end });
                Ok(())
            },
        }
    }

    /// Reads one host-side record pair of a live sprite group.
    pub fn get_sprite(&self, which: usize, i: usize) -> (r: Result<
        (Transform, SheetRegion),
        GroupError,
    >)
        requires
            self.wf(),
        ensures
            which >= self.gviews().len() || !self.gviews()[which as int].live ==> r == Err::<
                (Transform, SheetRegion),
                GroupError,
            >(GroupError::InvalidGroup),
            which < self.gviews().len() && self.gviews()[which as int].live && i
                >= self.gviews()[which as int].len ==> r == Err::<
                (Transform, SheetRegion),
                GroupError,
            >(GroupError::OutOfBounds),
            which < self.gviews().len() && self.gviews()[which as int].live && i
                < self.gviews()[which as int].len ==> r == Ok::<(Transform, SheetRegion), GroupError>(
                (self.gviews()[which as int].trs[i as int], self.gviews()[which as int].regs[i as int]),
            ),
    {
        self.sprites.get_sprite(which, i)
    }

    /// Reads one record pair back from a live sprite group's modeled
    /// device buffers: what the GPU would see if it drew now.
    pub fn gpu_sprite(&self, which: usize, i: usize) -> (r: Result<
        (Transform, SheetRegion),
        GroupError,
    >)
        requires
            self.wf(),
        ensures
            which >= self.gviews().len() || !self.gviews()[which as int].live ==> r == Err::<
                (Transform, SheetRegion),
                GroupError,
            >(GroupError::InvalidGroup),
            which < self.gviews().len() && self.gviews()[which as int].live && i
                >= self.gviews()[which as int].len ==> r == Err::<
                (Transform, SheetRegion),
                GroupError,
            >(GroupError::OutOfBounds),
            which < self.gviews().len() && self.gviews()[which as int].live && i
                < self.gviews()[which as int].len ==> r == Ok::<(Transform, SheetRegion), GroupError>(
                (
                    self.gviews()[which as int].gtrs[i as int],
                    self.gviews()[which as int].gregs[i as int],
                ),
            ),
    {
        self.sprites.gpu_sprite(which, i)
    }


    /// Adds a textured mesh group with one mesh per entry of
    /// `mesh_instance_counts`, each starting with that many zeroed
    /// instances, and returns its stable index.  The lowest tombstoned
    /// slot is reused before a new slot is appended.  The device buffers
    /// are created zeroed like the host arrays, so nothing is queued.
    pub fn mesh_group_add(&mut self, tex: TextureRef, mesh_instance_counts: &Vec<usize>) -> (id:
        usize)
        requires
            old(self).wf(),
        ensures
            final(self).wf(),
            id == first_free_mesh_group(old(self).mviews()),
            id <= old(self).mviews().len(),
            final(self).mviews() == (if id < old(self).mviews().len() {
                old(self).mviews().update(id as int, fresh_mesh_group(tex, mesh_instance_counts@))
            } else {
                old(self).mviews().push(fresh_mesh_group(tex, mesh_instance_counts@))
            }),
            final(self).queue() == old(self).queue(),
            final(self).same_but_meshes(old(self)),
    {
        self.meshes.add_mesh_group(tex, mesh_instance_counts)
    }

    /// Number of textured mesh group slots, tombstones included.
    pub fn mesh_group_count(&self) -> (r: usize)
        ensures
            r == self.mviews().len(),
    {
        self.meshes.mesh_group_count()
    }

    /// Tombstones a textured mesh group.  Fails if the index is unknown or
    /// already tombstoned.
    pub fn mesh_group_remove(&mut self, which: usize) -> (r: Result<(), GroupError>)
        requires
            old(self).wf(),
        ensures
            final(self).wf(),
            r is Err <==> (which >= old(self).mviews().len() || !old(self).mviews()[which as int].live),
            r is Err ==> r == Err::<(), GroupError>(GroupError::InvalidGroup) && *final(self)
                == *old(self),
            r is Ok ==> final(self).mviews() == old(self).mviews().update(
                which as int,
                mesh_group_tombstoned(old(self).mviews()[which as int]),
            ),
            final(self).queue() == old(self).queue(),
            final(self).same_but_meshes(old(self)),
    {
        self.meshes.remove_mesh_group(which)
    }

    /// Number of meshes in a live textured mesh group.
    pub fn mesh_group_size(&self, which: usize) -> (r: Result<usize, GroupError>)
        ensures
            r is Err <==> (which >= self.mviews().len() || !self.mviews()[which as int].live),
            r is Err ==> r == Err::<usize, GroupError>(GroupError::InvalidGroup),
            r is Ok ==> r == Ok::<usize, GroupError>(
                (self.mviews()[which as int].meshes.len()) as usize,
            ),
    {
        self.meshes.mesh_count(which)
    }

    /// Number of live instances of one mesh of a live textured mesh group.
    pub fn mesh_instance_count(&self, which: usize, idx: usize) -> (r: Result<usize, GroupError>)
        ensures
            which >= self.mviews().len() || !self.mviews()[which as int].live ==> r == Err::<
                usize,
                GroupError,
            >(GroupError::InvalidGroup),
            which < self.mviews().len() && self.mviews()[which as int].live && idx
                >= self.mviews()[which as int].meshes.len() ==> r == Err::<usize, GroupError>(
                GroupError::OutOfBounds,
            ),
            which < self.mviews().len() && self.mviews()[which as int].live && idx
                < self.mviews()[which as int].meshes.len() ==> r == Ok::<usize, GroupError>(
                (self.mviews()[which as int].meshes[idx as int].len) as usize,
            ),
    {
        self.meshes.mesh_instance_count(which, idx)
    }

    /// Sets the number of instances of one mesh of a live textured mesh
    /// group and returns it.  Within the mesh's capacity only the logical
    /// bound moves.  Past it the storage and the device buffer are
    /// reallocated — the recreated buffer holds no data, so the whole
    /// live range is queued as dirty.
    pub fn mesh_instance_resize(&mut self, which: usize, idx: usize, new_len: usize) -> (r:
        Result<usize, GroupError>)
        requires
            old(self).wf(),
        ensures
            final(self).wf(),
            which >= old(self).mviews().len() || !old(self).mviews()[which as int].live ==> r
                == Err::<usize, GroupError>(GroupError::InvalidGroup) && *final(self) == *old(self),
            which < old(self).mviews().len() && old(self).mviews()[which as int].live && idx
                >= old(self).mviews()[which as int].meshes.len() ==> r == Err::<usize, GroupError>(
                GroupError::OutOfBounds,
            ) && *final(self) == *old(self),
            which < old(self).mviews().len() && old(self).mviews()[which as int].live && idx < old(
                self,
            ).mviews()[which as int].meshes.len() ==> ({
                let g = old(self).mviews()[which as int];
                let m = g.meshes[idx as int];
                &&& r == Ok::<usize, GroupError>(new_len)
                &&& final(self).mviews() == old(self).mviews().update(
                    which as int,
                    MeshGroupView {
                        meshes: g.meshes.update(idx as int, mesh_resize_spec(m, new_len as nat)),
                        ..g
                    },
                )
                &&& final(self).queue() == (if new_len > m.cap() {
                    old(self).queue().push(
                        Upload::Mesh { group: which, mesh: idx, start: 0, end: new_len },
                    )
                } else {
                    old(self).queue()
                })
            }),
            final(self).same_but_meshes(old(self)),
    {
        match self.meshes.resize_group_mesh(which, idx, new_len) {
            Err(e) => Err(e),
            Ok((n, grew)) => {
                if grew {
                    self.queued_uploads.push(
                        Upload::Mesh { group: which, mesh: idx, start: 0, end: new_len },
                    );
                }
                Ok(n)
            },
        }
    }

    /// Overwrites the instance records of one mesh of a live textured mesh
    /// group at `[start, start + vals.len())` and queues exactly that
    /// range for the next flush.  A range beyond the mesh's live range is
    /// rejected.
    pub fn write_meshes(
        &mut self,
        which: usize,
        idx: usize,
        start: usize,
        vals: &Vec<Transform3D>,
    ) -> (r: Result<(), GroupError>)
        requires
            old(self).wf(),
        ensures
            final(self).wf(),
            which >= old(self).mviews().len() || !old(self).mviews()[which as int].live ==> r
                == Err::<(), GroupError>(GroupError::InvalidGroup) && *final(self) == *old(self),
            which < old(self).mviews().len() && old(self).mviews()[which as int].live && (idx
                >= old(self).mviews()[which as int].meshes.len() || start + vals@.len() > old(
                self,
            ).mviews()[which as int].meshes[idx as int].len) ==> r == Err::<(), GroupError>(
                GroupError::OutOfBounds,
            ) && *final(self) == *old(self),
            which < old(self).mviews().len() && old(self).mviews()[which as int].live && idx < old(
                self,
            ).mviews()[which as int].meshes.len() && start + vals@.len() <= old(
                self,
            ).mviews()[which as int].meshes[idx as int].len ==> ({
                let g = old(self).mviews()[which as int];
                &&& r == Ok::<(), GroupError>(())
                &&& final(self).mviews() == old(self).mviews().update(
                    which as int,
                    MeshGroupView {
                        meshes: g.meshes.update(
                            idx as int,
                            mesh_write_spec(g.meshes[idx as int], start as int, vals@),
                        ),
                        ..g
                    },
                )
                &&& final(self).queue() == old(self).queue().push(
                    Upload::Mesh {
                        group: which,
                        mesh: idx,
                        start,
                        end: (start + vals@.len()) as usize,
                    },
                )
            }),
            final(self).same_but_meshes(old(self)),
    {
        match self.meshes.write_mesh_range(which, idx, start, vals) {
            Err(e) => Err(e),
            Ok(()) => {
                proof {
                    assert(old(self).mviews()[which as int].wf());
                    assert(old(self).mviews()[which as int].meshes[idx as int].wf());
                }
                let end = start + vals.len();
                self.queued_uploads.push(Upload::Mesh { group: which, mesh: idx, start, end });
                Ok(())
            },
        }
    }

    /// Reads one host-side instance transform of one mesh of a live
    /// textured mesh group.
    pub fn get_mesh(&self, which: usize, idx: usize, i: usize) -> (r: Result<
        Transform3D,
        GroupError,
    >)
        requires
            self.wf(),
        ensures
            which >= self.mviews().len() || !self.mviews()[which as int].live ==> r == Err::<
                Transform3D,
                GroupError,
            >(GroupError::InvalidGroup),
            which < self.mviews().len() && self.mviews()[which as int].live && (idx
                >= self.mviews()[which as int].meshes.len() || i
                >= self.mviews()[which as int].meshes[idx as int].len) ==> r == Err::<
                Transform3D,
                GroupError,
            >(GroupError::OutOfBounds),
            which < self.mviews().len() && self.mviews()[which as int].live && idx
                < self.mviews()[which as int].meshes.len() && i
                < self.mviews()[which as int].meshes[idx as int].len ==> r == Ok::<
                Transform3D,
                GroupError,
            >(self.mviews()[which as int].meshes[idx as int].trs[i as int]),
    {
        self.meshes.get_mesh(which, idx, i)
    }

    /// Reads one instance transform of one mesh of a live textured mesh
    /// group back from the modeled device buffer.
    pub fn gpu_mesh(&self, which: usize, idx: usize, i: usize) -> (r: Result<
        Transform3D,
        GroupError,
    >)
        requires
            self.wf(),
        ensures
            which >= self.mviews().len() || !self.mviews()[which as int].live ==> r == Err::<
                Transform3D,
                GroupError,
            >(GroupError::InvalidGroup),
            which < self.mviews().len() && self.mviews()[which as int].live && (idx
                >= self.mviews()[which as int].meshes.len() || i
                >= self.mviews()[which as int].meshes[idx as int].len) ==> r == Err::<
                Transform3D,
                GroupError,
            >(GroupError::OutOfBounds),
            which < self.mviews().len() && self.mviews()[which as int].live && idx
                < self.mviews()[which as int].meshes.len() && i
                < self.mviews()[which as int].meshes[idx as int].len ==> r == Ok::<
                Transform3D,
                GroupError,
            >(self.mviews()[which as int].meshes[idx as int].gtrs[i as int]),
    {
        self.meshes.gpu_mesh(which, idx, i)
    }


    /// Adds a flat mesh group with one mesh per entry of
    /// `mesh_instance_counts`, each starting with that many zeroed
    /// instances, and returns its stable index.  The lowest tombstoned
    /// slot is reused before a new slot is appended.  The device buffers
    /// are created zeroed like the host arrays, so nothing is queued.
    pub fn flat_group_add(&mut self, tex: TextureRef, mesh_instance_counts: &Vec<usize>) -> (id:
        usize)
        requires
            old(self).wf(),
        ensures
            final(self).wf(),
            id == first_free_mesh_group(old(self).fviews()),
            id <= old(self).fviews().len(),
            final(self).fviews() == (if id < old(self).fviews().len() {
                old(self).fviews().update(id as int, fresh_mesh_group(tex, mesh_instance_counts@))
            } else {
                old(self).fviews().push(fresh_mesh_group(tex, mesh_instance_counts@))
            }),
            final(self).queue() == old(self).queue(),
            final(self).same_but_flats(old(self)),
    {
        self.flats.add_mesh_group(tex, mesh_instance_counts)
    }

    /// Number of flat mesh group slots, tombstones included.
    pub fn flat_group_count(&self) -> (r: usize)
        ensures
            r == self.fviews().len(),
    {
        self.flats.mesh_group_count()
    }

    /// Tombstones a flat mesh group.  Fails if the index is unknown or
    /// already tombstoned.
    pub fn flat_group_remove(&mut self, which: usize) -> (r: Result<(), GroupError>)
        requires
            old(self).wf(),
        ensures
            final(self).wf(),
            r is Err <==> (which >= old(self).fviews().len() || !old(self).fviews()[which as int].live),
            r is Err ==> r == Err::<(), GroupError>(GroupError::InvalidGroup) && *final(self)
                == *old(self),
            r is Ok ==> final(self).fviews() == old(self).fviews().update(
                which as int,
                mesh_group_tombstoned(old(self).fviews()[which as int]),
            ),
            final(self).queue() == old(self).queue(),
            final(self).same_but_flats(old(self)),
    {
        self.flats.remove_mesh_group(which)
    }

    /// Number of meshes in a live flat mesh group.
    pub fn flat_group_size(&self, which: usize) -> (r: Result<usize, GroupError>)
        ensures
            r is Err <==> (which >= self.fviews().len() || !self.fviews()[which as int].live),
            r is Err ==> r == Err::<usize, GroupError>(GroupError::InvalidGroup),
            r is Ok ==> r == Ok::<usize, GroupError>(
                (self.fviews()[which as int].meshes.len()) as usize,
            ),
    {
        self.flats.mesh_count(which)
    }

    /// Number of live instances of one mesh of a live flat mesh group.
    pub fn flat_instance_count(&self, which: usize, idx: usize) -> (r: Result<usize, GroupError>)
        ensures
            which >= self.fviews().len() || !self.fviews()[which as int].live ==> r == Err::<
                usize,
                GroupError,
            >(GroupError::InvalidGroup),
            which < self.fviews().len() && self.fviews()[which as int].live && idx
                >= self.fviews()[which as int].meshes.len() ==> r == Err::<usize, GroupError>(
                GroupError::OutOfBounds,
            ),
            which < self.fviews().len() && self.fviews()[which as int].live && idx
                < self.fviews()[which as int].meshes.len() ==> r == Ok::<usize, GroupError>(
                (self.fviews()[which as int].meshes[idx as int].len) as usize,
            ),
    {
        self.flats.mesh_instance_count(which, idx)
    }

    /// Sets the number of instances of one mesh of a live flat mesh
    /// group and returns it.  Within the mesh's capacity only the logical
    /// bound moves.  Past it the storage and the device buffer are
    /// reallocated — the recreated buffer holds no data, so the whole
    /// live range is queued as dirty.
    pub fn flat_instance_resize(&mut self, which: usize, idx: usize, new_len: usize) -> (r:
        Result<usize, GroupError>)
        requires
            old(self).wf(),
        ensures
            final(self).wf(),
            which >= old(self).fviews().len() || !old(self).fviews()[which as int].live ==> r
                == Err::<usize, GroupError>(GroupError::InvalidGroup) && *final(self) == *old(self),
            which < old(self).fviews().len() && old(self).fviews()[which as int].live && idx
                >= old(self).fviews()[which as int].meshes.len() ==> r == Err::<usize, GroupError>(
                GroupError::OutOfBounds,
            ) && *final(self) == *old(self),
            which < old(self).fviews().len() && old(self).fviews()[which as int].live && idx < old(
                self,
            ).fviews()[which as int].meshes.len() ==> ({
                let g = old(self).fviews()[which as int];
                let m = g.meshes[idx as int];
                &&& r == Ok::<usize, GroupError>(new_len)
                &&& final(self).fviews() == old(self).fviews().update(
                    which as int,
                    MeshGroupView {
                        meshes: g.meshes.update(idx as int, mesh_resize_spec(m, new_len as nat)),
                        ..g
                    },
                )
                &&& final(self).queue() == (if new_len > m.cap() {
                    old(self).queue().push(
                        Upload::Flat { group: which, mesh: idx, start: 0, end: new_len },
                    )
                } else {
                    old(self).queue()
                })
            }),
            final(self).same_but_flats(old(self)),
    {
        match self.flats.resize_group_mesh(which, idx, new_len) {
            Err(e) => Err(e),
            Ok((n, grew)) => {
                if grew {
                    self.queued_uploads.push(
                        Upload::Flat { group: which, mesh: idx, start: 0, end: new_len },
                    );
                }
                Ok(n)
            },
        }
    }

    /// Overwrites the instance records of one mesh of a live flat mesh
    /// group at `[start, start + vals.len())` and queues exactly that
    /// range for the next flush.  A range beyond the mesh's live range is
    /// rejected.
    pub fn write_flats(
        &mut self,
        which: usize,
        idx: usize,
        start: usize,
        vals: &Vec<Transform3D>,
    ) -> (r: Result<(), GroupError>)
        requires
            old(self).wf(),
        ensures
            final(self).wf(),
            which >= old(self).fviews().len() || !old(self).fviews()[which as int].live ==> r
                == Err::<(), GroupError>(GroupError::InvalidGroup) && *final(self) == *old(self),
            which < old(self).fviews().len() && old(self).fviews()[which as int].live && (idx
                >= old(self).fviews()[which as int].meshes.len() || start + vals@.len() > old(
                self,
            ).fviews()[which as int].meshes[idx as int].len) ==> r == Err::<(), GroupError>(
                GroupError::OutOfBounds,
            ) && *final(self) == *old(self),
            which < old(self).fviews().len() && old(self).fviews()[which as int].live && idx < old(
                self,
            ).fviews()[which as int].meshes.len() && start + vals@.len() <= old(
                self,
            ).fviews()[which as int].meshes[idx as int].len ==> ({
                let g = old(self).fviews()[which as int];
                &&& r == Ok::<(), GroupError>(())
                &&& final(self).fviews() == old(self).fviews().update(
                    which as int,
                    MeshGroupView {
                        meshes: g.meshes.update(
                            idx as int,
                            mesh_write_spec(g.meshes[idx as int], start as int, vals@),
                        ),
                        ..g
                    },
                )
                &&& final(self).queue() == old(self).queue().push(
                    Upload::Flat {
                        group: which,
                        mesh: idx,
                        start,
                        end: (start + vals@.len()) as usize,
                    },
                )
            }),
            final(self).same_but_flats(old(self)),
    {
        match self.flats.write_mesh_range(which, idx, start, vals) {
            Err(e) => Err(e),
            Ok(()) => {
                proof {
                    assert(old(self).fviews()[which as int].wf());
                    assert(old(self).fviews()[which as int].meshes[idx as int].wf());
                }
                let end = start + vals.len();
                self.queued_uploads.push(Upload::Flat { group: which, mesh: idx, start, end });
                Ok(())
            },
        }
    }

    /// Reads one host-side instance transform of one mesh of a live
    /// flat mesh group.
    pub fn get_flat(&self, which: usize, idx: usize, i: usize) -> (r: Result<
        Transform3D,
        GroupError,
    >)
        requires
            self.wf(),
        ensures
            which >= self.fviews().len() || !self.fviews()[which as int].live ==> r == Err::<
                Transform3D,
                GroupError,
            >(GroupError::InvalidGroup),
            which < self.fviews().len() && self.fviews()[which as int].live && (idx
                >= self.fviews()[which as int].meshes.len() || i
                >= self.fviews()[which as int].meshes[idx as int].len) ==> r == Err::<
                Transform3D,
                GroupError,
            >(GroupError::OutOfBounds),
            which < self.fviews().len() && self.fviews()[which as int].live && idx
                < self.fviews()[which as int].meshes.len() && i
                < self.fviews()[which as int].meshes[idx as int].len ==> r == Ok::<
                Transform3D,
                GroupError,
            >(self.fviews()[which as int].meshes[idx as int].trs[i as int]),
    {
        self.flats.get_mesh(which, idx, i)
    }

    /// Reads one instance transform of one mesh of a live flat mesh
    /// group back from the modeled device buffer.
    pub fn gpu_flat(&self, which: usize, idx: usize, i: usize) -> (r: Result<
        Transform3D,
        GroupError,
    >)
        requires
            self.wf(),
        ensures
            which >= self.fviews().len() || !self.fviews()[which as int].live ==> r == Err::<
                Transform3D,
                GroupError,
            >(GroupError::InvalidGroup),
            which < self.fviews().len() && self.fviews()[which as int].live && (idx
                >= self.fviews()[which as int].meshes.len() || i
                >= self.fviews()[which as int].meshes[idx as int].len) ==> r == Err::<
                Transform3D,
                GroupError,
            >(GroupError::OutOfBounds),
            which < self.fviews().len() && self.fviews()[which as int].live && idx
                < self.fviews()[which as int].meshes.len() && i
                < self.fviews()[which as int].meshes[idx as int].len ==> r == Ok::<
                Transform3D,
                GroupError,
            >(self.fviews()[which as int].meshes[idx as int].gtrs[i as int]),
    {
        self.flats.gpu_mesh(which, idx, i)
    }

    /// Number of dirty ranges waiting for the next flush.
    pub fn pending_upload_count(&self) -> (r: usize)
        ensures
            r == self.queue().len(),
    {
        self.queued_uploads.len()
    }

    /// Flushes the pending queue: every queued range, in order of
    /// insertion, is replayed as one write of current host data into the
    /// named table's device buffers; then the queue is cleared.  Returns
    /// the performed writes, in order — an empty queue performs none and
    /// changes nothing.
    pub fn do_uploads(&mut self) -> (writes: Vec<Upload>)
        requires
            old(self).wf(),
        ensures
            final(self).wf(),
            writes@ == old(self).queue(),
            final(self).queue() == Seq::<Upload>::empty(),
            final(self).gviews() == apply_uploads(old(self).gviews(), old(self).queue()),
            final(self).mviews() == apply_mesh_uploads(old(self).mviews(), old(self).queue(), false),
            final(self).fviews() == apply_mesh_uploads(old(self).fviews(), old(self).queue(), true),
    {
        let mut writes: Vec<Upload> = Vec::new();
        let n = self.queued_uploads.len();
        let mut i: usize = 0;
        while i < n
            invariant
                i <= n,
                n == old(self).queue().len(),
                *self == *old(self),
                writes@ == old(self).queue().take(i as int),
            decreases n - i,
        {
            let u = self.queued_uploads[i];
            writes.push(u);
            i += 1;
            proof {
                assert(writes@ =~= old(self).queue().take(i as int));
            }
        }
        proof {
            assert(writes@ =~= old(self).queue());
        }
        self.queued_uploads.clear();
        let m = writes.len();
        let mut j: usize = 0;
        while j < m
            invariant
                j <= m,
                m == old(self).queue().len(),
                writes@ == old(self).queue(),
                self.queued_uploads@ == Seq::<Upload>::empty(),
                wf_groups(self.gviews()),
                wf_mesh_groups(self.mviews()),
                wf_mesh_groups(self.fviews()),
                self.gviews() == apply_uploads(old(self).gviews(), old(self).queue().take(j as int)),
                self.mviews() == apply_mesh_uploads(
                    old(self).mviews(),
                    old(self).queue().take(j as int),
                    false,
                ),
                self.fviews() == apply_mesh_uploads(
                    old(self).fviews(),
                    old(self).queue().take(j as int),
                    true,
                ),
            decreases m - j,
        {
            let u = writes[j];
            proof {
                lemma_apply_uploads_snoc(old(self).gviews(), old(self).queue().take(j as int), u);
                lemma_apply_mesh_uploads_snoc(
                    old(self).mviews(),
                    old(self).queue().take(j as int),
                    u,
                    false,
                );
                lemma_apply_mesh_uploads_snoc(
                    old(self).fviews(),
                    old(self).queue().take(j as int),
                    u,
                    true,
                );
                assert(old(self).queue().take(j + 1) =~= old(self).queue().take(j as int).push(u));
            }
            match u {
                Upload::Sprite { group, start, end } => {
                    self.sprites.upload_sprites(group, start, end);
                },
                Upload::Mesh { group, mesh, start, end } => {
                    self.meshes.upload_meshes(group, mesh, start, end);
                },
                Upload::Flat { group, mesh, start, end } => {
                    self.flats.upload_meshes(group, mesh, start, end);
                },
            }
            j += 1;
        }
        proof {
            assert(old(self).queue().take(m as int) =~= old(self).queue());
        }
        writes
    }
}

/// Flushing an empty queue performs zero writes and leaves every buffer
/// of every table unchanged.
pub proof fn lemma_flush_empty_is_noop(
    gs: Seq<GroupView>,
    ms: Seq<MeshGroupView>,
    fs: Seq<MeshGroupView>,
)
    ensures
        apply_uploads(gs, Seq::<Upload>::empty()) == gs,
        apply_mesh_uploads(ms, Seq::<Upload>::empty(), false) == ms,
        apply_mesh_uploads(fs, Seq::<Upload>::empty(), true) == fs,
{
}

/// Round trip: writing records over a range inside a live sprite group's
/// logical length and then flushing leaves the device buffers holding
/// exactly the written records at exactly the written indices, whatever
/// else was already queued.
pub proof fn lemma_write_then_flush_round_trip(
    gs: Seq<GroupView>,
    pend: Seq<Upload>,
    which: usize,
    start: usize,
    vt: Seq<Transform>,
    vr: Seq<SheetRegion>,
)
    requires
        wf_groups(gs),
        which < gs.len(),
        gs[which as int].live,
        vt.len() == vr.len(),
        start + vt.len() <= gs[which as int].len,
    ensures
        ({
            let gs1 = gs.update(which as int, write_spec(gs[which as int], start as int, vt, vr));
            let u = Upload::Sprite { group: which, start, end: (start + vt.len()) as usize };
            let gs2 = apply_uploads(gs1, pend.push(u));
            &&& gs2.len() == gs.len()
            &&& gs2[which as int].len == gs[which as int].len
            &&& forall|i: int|
                start <= i < start + vt.len() ==> #[trigger] gs2[which as int].gtrs[i] == vt[i
                    - start] && gs2[which as int].gregs[i] == vr[i - start]
        }),
{
    let g = gs[which as int];
    let g1 = write_spec(g, start as int, vt, vr);
    let gs1 = gs.update(which as int, g1);
    let u = Upload::Sprite { group: which, start, end: (start + vt.len()) as usize };
    assert(g.wf());
    assert(start + vt.len() <= usize::MAX);
    assert(g1.wf());
    assert(wf_groups(gs1)) by {
        assert(forall|i: int| 0 <= i < gs1.len() && i != which ==> #[trigger] gs1[i] == gs[i]);
    }
    lemma_apply_uploads_snoc(gs1, pend, u);
    lemma_apply_uploads_preserves(gs1, pend);
    let gsm = apply_uploads(gs1, pend);
    let gs2 = apply_upload(gsm, u);
    assert(gsm[which as int].live == g1.live);
    assert(gsm[which as int].trs == g1.trs);
    assert(gsm[which as int].len == g1.len);
    assert forall|i: int| start <= i < start + vt.len() implies #[trigger] gs2[which as int].gtrs[i]
        == vt[i - start] && gs2[which as int].gregs[i] == vr[i - start] by {
        assert(gs2[which as int].gtrs[i] == g1.trs[i]);
        assert(g1.trs[i] == vt[i - start]);
        assert(gs2[which as int].gregs[i] == g1.regs[i]);
        assert(g1.regs[i] == vr[i - start]);
    }
}

/// Round trip for mesh instances: writing records over a range inside one
/// mesh's live range and then flushing leaves that mesh's device buffer
/// holding exactly the written records at exactly the written indices,
/// whatever else was already queued.  The flat family obeys the same law
/// under its own entry kind.
pub proof fn lemma_mesh_write_then_flush_round_trip(
    gs: Seq<MeshGroupView>,
    pend: Seq<Upload>,
    which: usize,
    mesh: usize,
    start: usize,
    vals: Seq<Transform3D>,
)
    requires
        wf_mesh_groups(gs),
        which < gs.len(),
        gs[which as int].live,
        mesh < gs[which as int].meshes.len(),
        start + vals.len() <= gs[which as int].meshes[mesh as int].len,
    ensures
        ({
            let g = gs[which as int];
            let g1 = MeshGroupView {
                meshes: g.meshes.update(
                    mesh as int,
                    mesh_write_spec(g.meshes[mesh as int], start as int, vals),
                ),
                ..g
            };
            let gs1 = gs.update(which as int, g1);
            let u = Upload::Mesh { group: which, mesh, start, end: (start + vals.len()) as usize };
            let gs2 = apply_mesh_uploads(gs1, pend.push(u), false);
            &&& gs2.len() == gs.len()
            &&& gs2[which as int].meshes[mesh as int].len == gs[which as int].meshes[mesh as int].len
            &&& forall|i: int|
                start <= i < start + vals.len()
                    ==> #[trigger] gs2[which as int].meshes[mesh as int].gtrs[i] == vals[i - start]
        }),
{
    let g = gs[which as int];
    let m0 = g.meshes[mesh as int];
    assert(g.wf());
    assert(m0.wf());
    assert(start + vals.len() <= usize::MAX);
    let m1 = mesh_write_spec(m0, start as int, vals);
    let g1 = MeshGroupView { meshes: g.meshes.update(mesh as int, m1), ..g };
    let gs1 = gs.update(which as int, g1);
    let u = Upload::Mesh { group: which, mesh, start, end: (start + vals.len()) as usize };
    assert(m1.wf());
    assert(g1.wf()) by {
        assert(forall|k: int|
            0 <= k < g1.meshes.len() && k != mesh ==> #[trigger] g1.meshes[k] == g.meshes[k]);
    }
    assert(wf_mesh_groups(gs1)) by {
        assert(forall|i: int| 0 <= i < gs1.len() && i != which ==> #[trigger] gs1[i] == gs[i]);
    }
    lemma_apply_mesh_uploads_snoc(gs1, pend, u, false);
    lemma_apply_mesh_uploads_preserves(gs1, pend, false);
    let gsm = apply_mesh_uploads(gs1, pend, false);
    let gs2 = apply_mesh_upload(gsm, u, false);
    assert(gsm[which as int].live == g1.live);
    assert(gsm[which as int].meshes.len() == g1.meshes.len());
    assert(gsm[which as int].meshes[mesh as int].trs == m1.trs);
    assert(gsm[which as int].meshes[mesh as int].len == m1.len);
    assert(gsm[which as int].wf());
    assert forall|i: int| start <= i < start + vals.len() implies #[trigger] gs2[which as int].meshes[mesh as int].gtrs[i]
        == vals[i - start] by {
        assert(gs2[which as int].meshes[mesh as int] == mesh_upload_spec(
            gsm[which as int].meshes[mesh as int],
            start as int,
            (start + vals.len()) as int,
        ));
        assert(gs2[which as int].meshes[mesh as int].gtrs[i] == m1.trs[i]);
        assert(m1.trs[i] == vals[i - start]);
    }
}

/// Growth forces a full upload: resizing a live sprite group past its
/// capacity and then flushing leaves the whole live range present and
/// correct in the device buffers — the records below the old length
/// unchanged, the new tail zeroed.
pub proof fn lemma_grow_then_flush_covers_live_range(
    gs: Seq<GroupView>,
    pend: Seq<Upload>,
    which: usize,
    new_len: usize,
)
    requires
        wf_groups(gs),
        which < gs.len(),
        gs[which as int].live,
        new_len > gs[which as int].cap(),
    ensures
        ({
            let g = gs[which as int];
            let gs1 = gs.update(which as int, resize_spec(g, new_len as nat));
            let u = Upload::Sprite { group: which, start: 0, end: new_len };
            let gs2 = apply_uploads(gs1, pend.push(u));
            &&& gs2.len() == gs.len()
            &&& gs2[which as int].len == new_len
            &&& forall|i: int|
                0 <= i < new_len ==> #[trigger] gs2[which as int].gtrs[i] == (if i < g.len {
                    g.trs[i]
                } else {
                    Transform::spec_zero()
                }) && gs2[which as int].gregs[i] == (if i < g.len {
                    g.regs[i]
                } else {
                    SheetRegion::spec_zero()
                })
        }),
{
    let g = gs[which as int];
    let g1 = resize_spec(g, new_len as nat);
    let gs1 = gs.update(which as int, g1);
    let u = Upload::Sprite { group: which, start: 0, end: new_len };
    assert(g1.wf());
    assert(wf_groups(gs1)) by {
        assert(forall|i: int| 0 <= i < gs1.len() && i != which ==> #[trigger] gs1[i] == gs[i]);
    }
    lemma_apply_uploads_snoc(gs1, pend, u);
    lemma_apply_uploads_preserves(gs1, pend);
    let gsm = apply_uploads(gs1, pend);
    let gs2 = apply_upload(gsm, u);
    assert(gsm[which as int].live == g1.live);
    assert(gsm[which as int].trs == g1.trs);
    assert(gsm[which as int].len == g1.len);
    assert forall|i: int| 0 <= i < new_len implies #[trigger] gs2[which as int].gtrs[i] == (if i
        < g.len {
        g.trs[i]
    } else {
        Transform::spec_zero()
    }) && gs2[which as int].gregs[i] == (if i < g.len {
        g.regs[i]
    } else {
        SheetRegion::spec_zero()
    }) by {
        assert(gs2[which as int].gtrs[i] == g1.trs[i]);
        assert(gs2[which as int].gregs[i] == g1.regs[i]);
        if i < g.len {
            assert(g1.trs[i] == g.trs.take(g.len as int)[i]);
            assert(g1.regs[i] == g.regs.take(g.len as int)[i]);
        }
    }
}

} // verus!
