use frenderer::GroupError;
use frenderer::Renderer;
use frenderer::TextureRef;
use frenderer::Transform3D;
use frenderer::Upload;

fn t3(v: u32) -> Transform3D {
    Transform3D {
        tx: v,
        ty: v + 1,
        tz: v + 2,
        rx: v + 3,
        ry: v + 4,
        rz: v + 5,
        rw: v + 6,
        scale: v + 7,
    }
}

fn zero3() -> Transform3D {
    Transform3D { tx: 0, ty: 0, tz: 0, rx: 0, ry: 0, rz: 0, rw: 0, scale: 0 }
}

#[test]
fn mesh_group_add_creates_zeroed_meshes() {
    let mut r = Renderer::new();
    let id = r.mesh_group_add(TextureRef(1), &vec![2, 3]);
    assert_eq!(id, 0);
    assert_eq!(r.mesh_group_count(), 1);
    assert_eq!(r.mesh_group_size(id), Ok(2));
    assert_eq!(r.mesh_instance_count(id, 0), Ok(2));
    assert_eq!(r.mesh_instance_count(id, 1), Ok(3));
    assert_eq!(r.get_mesh(id, 1, 2), Ok(zero3()));
    assert_eq!(r.gpu_mesh(id, 1, 2), Ok(zero3()));
    assert_eq!(r.pending_upload_count(), 0);
}

#[test]
fn mesh_write_then_flush_round_trip() {
    let mut r = Renderer::new();
    let id = r.mesh_group_add(TextureRef(0), &vec![4]);
    r.write_meshes(id, 0, 1, &vec![t3(100), t3(200)]).unwrap();
    assert_eq!(r.pending_upload_count(), 1);
    // Host side updated at once; device side still zeroed.
    assert_eq!(r.get_mesh(id, 0, 1), Ok(t3(100)));
    assert_eq!(r.gpu_mesh(id, 0, 1), Ok(zero3()));
    let writes = r.do_uploads();
    assert_eq!(writes, vec![Upload::Mesh { group: id, mesh: 0, start: 1, end: 3 }]);
    assert_eq!(r.gpu_mesh(id, 0, 0), Ok(zero3()));
    assert_eq!(r.gpu_mesh(id, 0, 1), Ok(t3(100)));
    assert_eq!(r.gpu_mesh(id, 0, 2), Ok(t3(200)));
    assert_eq!(r.gpu_mesh(id, 0, 3), Ok(zero3()));
}

#[test]
fn mesh_instance_growth_queues_full_range() {
    let mut r = Renderer::new();
    let id = r.mesh_group_add(TextureRef(0), &vec![2]);
    r.write_meshes(id, 0, 0, &vec![t3(7), t3(8)]).unwrap();
    let _ = r.do_uploads();
    // Growing past the capacity recreates the device buffer, so the whole
    // live range is queued and present after the next flush.
    assert_eq!(r.mesh_instance_resize(id, 0, 5), Ok(5));
    let writes = r.do_uploads();
    assert_eq!(writes, vec![Upload::Mesh { group: id, mesh: 0, start: 0, end: 5 }]);
    assert_eq!(r.gpu_mesh(id, 0, 0), Ok(t3(7)));
    assert_eq!(r.gpu_mesh(id, 0, 1), Ok(t3(8)));
    for i in 2..5 {
        assert_eq!(r.gpu_mesh(id, 0, i), Ok(zero3()));
    }
    // Shrinking moves only the logical bound and queues nothing.
    assert_eq!(r.mesh_instance_resize(id, 0, 1), Ok(1));
    assert_eq!(r.pending_upload_count(), 0);
    assert_eq!(r.mesh_instance_count(id, 0), Ok(1));
}

#[test]
fn flat_family_is_tracked_separately() {
    let mut r = Renderer::new();
    let mid = r.mesh_group_add(TextureRef(0), &vec![1]);
    let fid = r.flat_group_add(TextureRef(0), &vec![1]);
    assert_eq!((mid, fid), (0, 0));
    r.write_meshes(mid, 0, 0, &vec![t3(1)]).unwrap();
    r.write_flats(fid, 0, 0, &vec![t3(2)]).unwrap();
    let writes = r.do_uploads();
    assert_eq!(
        writes,
        vec![
            Upload::Mesh { group: mid, mesh: 0, start: 0, end: 1 },
            Upload::Flat { group: fid, mesh: 0, start: 0, end: 1 },
        ]
    );
    assert_eq!(r.gpu_mesh(mid, 0, 0), Ok(t3(1)));
    assert_eq!(r.gpu_flat(fid, 0, 0), Ok(t3(2)));
}

#[test]
fn mesh_group_remove_and_reuse() {
    let mut r = Renderer::new();
    let id0 = r.mesh_group_add(TextureRef(1), &vec![1]);
    let id1 = r.mesh_group_add(TextureRef(2), &vec![2]);
    assert_eq!((id0, id1), (0, 1));
    r.mesh_group_remove(id0).unwrap();
    assert_eq!(r.mesh_group_size(id0), Err(GroupError::InvalidGroup));
    assert_eq!(r.mesh_group_count(), 2);
    let id2 = r.mesh_group_add(TextureRef(3), &vec![4]);
    assert_eq!(id2, id0);
    assert_eq!(r.mesh_group_size(id2), Ok(1));
    assert_eq!(r.mesh_instance_count(id2, 0), Ok(4));
    assert_eq!(r.get_mesh(id2, 0, 0), Ok(zero3()));
}

#[test]
fn mesh_error_cases() {
    let mut r = Renderer::new();
    assert_eq!(r.mesh_group_size(0), Err(GroupError::InvalidGroup));
    assert_eq!(r.mesh_group_remove(0), Err(GroupError::InvalidGroup));
    assert_eq!(r.mesh_instance_resize(0, 0, 4), Err(GroupError::InvalidGroup));
    let id = r.mesh_group_add(TextureRef(0), &vec![2]);
    // An unknown mesh number and a range beyond the live instances are
    // both out of bounds, and neither queues anything.
    assert_eq!(r.mesh_instance_count(id, 1), Err(GroupError::OutOfBounds));
    assert_eq!(r.write_meshes(id, 1, 0, &vec![t3(1)]), Err(GroupError::OutOfBounds));
    assert_eq!(r.write_meshes(id, 0, 2, &vec![t3(1)]), Err(GroupError::OutOfBounds));
    assert_eq!(r.get_mesh(id, 0, 2), Err(GroupError::OutOfBounds));
    assert_eq!(r.pending_upload_count(), 0);
    assert_eq!(r.flat_group_count(), 0);
}
