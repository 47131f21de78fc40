use frenderer::GroupError;
use frenderer::Renderer;
use frenderer::SheetRegion;
use frenderer::TextureRef;
use frenderer::Transform;
use frenderer::Upload;

fn tf(x: u32) -> Transform {
    Transform { x, y: x + 1, w: x + 2, h: x + 3, rot: x + 4 }
}

fn sr(s: u32) -> SheetRegion {
    SheetRegion { sheet: s, x: s + 1, y: s + 2, w: s + 3, h: s + 4 }
}

fn zeros(n: usize) -> (Vec<Transform>, Vec<SheetRegion>) {
    (
        vec![Transform { x: 0, y: 0, w: 0, h: 0, rot: 0 }; n],
        vec![SheetRegion { sheet: 0, x: 0, y: 0, w: 0, h: 0 }; n],
    )
}

#[test]
fn add_installs_initial_data_on_both_sides() {
    let mut r = Renderer::new();
    let trs = vec![tf(10), tf(20), tf(30)];
    let regs = vec![sr(100), sr(200), sr(300)];
    let id = r.sprite_group_add(TextureRef(7), trs.clone(), regs.clone());
    assert_eq!(id, 0);
    assert_eq!(r.sprite_group_count(), 1);
    assert_eq!(r.sprite_group_size(id), Ok(3));
    assert_eq!(r.pending_upload_count(), 0);
    for i in 0..3 {
        assert_eq!(r.get_sprite(id, i), Ok((trs[i], regs[i])));
        assert_eq!(r.gpu_sprite(id, i), Ok((trs[i], regs[i])));
    }
}

#[test]
fn write_then_flush_round_trip() {
    // A group of length 4, all zero; write {A, B} over [1, 3); flush; the
    // device buffer holds zeros at 0 and 3 and A, B at 1 and 2.
    let mut r = Renderer::new();
    let (trs, regs) = zeros(4);
    let id = r.sprite_group_add(TextureRef(0), trs, regs);
    let a = (tf(1000), sr(1));
    let b = (tf(2000), sr(2));
    r.write_sprites(id, 1, &vec![a.0, b.0], &vec![a.1, b.1]).unwrap();
    assert_eq!(r.pending_upload_count(), 1);
    // Host side updated at once; device side still the creation-time zeros.
    assert_eq!(r.get_sprite(id, 1), Ok(a));
    assert_eq!(
        r.gpu_sprite(id, 1),
        Ok((Transform { x: 0, y: 0, w: 0, h: 0, rot: 0 }, SheetRegion { sheet: 0, x: 0, y: 0, w: 0, h: 0 }))
    );
    let writes = r.do_uploads();
    assert_eq!(writes, vec![Upload::Sprite { group: id, start: 1, end: 3 }]);
    assert_eq!(r.gpu_sprite(id, 0), Ok((Transform { x: 0, y: 0, w: 0, h: 0, rot: 0 }, SheetRegion { sheet: 0, x: 0, y: 0, w: 0, h: 0 })));
    assert_eq!(r.gpu_sprite(id, 1), Ok(a));
    assert_eq!(r.gpu_sprite(id, 2), Ok(b));
    assert_eq!(r.gpu_sprite(id, 3), Ok((Transform { x: 0, y: 0, w: 0, h: 0, rot: 0 }, SheetRegion { sheet: 0, x: 0, y: 0, w: 0, h: 0 })));
}

#[test]
fn grow_past_capacity_then_flush_uploads_whole_live_range() {
    // Resize 4 -> 10 past the initial capacity of 4, then flush: all 10
    // indices are present, 0-3 with the pre-resize values, 4-9 zeroed.
    let mut r = Renderer::new();
    let trs: Vec<Transform> = (0..4).map(|i| tf(10 * i)).collect();
    let regs: Vec<SheetRegion> = (0..4).map(|i| sr(5 * i)).collect();
    let id = r.sprite_group_add(TextureRef(3), trs.clone(), regs.clone());
    assert_eq!(r.sprite_group_resize(id, 10), Ok(10));
    assert_eq!(r.pending_upload_count(), 1);
    let writes = r.do_uploads();
    assert_eq!(writes, vec![Upload::Sprite { group: id, start: 0, end: 10 }]);
    assert_eq!(r.sprite_group_size(id), Ok(10));
    for i in 0..4 {
        assert_eq!(r.gpu_sprite(id, i), Ok((trs[i], regs[i])));
    }
    for i in 4..10 {
        assert_eq!(
            r.gpu_sprite(id, i),
            Ok((Transform { x: 0, y: 0, w: 0, h: 0, rot: 0 }, SheetRegion { sheet: 0, x: 0, y: 0, w: 0, h: 0 }))
        );
    }
}

#[test]
fn shrink_then_regrow_preserves_values() {
    // Shrinking to 2 and resizing back to 4 stays within the capacity
    // already reached, so every original record is still there.
    let mut r = Renderer::new();
    let trs: Vec<Transform> = (0..4).map(|i| tf(7 * i + 1)).collect();
    let regs: Vec<SheetRegion> = (0..4).map(|i| sr(9 * i + 2)).collect();
    let id = r.sprite_group_add(TextureRef(1), trs.clone(), regs.clone());
    assert_eq!(r.sprite_group_resize(id, 2), Ok(2));
    assert_eq!(r.sprite_group_size(id), Ok(2));
    assert_eq!(r.get_sprite(id, 2), Err(GroupError::OutOfBounds));
    assert_eq!(r.sprite_group_resize(id, 4), Ok(4));
    // No reallocation happened, so nothing was queued by either resize.
    assert_eq!(r.pending_upload_count(), 0);
    for i in 0..4 {
        assert_eq!(r.get_sprite(id, i), Ok((trs[i], regs[i])));
    }
}

#[test]
fn remove_then_add_reuses_tombstone_without_leakage() {
    let mut r = Renderer::new();
    let id0 = r.sprite_group_add(TextureRef(0), vec![tf(11); 3], vec![sr(21); 3]);
    let id1 = r.sprite_group_add(TextureRef(1), vec![tf(12); 2], vec![sr(22); 2]);
    assert_eq!((id0, id1), (0, 1));
    r.sprite_group_remove(id0).unwrap();
    // Between the removal and the next addition the identifier is dead.
    assert_eq!(r.sprite_group_size(id0), Err(GroupError::InvalidGroup));
    assert_eq!(r.sprite_group_count(), 2);
    // The next addition reuses the tombstoned slot.
    let id2 = r.sprite_group_add(TextureRef(9), vec![tf(500)], vec![sr(600)]);
    assert_eq!(id2, id0);
    assert_eq!(r.sprite_group_count(), 2);
    // The reused slot shows only the new group's data, host and device side.
    assert_eq!(r.sprite_group_size(id2), Ok(1));
    assert_eq!(r.get_sprite(id2, 0), Ok((tf(500), sr(600))));
    assert_eq!(r.gpu_sprite(id2, 0), Ok((tf(500), sr(600))));
    assert_eq!(r.get_sprite(id2, 1), Err(GroupError::OutOfBounds));
    // The untouched group is still intact.
    assert_eq!(r.get_sprite(id1, 0), Ok((tf(12), sr(22))));
}

#[test]
fn flush_with_empty_queue_writes_nothing_and_changes_nothing() {
    let mut r = Renderer::new();
    let id = r.sprite_group_add(TextureRef(4), vec![tf(42); 2], vec![sr(43); 2]);
    let before: Vec<_> = (0..2).map(|i| r.gpu_sprite(id, i)).collect();
    let writes = r.do_uploads();
    assert_eq!(writes.len(), 0);
    let after: Vec<_> = (0..2).map(|i| r.gpu_sprite(id, i)).collect();
    assert_eq!(before, after);
}

#[test]
fn uploads_flush_in_fifo_order() {
    let mut r = Renderer::new();
    let (trs, regs) = zeros(6);
    let id = r.sprite_group_add(TextureRef(0), trs, regs);
    r.write_sprites(id, 0, &vec![tf(1); 2], &vec![sr(1); 2]).unwrap();
    r.write_sprites(id, 4, &vec![tf(2); 2], &vec![sr(2); 2]).unwrap();
    r.write_sprites(id, 1, &vec![tf(3); 2], &vec![sr(3); 2]).unwrap();
    let writes = r.do_uploads();
    assert_eq!(
        writes,
        vec![
            Upload::Sprite { group: id, start: 0, end: 2 },
            Upload::Sprite { group: id, start: 4, end: 6 },
            Upload::Sprite { group: id, start: 1, end: 3 },
        ]
    );
    assert_eq!(r.pending_upload_count(), 0);
    // Overlapping ranges are redundant but never incorrect: the host data
    // is what lands in the device buffer.
    assert_eq!(r.gpu_sprite(id, 0), Ok((tf(1), sr(1))));
    assert_eq!(r.gpu_sprite(id, 1), Ok((tf(3), sr(3))));
    assert_eq!(r.gpu_sprite(id, 2), Ok((tf(3), sr(3))));
    assert_eq!(r.gpu_sprite(id, 3), Ok((Transform { x: 0, y: 0, w: 0, h: 0, rot: 0 }, SheetRegion { sheet: 0, x: 0, y: 0, w: 0, h: 0 })));
    assert_eq!(r.gpu_sprite(id, 4), Ok((tf(2), sr(2))));
}

#[test]
fn stale_ranges_are_clamped_to_the_live_range() {
    // A range queued before a shrink is clamped at flush time instead of
    // touching slots beyond the live range.
    let mut r = Renderer::new();
    let (trs, regs) = zeros(4);
    let id = r.sprite_group_add(TextureRef(0), trs, regs);
    r.write_sprites(id, 0, &vec![tf(9); 4], &vec![sr(9); 4]).unwrap();
    assert_eq!(r.sprite_group_resize(id, 2), Ok(2));
    let writes = r.do_uploads();
    assert_eq!(writes, vec![Upload::Sprite { group: id, start: 0, end: 4 }]);
    assert_eq!(r.gpu_sprite(id, 0), Ok((tf(9), sr(9))));
    assert_eq!(r.gpu_sprite(id, 1), Ok((tf(9), sr(9))));
    assert_eq!(r.gpu_sprite(id, 2), Err(GroupError::OutOfBounds));
}

#[test]
fn stale_ranges_of_removed_groups_are_skipped() {
    let mut r = Renderer::new();
    let (trs, regs) = zeros(2);
    let id = r.sprite_group_add(TextureRef(0), trs, regs);
    r.write_sprites(id, 0, &vec![tf(5)], &vec![sr(5)]).unwrap();
    r.sprite_group_remove(id).unwrap();
    let writes = r.do_uploads();
    // The write was still drained (one entry), but the tombstoned group
    // was left untouched.
    assert_eq!(writes.len(), 1);
    assert_eq!(r.gpu_sprite(id, 0), Err(GroupError::InvalidGroup));
}

#[test]
fn error_cases() {
    let mut r = Renderer::new();
    assert_eq!(r.sprite_group_size(0), Err(GroupError::InvalidGroup));
    assert_eq!(r.sprite_group_remove(0), Err(GroupError::InvalidGroup));
    assert_eq!(r.sprite_group_resize(0, 4), Err(GroupError::InvalidGroup));
    assert_eq!(r.get_sprite(0, 0), Err(GroupError::InvalidGroup));
    assert_eq!(r.gpu_sprite(0, 0), Err(GroupError::InvalidGroup));
    let (trs, regs) = zeros(3);
    let id = r.sprite_group_add(TextureRef(0), trs, regs);
    // A range beyond the logical length is rejected and queues nothing.
    assert_eq!(
        r.write_sprites(id, 2, &vec![tf(1); 2], &vec![sr(1); 2]),
        Err(GroupError::OutOfBounds)
    );
    assert_eq!(r.pending_upload_count(), 0);
    assert_eq!(r.get_sprite(id, 3), Err(GroupError::OutOfBounds));
    // Removing twice fails the second time.
    assert_eq!(r.sprite_group_remove(id), Ok(()));
    assert_eq!(r.sprite_group_remove(id), Err(GroupError::InvalidGroup));
    // Writes to a tombstoned group are rejected.
    assert_eq!(
        r.write_sprites(id, 0, &vec![tf(1)], &vec![sr(1)]),
        Err(GroupError::InvalidGroup)
    );
}

#[test]
fn resize_to_zero_and_empty_group() {
    let mut r = Renderer::new();
    let id = r.sprite_group_add(TextureRef(0), Vec::new(), Vec::new());
    assert_eq!(r.sprite_group_size(id), Ok(0));
    assert_eq!(r.get_sprite(id, 0), Err(GroupError::OutOfBounds));
    // Growing an empty group past its zero capacity queues the live range.
    assert_eq!(r.sprite_group_resize(id, 2), Ok(2));
    assert_eq!(r.pending_upload_count(), 1);
    let _ = r.do_uploads();
    assert_eq!(
        r.gpu_sprite(id, 1),
        Ok((Transform { x: 0, y: 0, w: 0, h: 0, rot: 0 }, SheetRegion { sheet: 0, x: 0, y: 0, w: 0, h: 0 }))
    );
    assert_eq!(r.sprite_group_resize(id, 0), Ok(0));
    assert_eq!(r.sprite_group_size(id), Ok(0));
}
