use frenderer::BatchAggregator;
use frenderer::BatchKey;
use frenderer::BlendMode;
use frenderer::DrawCall;
use frenderer::InstanceData;
use frenderer::SingleRenderState;
use frenderer::TextureRef;
use frenderer::instance_data_of;
use frenderer::single_render_state_of;

fn key(t: u32) -> BatchKey {
    BatchKey { tex: TextureRef(t), blend: BlendMode::Additive }
}

fn srs(v: u32) -> SingleRenderState {
    SingleRenderState::new([v, v + 1, v + 2, v + 3], [v + 4, v + 5, v + 6, v + 7], [v + 8, v + 9, v + 10])
}

#[test]
fn conversion_is_field_by_field_and_invertible() {
    let s = srs(100);
    let d = instance_data_of(&s);
    assert_eq!(d.uv_region, s.uv_region);
    assert_eq!(d.position_rot, s.position_rot);
    assert_eq!(d.size_alpha, s.size_alpha);
    let back = single_render_state_of(&d);
    assert_eq!(back, s);
}

#[test]
fn new_record_keeps_its_words() {
    let s = SingleRenderState::new([1, 2, 3, 4], [5, 6, 7, 8], [9, 10, 11]);
    assert_eq!(s.uv_region, [1, 2, 3, 4]);
    assert_eq!(s.position_rot, [5, 6, 7, 8]);
    assert_eq!(s.size_alpha, [9, 10, 11]);
}

#[test]
fn one_draw_call_per_nonempty_key() {
    let mut agg = BatchAggregator::new();
    agg.push_models(key(1), &vec![srs(10)], &Vec::new());
    agg.push_models(key(2), &vec![srs(20), srs(30)], &Vec::new());
    // An empty push creates the batch but draws nothing.
    agg.push_models(key(3), &Vec::new(), &Vec::new());
    assert_eq!(agg.batch_count(), 3);
    let calls = agg.draw();
    assert_eq!(
        calls,
        vec![
            DrawCall { key: key(1), instance_count: 1 },
            DrawCall { key: key(2), instance_count: 2 },
        ]
    );
}

#[test]
fn pushes_to_the_same_key_accumulate() {
    let mut agg = BatchAggregator::new();
    agg.push_models(key(5), &vec![srs(1)], &Vec::new());
    agg.push_models(key(5), &vec![srs(2), srs(3)], &Vec::new());
    assert_eq!(agg.batch_count(), 1);
    let calls = agg.draw();
    assert_eq!(calls, vec![DrawCall { key: key(5), instance_count: 3 }]);
}

#[test]
fn transient_contributions_clear_and_persistent_ones_stay() {
    let mut agg = BatchAggregator::new();
    agg.push_models(key(1), &vec![srs(10)], &vec![srs(50), srs(60)]);
    let calls = agg.draw();
    assert_eq!(calls, vec![DrawCall { key: key(1), instance_count: 3 }]);
    // Next frame without any push: the persistent instances are still in.
    let calls = agg.draw();
    assert_eq!(calls, vec![DrawCall { key: key(1), instance_count: 2 }]);
    // A transient-only batch goes quiet after its frame.
    agg.push_models(key(2), &vec![srs(70)], &Vec::new());
    let calls = agg.draw();
    assert_eq!(
        calls,
        vec![
            DrawCall { key: key(1), instance_count: 2 },
            DrawCall { key: key(2), instance_count: 1 },
        ]
    );
    let calls = agg.draw();
    assert_eq!(calls, vec![DrawCall { key: key(1), instance_count: 2 }]);
}

#[test]
fn persistent_instances_accumulate_across_pushes() {
    let mut agg = BatchAggregator::new();
    agg.push_models(key(9), &Vec::new(), &vec![srs(1)]);
    agg.push_models(key(9), &Vec::new(), &vec![srs(2)]);
    let calls = agg.draw();
    assert_eq!(calls, vec![DrawCall { key: key(9), instance_count: 2 }]);
    let calls = agg.draw();
    assert_eq!(calls, vec![DrawCall { key: key(9), instance_count: 2 }]);
}

#[test]
fn draw_on_empty_aggregator_emits_nothing() {
    let mut agg = BatchAggregator::new();
    let calls: Vec<DrawCall> = agg.draw();
    assert_eq!(calls.len(), 0);
    assert_eq!(agg.batch_count(), 0);
}

#[test]
fn distinct_instance_data_round_trips_through_conversion() {
    let a = srs(0);
    let b = srs(1);
    let da: InstanceData = instance_data_of(&a);
    let db: InstanceData = instance_data_of(&b);
    assert_ne!(da, db);
    assert_eq!(single_render_state_of(&da), a);
    assert_eq!(single_render_state_of(&db), b);
}
