use webgpui::batch::{BatchPlan, BlendModeKey};
use webgpui::render::BlendMode;

#[test]
fn plan_draws_with_same_key_share_a_batch() {
    let mut plan = BatchPlan::new();
    assert_eq!(plan.batch_for(BlendMode::Alpha), (0, true));
    assert_eq!(plan.batch_for(BlendMode::Alpha), (0, false));
    assert_eq!(plan.batch_for(BlendMode::Opaque), (1, true));
    assert_eq!(plan.batch_for(BlendMode::Alpha), (0, false));
    assert_eq!(plan.len(), 2);
    assert_eq!(plan.key(1).blend_mode, BlendModeKey::Opaque);
}

#[test]
fn plan_keys_carry_z_order_and_clip() {
    let mut plan = BatchPlan::new();
    plan.set_z(3);
    let id = plan.push_clip();
    assert_eq!(id, 1);
    let (pos, created) = plan.batch_for(BlendMode::Additive);
    assert!(created);
    let key = plan.key(pos);
    assert_eq!((key.z_order, key.clip_id, key.blend_mode), (3, 1, BlendModeKey::Additive));
    assert_eq!(plan.push_clip(), 2);
    plan.set_clip(0);
    assert_eq!(plan.batch_for(BlendMode::Additive), (1, true));
    assert_eq!(plan.key(1).clip_id, 0);
}

#[test]
fn plan_orders_by_z_then_blend_stably() {
    let mut plan = BatchPlan::new();
    plan.set_z(2);
    plan.batch_for(BlendMode::Alpha); // 0: z2 alpha
    plan.set_z(1);
    plan.batch_for(BlendMode::Additive); // 1: z1 additive
    plan.batch_for(BlendMode::Opaque); // 2: z1 opaque
    plan.set_z(2);
    plan.push_clip();
    plan.batch_for(BlendMode::Alpha); // 3: z2 alpha, clipped
    plan.set_z(0);
    plan.batch_for(BlendMode::Alpha); // 4: z0 alpha
    assert_eq!(plan.order(), vec![4, 2, 1, 0, 3]);
}

#[test]
fn plan_in_order_keeps_creation_order() {
    let mut plan = BatchPlan::new();
    plan.batch_for(BlendMode::Opaque);
    plan.batch_for(BlendMode::Alpha);
    plan.set_z(5);
    plan.batch_for(BlendMode::Opaque);
    assert_eq!(plan.order(), vec![0, 1, 2]);
    assert_eq!(BatchPlan::new().order(), Vec::<usize>::new());
}
