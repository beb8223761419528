use oxide_engine_core::batching::{
    group_by_key, plan_scene_batches, plan_sprite_batches, scene_renderer_stats, text_less, BatchKey,
    SceneRendererStats,
};
use oxide_engine_core::material::{BuiltinShader, MaterialType};
use oxide_engine_core::mesh::MeshPrimitive;
use oxide_engine_core::scene::RenderMaterial;
use oxide_engine_core::sprite::{SpriteDepthMode, SpriteId};

fn named(name: &str) -> RenderMaterial {
    RenderMaterial::Named(name.to_string())
}

#[test]
fn text_order_is_lexicographic_by_code_point() {
    assert!(text_less("a", "b"));
    assert!(text_less("ab", "abc"));
    assert!(!text_less("abc", "ab"));
    assert!(!text_less("same", "same"));
    assert!(text_less("Z", "a"));
    assert!(text_less("", "x"));
}

#[test]
fn cube_batches_group_by_material_in_key_order() {
    let meshes = vec![
        (MeshPrimitive::Cube, named("metal")),
        (MeshPrimitive::Cube, RenderMaterial::default()),
        (MeshPrimitive::Cube, named("glass")),
        (MeshPrimitive::Cube, named("metal")),
    ];
    let plan = plan_scene_batches(&meshes);
    assert!(plan.spheres.is_empty());
    // unlit materials first, then lit ones by identity text
    let texts: Vec<&str> = plan.cubes.iter().map(|g| g.key.text()).collect();
    assert_eq!(texts, vec!["builtin:Unlit:Unlit:default_unlit", "named:glass", "named:metal"]);
    let members: Vec<Vec<usize>> = plan.cubes.iter().map(|g| g.members.clone()).collect();
    assert_eq!(members, vec![vec![1], vec![2], vec![0, 3]]);
}

#[test]
fn sphere_batches_clamp_tessellation() {
    let meshes = vec![
        (MeshPrimitive::Sphere { segments: 1, rings: 500 }, named("a")),
        (MeshPrimitive::Cube, named("a")),
        (MeshPrimitive::Sphere { segments: 3, rings: 128 }, named("a")),
        (MeshPrimitive::Sphere { segments: 16, rings: 16 }, named("a")),
    ];
    let plan = plan_scene_batches(&meshes);
    assert_eq!(plan.cubes.len(), 1);
    assert_eq!(plan.cubes[0].members, vec![1]);
    assert_eq!(plan.spheres.len(), 2);
    assert_eq!(plan.spheres[0].key.numbers(), (3, 128, 1));
    assert_eq!(plan.spheres[0].members, vec![0, 2]);
    assert_eq!(plan.spheres[1].key.numbers(), (16, 16, 1));
    assert_eq!(plan.spheres[1].members, vec![3]);
}

#[test]
fn sprite_batches_skip_missing_textures() {
    let sprites = vec![
        (SpriteDepthMode::Overlay, SpriteId::new("hud"), true),
        (SpriteDepthMode::World, SpriteId::new("tree"), true),
        (SpriteDepthMode::World, SpriteId::new("ghost"), false),
        (SpriteDepthMode::World, SpriteId::new("tree"), true),
    ];
    let batches = plan_sprite_batches(&sprites);
    assert_eq!(batches.len(), 2);
    assert_eq!(batches[0].key.text(), "tree");
    assert_eq!(batches[0].members, vec![1, 3]);
    assert_eq!(batches[1].key.text(), "hud");
    assert_eq!(batches[1].members, vec![0]);
}

#[test]
fn grouping_ignores_items_without_key() {
    let keys = vec![None, Some(BatchKey::sprite(SpriteDepthMode::World, &SpriteId::new("x"))), None];
    let groups = group_by_key(&keys);
    assert_eq!(groups.len(), 1);
    assert_eq!(groups[0].members, vec![1]);
    assert!(group_by_key(&[]).is_empty());
}

#[test]
fn batch_keys_compare_numbers_before_text() {
    let lit = RenderMaterial::Builtin {
        shader: BuiltinShader::Lit,
        material_type: MaterialType::Lit,
        name: "a".to_string(),
    };
    let small = BatchKey::sphere(8, 8, &named("z"));
    let large = BatchKey::sphere(9, 2, &lit);
    assert!(small.less_than(&large));
    assert!(!large.less_than(&small));
    assert!(small.same_as(&small.duplicate()));
    assert!(!small.same_as(&large));
}

#[test]
fn stats_count_instances_and_draw_calls() {
    let meshes = vec![
        (MeshPrimitive::Cube, named("metal")),
        (MeshPrimitive::Cube, named("metal")),
        (MeshPrimitive::Cube, named("glass")),
        (MeshPrimitive::Sphere { segments: 16, rings: 16 }, named("metal")),
    ];
    let plan = plan_scene_batches(&meshes);
    let stats = scene_renderer_stats(&plan, 2, &[4, 1]);
    assert_eq!(
        stats,
        SceneRendererStats {
            cube_instances: 3,
            sphere_instances: 1,
            terrain_instances: 2,
            sprite_instances: 5,
            draw_calls: 2 + 1 + 2 + 2,
        }
    );
    assert_eq!(SceneRendererStats::default().draw_calls, 0);
}
