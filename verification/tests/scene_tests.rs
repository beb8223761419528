use oxide_engine_core::layers::{RenderLayers, MAX_RENDER_LAYERS};
use oxide_engine_core::material::{BuiltinShader, MaterialType};
use oxide_engine_core::mesh::MeshPrimitive;
use oxide_engine_core::scene::{
    check_scene_document, default_material_name, is_wrapped_scene_document, material_mode,
    render_material_from_scene, MaterialBatchKey, MaterialMode, RenderMaterial, SceneBuiltinShader,
    SceneDescriptorError, SceneMeshPrimitive,
};
use oxide_engine_core::sprite::{
    SpriteAssets, SpriteDepthMode, SpriteFacing, SpriteId, SpriteImage, SpriteImageError,
};

#[test]
fn builtin_unlit_material_maps_to_unlit_instance_mode() {
    let material = RenderMaterial::Builtin {
        shader: BuiltinShader::Unlit,
        material_type: MaterialType::Unlit,
        name: "ui".to_string(),
    };

    let key = MaterialBatchKey::from_material(&material);

    assert_eq!(key.mode(), MaterialMode::Unlit);
    assert_eq!(key.mode().shader_index() as f32, 0.0);
}

#[test]
fn builtin_lit_material_maps_to_lit_instance_mode() {
    let material = RenderMaterial::Builtin {
        shader: BuiltinShader::Lit,
        material_type: MaterialType::Lit,
        name: "scene_lit".to_string(),
    };

    let key = MaterialBatchKey::from_material(&material);

    assert_eq!(key.mode(), MaterialMode::Lit);
    assert_eq!(key.mode().shader_index() as f32, 1.0);
}

#[test]
fn material_batch_key_preserves_named_identity() {
    let first = MaterialBatchKey::from_material(&RenderMaterial::Named("metal".to_string()));
    let second = MaterialBatchKey::from_material(&RenderMaterial::Named("glass".to_string()));

    assert_ne!(first, second);
}

#[test]
fn material_batch_key_identity_text() {
    let key = MaterialBatchKey::from_material(&RenderMaterial::Builtin {
        shader: BuiltinShader::SkyGradient,
        material_type: MaterialType::Basic,
        name: "sky".to_string(),
    });
    assert_eq!(key.identity(), "builtin:SkyGradient:Basic:sky");
    assert_eq!(key.mode(), MaterialMode::Unlit);
    let named = MaterialBatchKey::from_material(&RenderMaterial::Named("metal".to_string()));
    assert_eq!(named.identity(), "named:metal");
    assert_eq!(named.mode(), MaterialMode::Lit);
    assert_eq!(named, MaterialBatchKey::from_material(&RenderMaterial::Named("metal".to_string())));
}

#[test]
fn material_mode_is_lit_when_shader_or_type_is_lit() {
    assert_eq!(material_mode(BuiltinShader::Lit, MaterialType::Unlit), MaterialMode::Lit);
    assert_eq!(material_mode(BuiltinShader::Unlit, MaterialType::Lit), MaterialMode::Lit);
    assert_eq!(material_mode(BuiltinShader::Basic, MaterialType::Basic), MaterialMode::Unlit);
}

#[test]
fn default_render_material_is_unlit_default() {
    assert_eq!(default_material_name(), "default_unlit");
    match RenderMaterial::default() {
        RenderMaterial::Builtin { shader, material_type, name } => {
            assert_eq!(shader, BuiltinShader::Unlit);
            assert_eq!(material_type, MaterialType::Unlit);
            assert_eq!(name, "default_unlit");
        }
        other => panic!("unexpected {other:?}"),
    }
}

#[test]
fn scene_shaders_and_primitives_convert() {
    assert_eq!(BuiltinShader::from(SceneBuiltinShader::Lit), BuiltinShader::Lit);
    assert_eq!(SceneBuiltinShader::default(), SceneBuiltinShader::Unlit);
    assert_eq!(SceneBuiltinShader::Lit.material_type(), MaterialType::Lit);
    assert_eq!(
        MeshPrimitive::from(SceneMeshPrimitive::Sphere),
        MeshPrimitive::Sphere { segments: 16, rings: 16 }
    );
    assert_eq!(MeshPrimitive::from(SceneMeshPrimitive::default()), MeshPrimitive::Cube);
    match render_material_from_scene("floor".to_string(), SceneBuiltinShader::Lit) {
        RenderMaterial::Builtin { shader, material_type, name } => {
            assert_eq!(shader, BuiltinShader::Lit);
            assert_eq!(material_type, MaterialType::Lit);
            assert_eq!(name, "floor");
        }
        other => panic!("unexpected {other:?}"),
    }
}

#[test]
fn scene_documents_need_tag_and_version() {
    assert!(check_scene_document("oxide.oxscene".to_string(), 1, "s.oxscene".to_string()).is_ok());
    match check_scene_document("oxide.oxscene".to_string(), 9, "s.oxscene".to_string()) {
        Err(SceneDescriptorError::UnsupportedVersion { path, format, version }) => {
            assert_eq!(path, "s.oxscene");
            assert_eq!(format, "oxide.oxscene");
            assert_eq!(version, 9);
        }
        Ok(()) => panic!("version 9 must be refused"),
    }
    assert!(is_wrapped_scene_document(Some("oxide.oxscene"), false, false));
    assert!(is_wrapped_scene_document(None, true, true));
    assert!(!is_wrapped_scene_document(Some("oxide.oxmat"), true, false));
}

#[test]
fn render_layers_set_and_clear_bits() {
    let layers = RenderLayers::layer(3);
    assert_eq!(layers.mask(), 1 << 3);
    assert!(layers.contains(3));
    assert!(!layers.contains(2));
    let both = layers.with_layer(5);
    assert_eq!(both.mask(), (1 << 3) | (1 << 5));
    assert_eq!(both.without_layer(3), RenderLayers::layer(5));
    assert!(both.intersects(RenderLayers::layer(5)));
    assert!(!both.intersects(RenderLayers::layer(4)));
    assert_eq!(RenderLayers::all().mask(), u32::MAX);
    assert_eq!(RenderLayers::none().mask(), 0);
    assert_eq!(RenderLayers::default(), RenderLayers::layer(0));
    assert_eq!(RenderLayers::from_mask(6).mask(), 6);
    assert_eq!(RenderLayers::MAX_LAYERS, MAX_RENDER_LAYERS);
}

#[test]
fn render_layers_edge_layers() {
    assert_eq!(RenderLayers::layer(31).mask(), 1 << 31);
    assert!(RenderLayers::all().contains(31));
    assert!(RenderLayers::all().contains(0));
    assert!(!RenderLayers::none().contains(31));
    assert_eq!(RenderLayers::all().without_layer(31).mask(), u32::MAX >> 1);
    assert!(!RenderLayers::none().intersects(RenderLayers::all()));
}

#[test]
fn ascii_sprite_maps_palette_to_rgba() {
    let image = SpriteImage::from_ascii(
        &[" A", "A "],
        &[(' ', [0, 0, 0, 0]), ('A', [255, 0, 0, 255])],
    )
    .expect("sprite should parse");

    assert_eq!(image.width(), 2);
    assert_eq!(image.height(), 2);
    assert_eq!(image.rgba()[0..4], [0, 0, 0, 0]);
    assert_eq!(image.rgba()[4..8], [255, 0, 0, 255]);
}

#[test]
fn ascii_sprite_errors() {
    let palette = [('#', [1, 2, 3, 4])];
    assert_eq!(SpriteImage::from_ascii(&[], &palette).unwrap_err(), SpriteImageError::EmptyRows);
    assert_eq!(
        SpriteImage::from_ascii(&["", ""], &palette).unwrap_err(),
        SpriteImageError::InvalidDimensions { width: 0, height: 2 }
    );
    assert_eq!(
        SpriteImage::from_ascii(&["##", "#"], &palette).unwrap_err(),
        SpriteImageError::RaggedRows
    );
    assert_eq!(
        SpriteImage::from_ascii(&["#x"], &palette).unwrap_err(),
        SpriteImageError::UnknownPaletteChar { ch: 'x' }
    );
    // the last palette entry for a character wins
    let image = SpriteImage::from_ascii(&["#"], &[('#', [1, 1, 1, 1]), ('#', [9, 9, 9, 9])]).unwrap();
    assert_eq!(image.rgba(), &[9, 9, 9, 9]);
}

#[test]
fn rgba_sprites_check_size() {
    assert_eq!(
        SpriteImage::from_rgba(0, 3, vec![]).unwrap_err(),
        SpriteImageError::InvalidDimensions { width: 0, height: 3 }
    );
    assert_eq!(
        SpriteImage::from_rgba(1, 2, vec![0; 4]).unwrap_err(),
        SpriteImageError::InvalidRgbaLength { expected: 8, actual: 4 }
    );
    let image = SpriteImage::solid(2, 1, [1, 2, 3, 4]).unwrap();
    assert_eq!(image.rgba(), &[1, 2, 3, 4, 1, 2, 3, 4]);
    assert_eq!(
        SpriteImage::solid(0, 1, [0; 4]).unwrap_err(),
        SpriteImageError::InvalidDimensions { width: 0, height: 1 }
    );
}

#[test]
fn sprite_assets_increment_revision_on_replace() {
    let mut assets = SpriteAssets::default();
    let id = assets.register(
        SpriteId::new("actor"),
        SpriteImage::solid(1, 1, [255, 255, 255, 255]).unwrap(),
    );
    let first = assets.get(&id).unwrap().revision;

    assets.register(
        id.clone(),
        SpriteImage::solid(1, 1, [0, 0, 0, 255]).unwrap(),
    );

    assert!(assets.get(&id).unwrap().revision > first);
}

#[test]
fn sprite_assets_track_ids() {
    let mut assets = SpriteAssets::new();
    assert!(assets.is_empty());
    let id = assets.register(SpriteId::new("tree"), SpriteImage::solid(1, 1, [0; 4]).unwrap());
    assert_eq!(id.as_str(), "tree");
    assert_eq!(assets.get(&id).unwrap().revision, 1);
    assets.register(SpriteId::new("rock"), SpriteImage::solid(1, 1, [0; 4]).unwrap());
    assets.register(SpriteId::new("tree"), SpriteImage::solid(1, 1, [7; 4]).unwrap());
    assert_eq!(assets.len(), 2);
    assert_eq!(assets.get(&id).unwrap().revision, 2);
    assert_eq!(assets.get(&id).unwrap().image.rgba(), &[7, 7, 7, 7]);
    assert!(assets.contains(&SpriteId::new("rock")));
    assert!(!assets.contains(&SpriteId::new("bush")));
    assert!(assets.get(&SpriteId::new("bush")).is_none());
}

#[test]
fn sprite_defaults() {
    assert_eq!(SpriteFacing::default(), SpriteFacing::YBillboard);
    assert_eq!(SpriteDepthMode::default(), SpriteDepthMode::World);
}


use oxide_engine_core::sprite_sync::plan_sprite_texture_sync;

#[test]
fn sprite_textures_follow_shown_sprites_and_revisions() {
    let mut assets = SpriteAssets::new();
    assets.register(SpriteId::new("tree"), SpriteImage::solid(1, 1, [0; 4]).unwrap());
    assets.register(SpriteId::new("tree"), SpriteImage::solid(1, 1, [1; 4]).unwrap());
    assets.register(SpriteId::new("rock"), SpriteImage::solid(1, 1, [2; 4]).unwrap());
    assets.register(SpriteId::new("bush"), SpriteImage::solid(1, 1, [3; 4]).unwrap());
    let cached = vec![
        (SpriteId::new("tree"), 1),
        (SpriteId::new("rock"), 1),
        (SpriteId::new("old"), 4),
    ];
    let shown = vec![
        SpriteId::new("tree"),
        SpriteId::new("rock"),
        SpriteId::new("bush"),
        SpriteId::new("tree"),
        SpriteId::new("ghost"),
    ];
    let plan = plan_sprite_texture_sync(&cached, &shown, &assets);
    let evict: Vec<&str> = plan.evict.iter().map(|id| id.as_str()).collect();
    let upload: Vec<&str> = plan.upload.iter().map(|id| id.as_str()).collect();
    assert_eq!(evict, vec!["old"]);
    // tree moved on to revision 2, rock is current, bush was never uploaded,
    // ghost is not registered
    assert_eq!(upload, vec!["tree", "bush"]);
}
