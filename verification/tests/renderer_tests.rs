use std::path::PathBuf;

use oxide_engine_core::pixels::{plan_extracted_images, ExtractedImageRole};

use oxide_engine_core::material::{
    check_material_document, depth_write_enabled, descriptor_format_for_extension, fallback_shader_of,
    parse_builtin_shader, shader_source_of, AlphaMode, BuiltinShader, DescriptorFormat, MaterialDescriptorError,
    ShaderDescriptor, ShaderSource,
};
use oxide_engine_core::gltf_import::{
    gltf_dependency_paths, gltf_document_dependencies, image_file_uri_list, metallic_roughness_image_indices,
    resolve_gltf_uri, sort_unique_paths,
};
use oxide_engine_core::mesh::{cube_indices, sphere_indices, terrain_indices, MeshPrimitive};
use oxide_engine_core::pixels::{
    expand_u16_pixels, expand_u8_pixels, gltf_image_to_rgba, distinct_sorted_sources,
    metallic_rgba_from_metallic_roughness_rgba, roughness_rgba_from_metallic_roughness_rgba, GltfImageFormat,
};

#[test]
fn gltf_rgb8_image_expands_to_rgba() {
    let pixels = vec![255, 0, 128];
    assert_eq!(
        gltf_image_to_rgba(GltfImageFormat::R8G8B8, &pixels),
        Some(vec![255, 0, 128, 255])
    );
}

#[test]
fn gltf_rgba16_image_downsamples_to_rgba8() {
    let pixels = vec![0xff, 0xff, 0x00, 0x00, 0x80, 0x80, 0xff, 0xff];
    assert_eq!(
        gltf_image_to_rgba(GltfImageFormat::R16G16B16A16, &pixels),
        Some(vec![255, 0, 128, 255])
    );
}

#[test]
fn gltf_single_channel_images_repeat_the_channel() {
    assert_eq!(
        gltf_image_to_rgba(GltfImageFormat::R8, &[10, 20]),
        Some(vec![10, 10, 10, 255, 20, 20, 20, 255])
    );
    assert_eq!(
        gltf_image_to_rgba(GltfImageFormat::R8G8, &[1, 2]),
        Some(vec![1, 2, 1, 255])
    );
    // 0x0101 * 255 / 65535 == 1
    assert_eq!(
        gltf_image_to_rgba(GltfImageFormat::R16, &[0x01, 0x01]),
        Some(vec![1, 1, 1, 255])
    );
}

#[test]
fn gltf_rgba8_is_copied_and_float_formats_are_left_to_the_caller() {
    assert_eq!(
        gltf_image_to_rgba(GltfImageFormat::R8G8B8A8, &[1, 2, 3, 4]),
        Some(vec![1, 2, 3, 4])
    );
    assert_eq!(gltf_image_to_rgba(GltfImageFormat::R32G32B32FLOAT, &[0; 12]), None);
    assert_eq!(gltf_image_to_rgba(GltfImageFormat::R32G32B32A32FLOAT, &[0; 16]), None);
}

#[test]
fn trailing_partial_pixels_are_dropped() {
    assert_eq!(expand_u8_pixels(&[9, 8, 7, 6], 3), vec![9, 8, 7, 255]);
    assert_eq!(expand_u16_pixels(&[0xff, 0xff, 0x00], 1), vec![255, 255, 255, 255]);
}

#[test]
fn metallic_and_roughness_maps_come_from_blue_and_green() {
    let packed = [7, 64, 128, 255, 11, 200, 220, 255];
    assert_eq!(
        metallic_rgba_from_metallic_roughness_rgba(&packed),
        vec![128, 128, 128, 255, 220, 220, 220, 255]
    );
    assert_eq!(
        roughness_rgba_from_metallic_roughness_rgba(&packed),
        vec![64, 64, 64, 255, 200, 200, 200, 255]
    );
}

#[test]
fn metallic_roughness_sources_are_sorted_and_distinct() {
    let sources = [Some(3), None, Some(1), Some(3), Some(0)];
    assert_eq!(distinct_sorted_sources(&sources), vec![0, 1, 3]);
    assert_eq!(distinct_sorted_sources(&[None, None]), Vec::<usize>::new());
}

#[test]
fn cube_has_two_triangles_per_face() {
    let indices = cube_indices();
    assert_eq!(indices.len(), 36);
    assert_eq!(&indices[0..6], &[0, 1, 2, 2, 3, 0]);
    assert_eq!(&indices[30..36], &[20, 21, 22, 22, 23, 20]);
}

#[test]
fn sphere_indices_cover_every_quad() {
    let indices = sphere_indices(2, 1);
    // rows of 3 vertices: quads (0,1) and (1,2)
    assert_eq!(indices, vec![0, 3, 1, 1, 3, 4, 1, 4, 2, 2, 4, 5]);
    assert_eq!(sphere_indices(16, 16).len(), 16 * 16 * 6);
    assert!(sphere_indices(0, 5).is_empty());
}

#[test]
fn terrain_indices_match_the_grid_layout() {
    let indices = terrain_indices(1, 2);
    assert_eq!(indices, vec![0, 2, 1, 1, 2, 3, 2, 4, 3, 3, 4, 5]);
}

#[test]
fn mesh_primitive_defaults_to_cube() {
    assert_eq!(MeshPrimitive::default(), MeshPrimitive::Cube);
}

#[test]
fn builtin_shader_names_are_case_insensitive_with_aliases() {
    assert_eq!(parse_builtin_shader("  LIT ").unwrap(), BuiltinShader::Lit);
    assert_eq!(parse_builtin_shader("Sky").unwrap(), BuiltinShader::SkyGradient);
    assert_eq!(parse_builtin_shader("sky_gradient").unwrap(), BuiltinShader::SkyGradient);
    assert_eq!(parse_builtin_shader("SpriteUI").unwrap(), BuiltinShader::SpriteUi);
    assert_eq!(parse_builtin_shader("ui").unwrap(), BuiltinShader::SpriteUi);
    assert_eq!(parse_builtin_shader("basic").unwrap(), BuiltinShader::Basic);
    assert_eq!(parse_builtin_shader("unlit").unwrap(), BuiltinShader::Unlit);
    assert_eq!(parse_builtin_shader("fallback").unwrap(), BuiltinShader::Fallback);
    match parse_builtin_shader("toon") {
        Err(MaterialDescriptorError::UnknownBuiltinShader { name }) => assert_eq!(name, "toon"),
        other => panic!("unexpected {other:?}"),
    }
}

#[test]
fn shader_descriptors_resolve_to_sources() {
    match shader_source_of(&ShaderDescriptor::Builtin { shader: "Unlit".to_string() }) {
        Ok(ShaderSource::Builtin(BuiltinShader::Unlit)) => {}
        other => panic!("unexpected {other:?}"),
    }
    match shader_source_of(&ShaderDescriptor::File { path: "shaders/water.wgsl".to_string() }) {
        Ok(ShaderSource::File(path)) => assert_eq!(path, "shaders/water.wgsl"),
        other => panic!("unexpected {other:?}"),
    }
    match shader_source_of(&ShaderDescriptor::Inline { wgsl: "fn main() {}".to_string() }) {
        Ok(ShaderSource::WgslOwned(code)) => assert_eq!(code, "fn main() {}"),
        other => panic!("unexpected {other:?}"),
    }
    assert!(shader_source_of(&ShaderDescriptor::Builtin { shader: "nope".to_string() }).is_err());
}

#[test]
fn fallback_shader_defaults_to_fallback() {
    assert_eq!(fallback_shader_of(&None).unwrap(), BuiltinShader::Fallback);
    assert_eq!(fallback_shader_of(&Some("lit".to_string())).unwrap(), BuiltinShader::Lit);
    assert!(fallback_shader_of(&Some("x".to_string())).is_err());
}

#[test]
fn material_documents_need_tag_and_version() {
    assert!(check_material_document("oxide.oxmat".to_string(), 1, "a.oxmat".to_string()).is_ok());
    match check_material_document("oxide.oxmat".to_string(), 2, "a.oxmat".to_string()) {
        Err(MaterialDescriptorError::UnsupportedVersion { path, format, version }) => {
            assert_eq!(path, "a.oxmat");
            assert_eq!(format, "oxide.oxmat");
            assert_eq!(version, 2);
        }
        other => panic!("unexpected {other:?}"),
    }
    assert!(check_material_document("oxide.oxscene".to_string(), 1, "a.oxmat".to_string()).is_err());
}

#[test]
fn descriptor_formats_follow_the_extension() {
    assert_eq!(descriptor_format_for_extension("oxmat"), Some(DescriptorFormat::Oxmat));
    assert_eq!(descriptor_format_for_extension("json"), Some(DescriptorFormat::Json));
    assert_eq!(descriptor_format_for_extension("ron"), Some(DescriptorFormat::Ron));
    assert_eq!(descriptor_format_for_extension("toml"), Some(DescriptorFormat::Toml));
    assert_eq!(descriptor_format_for_extension("yaml"), None);
}

#[test]
fn only_blended_materials_skip_depth_writes() {
    assert!(depth_write_enabled(AlphaMode::Opaque));
    assert!(depth_write_enabled(AlphaMode::Mask));
    assert!(!depth_write_enabled(AlphaMode::Blend));
    assert_eq!(AlphaMode::default(), AlphaMode::Opaque);
}

#[test]
fn gltf_document_dependencies_resolve_external_uris() {
    let raw = br#"{
        "asset": { "version": "2.0" },
        "buffers": [
            { "uri": "mesh.bin", "byteLength": 4 },
            { "uri": "data:application/octet-stream;base64,AAAA", "byteLength": 4 }
        ],
        "images": [
            { "uri": "textures/albedo.png" }
        ]
    }"#;
    let gltf = gltf::Gltf::from_slice(raw).unwrap();

    let dependencies: Vec<PathBuf> = gltf_document_dependencies("assets/models/level.gltf", &gltf.document)
        .into_iter()
        .map(PathBuf::from)
        .collect();
    assert_eq!(
        dependencies,
        vec![
            PathBuf::from("assets/models/mesh.bin"),
            PathBuf::from("assets/models/textures/albedo.png"),
        ]
    );
}

#[test]
fn gltf_dependencies_are_sorted_and_listed_once() {
    let raw = br#"{
        "asset": { "version": "2.0" },
        "buffers": [
            { "uri": "b.bin", "byteLength": 4 },
            { "uri": "a.bin", "byteLength": 4 },
            { "uri": "sub//b.bin", "byteLength": 4 },
            { "uri": "sub/b.bin", "byteLength": 4 }
        ],
        "images": [
            { "uri": "   " },
            { "uri": "a.bin" }
        ]
    }"#;
    let gltf = gltf::Gltf::from_slice(raw).unwrap();
    let dependencies = gltf_document_dependencies("scene.gltf", &gltf.document);
    assert_eq!(
        dependencies,
        vec!["a.bin".to_string(), "b.bin".to_string(), "sub//b.bin".to_string()]
    );
}

#[test]
fn gltf_uris_resolve_against_the_base() {
    assert_eq!(resolve_gltf_uri(Some("models"), "tex.png"), Some("models/tex.png".to_string()));
    assert_eq!(resolve_gltf_uri(None, "tex.png"), Some("tex.png".to_string()));
    assert_eq!(resolve_gltf_uri(Some("models"), "/abs/tex.png"), Some("/abs/tex.png".to_string()));
    assert_eq!(resolve_gltf_uri(Some("models"), " \t"), None);
    assert_eq!(resolve_gltf_uri(Some("models"), "data:image/png;base64,AAAA"), None);
}

#[test]
fn paths_sort_by_components() {
    let sorted = sort_unique_paths(vec![
        "a.b".to_string(),
        "a/b".to_string(),
        "a//b".to_string(),
        "a".to_string(),
    ]);
    assert_eq!(sorted, vec!["a".to_string(), "a/b".to_string(), "a.b".to_string()]);
}

use oxide_engine_core::gltf_import::GltfAnimationInterpolation;
use oxide_engine_core::surface::{acquire_outcome, resized_surface, SurfaceAcquireError, SurfaceStatus};

#[test]
fn suboptimal_surfaces_still_present() {
    assert_eq!(acquire_outcome(SurfaceStatus::Success), Ok(()));
    assert_eq!(acquire_outcome(SurfaceStatus::Suboptimal), Ok(()));
    assert_eq!(acquire_outcome(SurfaceStatus::Lost), Err(SurfaceAcquireError::Lost));
    assert_eq!(acquire_outcome(SurfaceStatus::Timeout), Err(SurfaceAcquireError::Timeout));
    assert_eq!(acquire_outcome(SurfaceStatus::Occluded), Err(SurfaceAcquireError::Occluded));
    assert_eq!(acquire_outcome(SurfaceStatus::Outdated), Err(SurfaceAcquireError::Outdated));
    assert_eq!(acquire_outcome(SurfaceStatus::Validation), Err(SurfaceAcquireError::Validation));
    assert_eq!(SurfaceAcquireError::Outdated.message(), "surface configuration is outdated");
}

#[test]
fn zero_sized_resizes_are_ignored() {
    assert_eq!(resized_surface(0, 600), None);
    assert_eq!(resized_surface(800, 0), None);
    assert_eq!(resized_surface(800, 600), Some((800, 600)));
}

#[test]
fn animation_interpolation_modes_are_distinct() {
    assert_ne!(GltfAnimationInterpolation::Linear, GltfAnimationInterpolation::Step);
    assert_ne!(GltfAnimationInterpolation::Step, GltfAnimationInterpolation::CubicSpline);
}

#[test]
fn packed_metallic_roughness_images_are_listed_once() {
    let raw = br#"{
        "asset": { "version": "2.0" },
        "images": [
            { "uri": "albedo.png" },
            { "uri": "metallic_roughness.png" }
        ],
        "textures": [
            { "source": 1 },
            { "source": 0 }
        ],
        "materials": [
            { "pbrMetallicRoughness": { "metallicRoughnessTexture": { "index": 0 } } },
            { "pbrMetallicRoughness": { "baseColorTexture": { "index": 1 } } },
            { "pbrMetallicRoughness": { "metallicRoughnessTexture": { "index": 0 } } }
        ]
    }"#;
    let gltf = gltf::Gltf::from_slice(raw).unwrap();
    assert_eq!(oxide_engine_core::gltf_import::gltf_metallic_roughness_image_sources(&gltf.document), vec![1]);
}

#[test]
fn gltf_images_without_a_file_uri_are_not_dependencies() {
    let raw = br#"{
        "asset": { "version": "2.0" },
        "buffers": [ { "uri": "mesh.bin", "byteLength": 4 } ],
        "bufferViews": [ { "buffer": 0, "byteLength": 4 } ],
        "images": [
            {},
            { "bufferView": 0 },
            { "bufferView": 0, "uri": "ignored.png" },
            { "uri": "albedo.png" }
        ]
    }"#;
    let gltf = gltf::Gltf::from_slice(raw).unwrap();
    let dependencies = gltf_document_dependencies("scene.gltf", &gltf.document);
    assert_eq!(dependencies, vec!["albedo.png".to_string(), "mesh.bin".to_string()]);
}

#[test]
fn image_entries_give_file_uris_only_outside_buffer_views() {
    let entries = vec![
        (false, Some("a.png".to_string())),
        (true, Some("b.png".to_string())),
        (false, None),
        (true, None),
    ];
    assert_eq!(image_file_uri_list(&entries), vec![Some("a.png".to_string()), None, None, None]);
}

#[test]
fn dependency_paths_keep_the_first_of_equal_paths() {
    let buffers = vec![Some("x/./a.bin".to_string()), Some("x/a.bin".to_string())];
    let images = vec![(false, Some("x/a.bin".to_string())), (false, Some("c.png".to_string()))];
    assert_eq!(
        gltf_dependency_paths(Some("root"), &buffers, &images),
        vec!["root/c.png".to_string(), "root/x/./a.bin".to_string()]
    );
}

#[test]
fn metallic_roughness_indices_are_checked() {
    assert_eq!(
        metallic_roughness_image_indices(&[Some(0), Some(5), None, Some(1)], &[2, 9], 3),
        vec![Some(2), None, None, None]
    );
}

#[test]
fn unvalidated_documents_with_dangling_indices_give_no_metallic_roughness_image() {
    let root = gltf::json::Root::from_str(
        r#"{
        "asset": { "version": "2.0" },
        "images": [ { "uri": "mr.png" } ],
        "textures": [ { "source": 4 }, { "source": 0 } ],
        "materials": [
            { "pbrMetallicRoughness": { "metallicRoughnessTexture": { "index": 7 } } },
            { "pbrMetallicRoughness": { "metallicRoughnessTexture": { "index": 0 } } },
            { "pbrMetallicRoughness": { "metallicRoughnessTexture": { "index": 1 } } }
        ]
    }"#,
    )
    .unwrap();
    let document = gltf::Document::from_json_without_validation(root);
    assert_eq!(oxide_engine_core::gltf_import::gltf_metallic_roughness_image_sources(&document), vec![0]);
}

#[test]
fn extracted_images_put_channel_textures_before_each_packed_image() {
    assert_eq!(
        plan_extracted_images(3, &[1]),
        vec![
            (0, ExtractedImageRole::Imported),
            (1, ExtractedImageRole::Metallic),
            (1, ExtractedImageRole::Roughness),
            (1, ExtractedImageRole::Imported),
            (2, ExtractedImageRole::Imported),
        ]
    );
    assert_eq!(plan_extracted_images(0, &[0]), vec![]);
}

#[test]
fn gltf_images_publish_metallic_and_roughness_textures_from_packed_map() {
    let raw = br#"{
        "asset": { "version": "2.0" },
        "images": [
            { "uri": "metallic_roughness.png" }
        ],
        "textures": [
            { "source": 0 }
        ],
        "materials": [
            {
                "pbrMetallicRoughness": {
                    "metallicRoughnessTexture": { "index": 0 }
                }
            }
        ]
    }"#;
    let gltf = gltf::Gltf::from_slice(raw).unwrap();
    let pixels = vec![7, 64, 128, 255, 11, 200, 220, 255];
    let rgba = gltf_image_to_rgba(GltfImageFormat::R8G8B8A8, &pixels).unwrap();

    let packed = oxide_engine_core::gltf_import::gltf_metallic_roughness_image_sources(&gltf.document);
    let plan = plan_extracted_images(1, &packed);

    assert_eq!(plan.len(), 3);
    assert!(plan.contains(&(0, ExtractedImageRole::Metallic)));
    assert_eq!(metallic_rgba_from_metallic_roughness_rgba(&rgba), vec![128, 128, 128, 255, 220, 220, 220, 255]);
    assert!(plan.contains(&(0, ExtractedImageRole::Roughness)));
    assert_eq!(roughness_rgba_from_metallic_roughness_rgba(&rgba), vec![64, 64, 64, 255, 200, 200, 200, 255]);
    assert!(plan.contains(&(0, ExtractedImageRole::Imported)));
}
