//! End-to-end and component tests for the asset pipeline.

use asset_pipeline::asset::{AssetBundle, AssetManager, LoadingDraw};
use asset_pipeline::fixed::{Fx2, Fx3, SCALE};
use asset_pipeline::geometry::{compute_tangents, GeometryError};
use asset_pipeline::geometry::ModelVertex;
use asset_pipeline::model::{import_model, load_model_from_text, ImportError, LoadError, Instance, Quat};
use asset_pipeline::mtl::parse_mtl;
use asset_pipeline::obj::parse_obj;
use asset_pipeline::resources::format_url;
use asset_pipeline::surface::{SurfaceContext, SurfaceFormat};
use asset_pipeline::text::{parse_fixed, parse_u32, tokenize};

fn basic_context(max_dim: u32) -> SurfaceContext {
    let formats = vec![
        SurfaceFormat { id: 7, srgb: false },
        SurfaceFormat { id: 8, srgb: true },
        SurfaceFormat { id: 9, srgb: true },
    ];
    let present_modes = vec![2u32, 3u32];
    let alpha_modes = vec![5u32];
    SurfaceContext::configure(&formats, &present_modes, &alpha_modes, 800, 600, max_dim)
}

#[test]
fn configure_picks_first_srgb_format_and_first_modes() {
    let ctx = basic_context(4096);
    assert_eq!(ctx.format, SurfaceFormat { id: 8, srgb: true });
    assert_eq!(ctx.present_mode, 2);
    assert_eq!(ctx.alpha_mode, 5);
    assert_eq!(ctx.config_width, 800);
    assert_eq!(ctx.config_height, 600);
}

#[test]
fn configure_falls_back_to_first_format_without_srgb() {
    let formats = vec![
        SurfaceFormat { id: 4, srgb: false },
        SurfaceFormat { id: 6, srgb: false },
    ];
    let ctx = SurfaceContext::configure(&formats, &vec![1], &vec![1], 10, 10, 100);
    assert_eq!(ctx.format, SurfaceFormat { id: 4, srgb: false });
}

#[test]
fn configure_floors_zero_dimensions_to_one() {
    let formats = vec![SurfaceFormat { id: 1, srgb: true }];
    let ctx = SurfaceContext::configure(&formats, &vec![0], &vec![0], 0, 0, 2048);
    assert_eq!(ctx.config_width, 1);
    assert_eq!(ctx.config_height, 1);
}

#[test]
fn resize_with_zero_dimension_is_a_no_op() {
    let mut ctx = basic_context(4096);
    let before = ctx;
    ctx.resize(0, 720, 1_000_000);
    assert_eq!(ctx, before);
    ctx.resize(1280, 0, 1_000_000);
    assert_eq!(ctx, before);
}

#[test]
fn resize_divides_by_device_pixel_ratio() {
    let mut ctx = basic_context(4096);
    ctx.resize(800, 600, 2_000_000);
    assert_eq!(ctx.config_width, 400);
    assert_eq!(ctx.config_height, 300);
    assert_eq!(ctx.size_width, 800);
    assert_eq!(ctx.size_height, 600);
}

#[test]
fn resize_rounds_to_nearest_logical_pixel() {
    let mut ctx = basic_context(4096);
    ctx.resize(101, 99, 2_000_000);
    assert_eq!(ctx.config_width, 51);
    assert_eq!(ctx.config_height, 50);
}

#[test]
fn resize_clamps_to_max_texture_dimension() {
    let mut ctx = basic_context(2048);
    ctx.resize(1_000_000, 3_000_000, 1_000_000);
    assert_eq!(ctx.config_width, 2048);
    assert_eq!(ctx.config_height, 2048);
    assert_eq!(ctx.size_width, 1_000_000);
    assert_eq!(ctx.size_height, 3_000_000);
}

/// A bundle that deliberately breaks the never-revert contract, to show
/// the manager's latch never consults it again once it reported ready.
struct VolatileBundle {
    hits: std::cell::Cell<u32>,
}

impl AssetBundle for VolatileBundle {
    fn new() -> Self {
        VolatileBundle { hits: std::cell::Cell::new(0) }
    }

    fn fully_loaded(&self) -> bool {
        let h = self.hits.get();
        self.hits.set(h + 1);
        h == 1
    }

    fn start_loading(&mut self) {}
}

#[test]
fn readiness_latch_flips_once_and_sticks() {
    let mut manager: AssetManager<VolatileBundle> = AssetManager::new();
    assert!(!manager.loaded());
    assert!(manager.loaded());
    // The bundle would now report false again; the latch must not ask.
    assert!(manager.loaded());
    assert!(manager.loaded());
}

#[test]
fn render_loading_draws_until_ready_then_stops() {
    let mut manager: AssetManager<VolatileBundle> = AssetManager::new();
    assert_eq!(
        manager.render_loading(),
        Some(LoadingDraw { vertex_count: 3, instance_count: 1 })
    );
    assert_eq!(manager.render_loading(), None);
    assert_eq!(manager.render_loading(), None);
}

#[test]
fn to_raw_of_identity_instance_is_identity() {
    let inst = Instance {
        position: Fx3 { x: 0, y: 0, z: 0 },
        rotation: Quat::identity(),
    };
    let raw = inst.to_raw();
    let s = SCALE;
    assert_eq!((raw.model_c0.x, raw.model_c0.y, raw.model_c0.z, raw.model_c0.w), (s, 0, 0, 0));
    assert_eq!((raw.model_c1.x, raw.model_c1.y, raw.model_c1.z, raw.model_c1.w), (0, s, 0, 0));
    assert_eq!((raw.model_c2.x, raw.model_c2.y, raw.model_c2.z, raw.model_c2.w), (0, 0, s, 0));
    assert_eq!((raw.model_c3.x, raw.model_c3.y, raw.model_c3.z, raw.model_c3.w), (0, 0, 0, s));
    assert_eq!((raw.normal_c0.x, raw.normal_c0.y, raw.normal_c0.z), (s, 0, 0));
    assert_eq!((raw.normal_c1.x, raw.normal_c1.y, raw.normal_c1.z), (0, s, 0));
    assert_eq!((raw.normal_c2.x, raw.normal_c2.y, raw.normal_c2.z), (0, 0, s));
}

#[test]
fn to_raw_carries_translation_in_last_column() {
    let inst = Instance {
        position: Fx3 { x: 1_500_000, y: -2_000_000, z: 250_000 },
        rotation: Quat::identity(),
    };
    let raw = inst.to_raw();
    assert_eq!(raw.model_c3.x, 1_500_000);
    assert_eq!(raw.model_c3.y, -2_000_000);
    assert_eq!(raw.model_c3.z, 250_000);
    assert_eq!(raw.model_c3.w, SCALE);
}

#[test]
fn to_raw_quarter_turn_about_z() {
    // w = x = 0, y = 0, z = sin(45deg) ~ 0.707107, w = cos(45deg).
    let inst = Instance {
        position: Fx3 { x: 0, y: 0, z: 0 },
        rotation: Quat { w: 707_107, x: 0, y: 0, z: 707_107 },
    };
    let raw = inst.to_raw();
    // Column 0 rotates +x to +y (up to fixed-point rounding).
    assert!(raw.normal_c0.x.abs() < 10);
    assert!((raw.normal_c0.y - SCALE).abs() < 10);
    assert_eq!(raw.normal_c0.z, 0);
}

#[test]
fn parse_fixed_reads_plain_and_fractional_values() {
    assert_eq!(parse_fixed(&b"1.5".to_vec()), Some(1_500_000));
    assert_eq!(parse_fixed(&b"-0.25".to_vec()), Some(-250_000));
    assert_eq!(parse_fixed(&b"42".to_vec()), Some(42_000_000));
    assert_eq!(parse_fixed(&b"0.000001".to_vec()), Some(1));
    assert_eq!(parse_fixed(&b"0.1234567".to_vec()), Some(123_456));
    assert_eq!(parse_fixed(&b"20000".to_vec()), Some(20_000_000_000));
}

#[test]
fn parse_fixed_rejects_malformed_and_oversized_values() {
    assert_eq!(parse_fixed(&b"".to_vec()), None);
    assert_eq!(parse_fixed(&b"-".to_vec()), None);
    assert_eq!(parse_fixed(&b"1.".to_vec()), None);
    assert_eq!(parse_fixed(&b".5".to_vec()), None);
    assert_eq!(parse_fixed(&b"1.5x".to_vec()), None);
    assert_eq!(parse_fixed(&b"20001".to_vec()), None);
    assert_eq!(parse_fixed(&b"20000.5".to_vec()), None);
}

#[test]
fn parse_u32_reads_indices() {
    assert_eq!(parse_u32(&b"12".to_vec()), Some(12));
    assert_eq!(parse_u32(&b"0".to_vec()), Some(0));
    assert_eq!(parse_u32(&b"4294967295".to_vec()), Some(u32::MAX));
    assert_eq!(parse_u32(&b"4294967296".to_vec()), None);
    assert_eq!(parse_u32(&b"1a".to_vec()), None);
    assert_eq!(parse_u32(&b"".to_vec()), None);
}

#[test]
fn tokenize_splits_on_spaces_and_strips_carriage_return() {
    let toks = tokenize(&b"f 1/1  2/2 3/3\r".to_vec());
    let words: Vec<Vec<u8>> = toks;
    assert_eq!(
        words,
        vec![b"f".to_vec(), b"1/1".to_vec(), b"2/2".to_vec(), b"3/3".to_vec()]
    );
}

#[test]
fn format_url_resolves_under_the_assets_base() {
    let url = format_url(&b"https://example.test".to_vec(), &b"cube.obj".to_vec());
    assert_eq!(url, b"https://example.test/assets/cube.obj".to_vec());
}

fn quad_obj() -> Vec<u8> {
    b"mtllib scene.mtl\no quad\nv 0 0 0\nv 1 0 0\nv 0 1 0\nv 1 1 0\nvt 0 0\nvt 1 0\nvt 0 1\nvt 1 1\nusemtl stone\nf 1/1 2/2 3/3\nf 2/2 4/4 3/3\n".to_vec()
}

fn scene_mtl() -> Vec<u8> {
    b"newmtl stone\nmap_Kd stone_d.qoi\nmap_Bump stone_n.qoi\n".to_vec()
}

#[test]
fn parse_obj_reads_tables_groups_and_material_file() {
    let raw = parse_obj(&quad_obj()).unwrap();
    assert_eq!(raw.mtllib, Some(b"scene.mtl".to_vec()));
    assert_eq!(raw.positions.len(), 4);
    assert_eq!(raw.positions[1], Fx3 { x: 1_000_000, y: 0, z: 0 });
    assert_eq!(raw.texcoords.len(), 4);
    assert_eq!(raw.texcoords[3], Fx2 { u: 1_000_000, v: 1_000_000 });
    assert_eq!(raw.normals.len(), 0);
    assert_eq!(raw.groups.len(), 1);
    assert_eq!(raw.groups[0].name, b"quad".to_vec());
    assert_eq!(raw.groups[0].material, Some(b"stone".to_vec()));
    assert_eq!(raw.groups[0].faces.len(), 2);
}

#[test]
fn parse_obj_fans_polygons_into_triangles() {
    let text = b"v 0 0 0\nv 1 0 0\nv 1 1 0\nv 0 1 0\nf 1 2 3 4\n".to_vec();
    let raw = parse_obj(&text).unwrap();
    assert_eq!(raw.groups.len(), 1);
    let faces = &raw.groups[0].faces;
    assert_eq!(faces.len(), 2);
    assert_eq!((faces[0].a.p, faces[0].b.p, faces[0].c.p), (0, 1, 2));
    assert_eq!((faces[1].a.p, faces[1].b.p, faces[1].c.p), (0, 2, 3));
}

#[test]
fn parse_obj_rejects_short_directives() {
    assert!(parse_obj(&b"v 1 2\n".to_vec()).is_err());
    assert!(parse_obj(&b"f 1 2\n".to_vec()).is_err());
    assert!(parse_obj(&b"usemtl\n".to_vec()).is_err());
    assert!(parse_obj(&b"f 0 1 2\n".to_vec()).is_err());
}

#[test]
fn parse_obj_rejects_relative_face_references() {
    // Only absolute one-based references are supported.
    let text = b"v 0 0 0\nv 1 0 0\nv 0 1 0\nf -3 -2 -1\n".to_vec();
    assert!(parse_obj(&text).is_err());
}

#[test]
fn parse_obj_skips_comments_and_unknown_directives() {
    let raw = parse_obj(&b"# a comment\ns off\nv 1 2 3\n".to_vec()).unwrap();
    assert_eq!(raw.positions.len(), 1);
    assert_eq!(raw.groups.len(), 0);
}

#[test]
fn parse_mtl_reads_definitions_in_order() {
    let defs = parse_mtl(&scene_mtl()).unwrap();
    assert_eq!(defs.len(), 1);
    assert_eq!(defs[0].name, b"stone".to_vec());
    assert_eq!(defs[0].diffuse, Some(b"stone_d.qoi".to_vec()));
    assert_eq!(defs[0].normal, Some(b"stone_n.qoi".to_vec()));
}

#[test]
fn parse_mtl_rejects_texture_before_material() {
    assert!(parse_mtl(&b"map_Kd lost.qoi\n".to_vec()).is_err());
    assert!(parse_mtl(&b"newmtl\n".to_vec()).is_err());
}

#[test]
fn material_without_textures_falls_back_to_defaults() {
    let defs = parse_mtl(&b"newmtl bare\n".to_vec()).unwrap();
    let raw = parse_obj(&b"v 0 0 0\nv 1 0 0\nv 0 1 0\nvt 0 0\nvt 1 0\nvt 0 1\nf 1/1 2/2 3/3\n".to_vec())
        .unwrap();
    let model = import_model(&raw, &defs, &b"scene.obj".to_vec()).unwrap();
    assert_eq!(model.materials.len(), 1);
    assert_eq!(model.materials[0].name, b"bare".to_vec());
    assert_eq!(model.materials[0].diffuse_texture, b"default_diffuse.qoi".to_vec());
    assert_eq!(model.materials[0].normal_texture, b"default_normal.qoi".to_vec());
}

#[test]
fn quad_import_shares_vertices_and_averages_tangents() {
    let raw = parse_obj(&quad_obj()).unwrap();
    let defs = parse_mtl(&scene_mtl()).unwrap();
    let model = import_model(&raw, &defs, &b"scene.obj".to_vec()).unwrap();

    assert_eq!(model.meshes.len(), 1);
    let mesh = &model.meshes[0];
    assert_eq!(mesh.name, b"scene.obj".to_vec());
    assert_eq!(mesh.material, 0);
    assert_eq!(mesh.num_elements, 6);
    // Two triangles sharing one edge: four unique vertices, six indices.
    assert_eq!(mesh.vertices.len(), 4);
    assert_eq!(mesh.indices, vec![0, 1, 2, 1, 3, 2]);

    // Texture V is flipped: raw vt 0 0 becomes (0, 1).
    assert_eq!(mesh.vertices[0].tex_coords, Fx2 { u: 0, v: SCALE });
    // No source normals: zero default.
    assert_eq!(mesh.vertices[0].normal, Fx3 { x: 0, y: 0, z: 0 });

    // Both triangles contribute tangent +x and bitangent +y; shared-edge
    // vertices average two equal contributions, so every vertex carries
    // exactly unit tangent and bitangent — and none is zero.
    for v in &mesh.vertices {
        assert_eq!((v.tangent.x, v.tangent.y, v.tangent.z), (SCALE as i128, 0, 0));
        assert_eq!((v.bitangent.x, v.bitangent.y, v.bitangent.z), (0, SCALE as i128, 0));
        assert_ne!((v.tangent.x, v.tangent.y, v.tangent.z), (0, 0, 0));
        assert_ne!((v.bitangent.x, v.bitangent.y, v.bitangent.z), (0, 0, 0));
    }
}

#[test]
fn contribution_counts_sum_to_three_per_triangle() {
    let raw = parse_obj(&quad_obj()).unwrap();
    let defs = parse_mtl(&scene_mtl()).unwrap();
    let model = import_model(&raw, &defs, &b"scene.obj".to_vec()).unwrap();
    let mesh = &model.meshes[0];

    // Rebuild the same base vertices and rerun the synthesis to observe
    // the contributing-triangle counters.
    let mut vertices: Vec<ModelVertex> = mesh
        .vertices
        .iter()
        .map(|v| ModelVertex::new(v.position, v.tex_coords, v.normal))
        .collect();
    let indices = mesh.indices.clone();
    let counts = compute_tangents(&mut vertices, &indices).unwrap();
    assert_eq!(counts, vec![1, 2, 2, 1]);
    let total: u64 = counts.iter().sum();
    assert_eq!(total, 3 * 2);
    // And the re-derived sums divided by the counts reproduce the stored
    // tangents exactly.
    for (a, b) in vertices.iter().zip(mesh.vertices.iter()) {
        assert_eq!(a.tangent, b.tangent);
        assert_eq!(a.bitangent, b.bitangent);
    }
}

#[test]
fn single_triangle_tangent_equals_its_contribution() {
    // One triangle: the average over one contribution is the contribution.
    let mut vertices = vec![
        ModelVertex::new(
            Fx3 { x: 0, y: 0, z: 0 },
            Fx2 { u: 0, v: SCALE },
            Fx3 { x: 0, y: 0, z: 0 },
        ),
        ModelVertex::new(
            Fx3 { x: SCALE, y: 0, z: 0 },
            Fx2 { u: SCALE, v: SCALE },
            Fx3 { x: 0, y: 0, z: 0 },
        ),
        ModelVertex::new(
            Fx3 { x: 0, y: SCALE, z: 0 },
            Fx2 { u: 0, v: 0 },
            Fx3 { x: 0, y: 0, z: 0 },
        ),
    ];
    let indices = vec![0u32, 1, 2];
    let counts = compute_tangents(&mut vertices, &indices).unwrap();
    assert_eq!(counts, vec![1, 1, 1]);
    for v in &vertices {
        assert_eq!((v.tangent.x, v.tangent.y, v.tangent.z), (SCALE as i128, 0, 0));
        assert_eq!((v.bitangent.x, v.bitangent.y, v.bitangent.z), (0, SCALE as i128, 0));
    }
}

#[test]
fn untouched_vertices_keep_zero_tangents() {
    let mut vertices = vec![
        ModelVertex::new(
            Fx3 { x: 0, y: 0, z: 0 },
            Fx2 { u: 0, v: 0 },
            Fx3 { x: 0, y: 0, z: 0 },
        ),
    ];
    let indices: Vec<u32> = vec![];
    let counts = compute_tangents(&mut vertices, &indices).unwrap();
    assert_eq!(counts, vec![0]);
    assert_eq!(vertices[0].tangent.x, 0);
    assert_eq!(vertices[0].bitangent.y, 0);
}

#[test]
fn degenerate_uv_triangle_is_reported() {
    let mut vertices = vec![
        ModelVertex::new(
            Fx3 { x: 0, y: 0, z: 0 },
            Fx2 { u: 0, v: 0 },
            Fx3 { x: 0, y: 0, z: 0 },
        ),
        ModelVertex::new(
            Fx3 { x: SCALE, y: 0, z: 0 },
            Fx2 { u: 0, v: 0 },
            Fx3 { x: 0, y: 0, z: 0 },
        ),
        ModelVertex::new(
            Fx3 { x: 0, y: SCALE, z: 0 },
            Fx2 { u: 0, v: 0 },
            Fx3 { x: 0, y: 0, z: 0 },
        ),
    ];
    let indices = vec![0u32, 1, 2];
    let before = vertices.clone();
    let r = compute_tangents(&mut vertices, &indices);
    assert_eq!(r, Err(GeometryError::DegenerateUv { triangle: 0 }));
    assert_eq!(vertices, before);
}

#[test]
fn degenerate_uv_fails_the_whole_import() {
    let text =
        b"v 0 0 0\nv 1 0 0\nv 0 1 0\nvt 0 0\nf 1/1 2/1 3/1\n".to_vec();
    let raw = parse_obj(&text).unwrap();
    let defs = parse_mtl(&b"newmtl m\n".to_vec()).unwrap();
    assert_eq!(
        import_model(&raw, &defs, &b"x.obj".to_vec()),
        Err(ImportError::DegenerateUv)
    );
}

#[test]
fn face_index_outside_tables_fails_the_import() {
    let text = b"v 0 0 0\nv 1 0 0\nvt 0 0\nf 1/1 2/1 5/1\n".to_vec();
    let raw = parse_obj(&text).unwrap();
    let defs = parse_mtl(&b"newmtl m\n".to_vec()).unwrap();
    assert_eq!(
        import_model(&raw, &defs, &b"x.obj".to_vec()),
        Err(ImportError::IndexOutOfRange)
    );
}

#[test]
fn mesh_without_materials_fails_the_import() {
    let text = b"v 0 0 0\nv 1 0 0\nv 0 1 0\nvt 0 0\nvt 1 0\nvt 0 1\nf 1/1 2/2 3/3\n".to_vec();
    let raw = parse_obj(&text).unwrap();
    let defs = parse_mtl(&b"".to_vec()).unwrap();
    assert_eq!(defs.len(), 0);
    assert_eq!(
        import_model(&raw, &defs, &b"x.obj".to_vec()),
        Err(ImportError::InvalidMaterialIndex)
    );
}

#[test]
fn unknown_material_name_fails_the_import() {
    let text = b"v 0 0 0\nv 1 0 0\nv 0 1 0\nvt 0 0\nvt 1 0\nvt 0 1\nusemtl missing\nf 1/1 2/2 3/3\n"
        .to_vec();
    let raw = parse_obj(&text).unwrap();
    let defs = parse_mtl(&b"newmtl other\n".to_vec()).unwrap();
    assert_eq!(
        import_model(&raw, &defs, &b"x.obj".to_vec()),
        Err(ImportError::InvalidMaterialIndex)
    );
}


#[test]
fn load_model_from_text_runs_the_whole_pipeline() {
    let model = load_model_from_text(&quad_obj(), &scene_mtl(), &b"scene.obj".to_vec()).unwrap();
    assert_eq!(model.meshes.len(), 1);
    assert_eq!(model.materials.len(), 1);
    assert_eq!(model.materials[0].diffuse_texture, b"stone_d.qoi".to_vec());
    assert_eq!(model.meshes[0].vertices.len(), 4);
}

#[test]
fn load_model_from_text_reports_malformed_text() {
    assert_eq!(
        load_model_from_text(&b"v 1
".to_vec(), &scene_mtl(), &b"x.obj".to_vec()),
        Err(LoadError::Parse)
    );
    assert_eq!(
        load_model_from_text(&quad_obj(), &b"map_Kd lost.qoi
".to_vec(), &b"x.obj".to_vec()),
        Err(LoadError::Parse)
    );
}
