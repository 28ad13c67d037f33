use amethyst_terrain::{
    AssetState, DrawState, DrawTerrainDesc, DrawTerrainTransparentDesc, EntityData, GroupRange,
    InstanceRecord, JointMatrix, MaterialId, MaterialInterner, PrepareResult, ResidentMesh, ShaderModule,
    TerrainFlatPassDef, TerrainMaterial, TerrainShadedPassDef, TextureSlot, VertexAttribute,
};
use amethyst_terrain::pass::{missing_attributes, pipeline_settings};

fn rec(tag: u32) -> InstanceRecord {
    let mut model = [0u32; 16];
    model[0] = tag;
    InstanceRecord::new(model, [1, 1, 1, 1])
}

fn entity(material: u32, mesh: u32, tag: u32) -> EntityData {
    EntityData { material, mesh, record: rec(tag), joints: None }
}

fn skinned(material: u32, mesh: u32, tag: u32, joints: usize) -> EntityData {
    EntityData {
        material,
        mesh,
        record: rec(tag),
        joints: Some(vec![JointMatrix { words: [tag; 16] }; joints]),
    }
}

fn resident(ids: &[u32], format: Vec<VertexAttribute>) -> Vec<ResidentMesh> {
    ids.iter().map(|&id| ResidentMesh { id, attributes: format.clone() }).collect()
}

fn full() -> Vec<VertexAttribute> {
    vec![
        VertexAttribute::Position,
        VertexAttribute::Normal,
        VertexAttribute::TexCoord,
        VertexAttribute::JointCombined,
    ]
}

fn range(material: u32, mesh: u32, start: u32, end: u32) -> GroupRange {
    GroupRange { material: MaterialId(material), mesh, start, end }
}

#[test]
fn three_entities_one_absent_mesh_one_draw_call() {
    // material A = handle 1, mesh X = 10; material B = handle 2, mesh Y = 20 is absent
    let assets = AssetState { meshes: vec![10], ready_materials: vec![1, 2] };
    let visible = vec![entity(1, 10, 1), entity(1, 10, 2), entity(2, 20, 3)];
    let mut materials = MaterialInterner::new();
    let mut pass = DrawTerrainDesc::new().build(TerrainShadedPassDef::base_format());
    materials.maintain(&vec![]);
    assert_eq!(pass.prepare(0, &visible, &assets, &mut materials), PrepareResult::DrawRecord);
    assert_eq!(pass.group_ranges(), vec![range(0, 10, 0, 2)]);
    assert_eq!(pass.instance_count(), 2);
    let calls = pass.draw(0, &resident(&assets.meshes, full()), &materials);
    assert_eq!(calls, vec![range(0, 10, 0, 2)]);
    assert_eq!(pass.current_state(), DrawState::Drawn);
}

#[test]
fn material_not_ready_is_left_out_until_loaded() {
    let mut assets = AssetState { meshes: vec![10, 11], ready_materials: vec![1] };
    let visible = vec![entity(1, 10, 1), entity(2, 11, 2)];
    let mut materials = MaterialInterner::new();
    let mut pass = DrawTerrainDesc::new().build(TerrainFlatPassDef::base_format());
    materials.maintain(&vec![]);
    pass.prepare(0, &visible, &assets, &mut materials);
    assert!(!materials.loaded(MaterialId(1)));
    assert_eq!(pass.group_ranges(), vec![range(0, 10, 0, 1), range(1, 11, 1, 2)]);
    assert_eq!(pass.draw(0, &resident(&assets.meshes, full()), &materials), vec![range(0, 10, 0, 1)]);
    // a later frame: the textures of handle 2 became resident
    assets.ready_materials.push(2);
    materials.maintain(&vec![]);
    assert_eq!(materials.intern(2, true), (MaterialId(1), true));
    assert!(materials.loaded(MaterialId(1)));
    assert_eq!(
        pass.draw(0, &resident(&assets.meshes, full()), &materials),
        vec![range(0, 10, 0, 1), range(1, 11, 1, 2)]
    );
}

#[test]
fn mesh_removed_before_draw_is_skipped() {
    let assets = AssetState { meshes: vec![10, 11], ready_materials: vec![1] };
    let visible = vec![entity(1, 10, 1), entity(1, 11, 2)];
    let mut materials = MaterialInterner::new();
    let mut pass = DrawTerrainDesc::new().build(TerrainFlatPassDef::base_format());
    pass.prepare(1, &visible, &assets, &mut materials);
    assert_eq!(pass.draw(1, &resident(&[11], full()), &materials), vec![range(0, 11, 1, 2)]);
    assert!(pass.draw(0, &resident(&[10, 11], full()), &materials).is_empty());
}

#[test]
fn nothing_visible_draws_nothing() {
    let assets = AssetState { meshes: vec![10], ready_materials: vec![1] };
    let mut materials = MaterialInterner::new();
    let mut pass = DrawTerrainDesc::new().build(TerrainFlatPassDef::base_format());
    assert_eq!(pass.prepare(0, &vec![], &assets, &mut materials), PrepareResult::Skip);
    assert_eq!(pass.instance_count(), 0);
    assert!(pass.draw(0, &resident(&assets.meshes, full()), &materials).is_empty());
    pass.dispose();
    assert_eq!(pass.current_state(), DrawState::Disposed);
}

#[test]
fn interner_dedups_and_retries_after_maintain() {
    let mut m = MaterialInterner::new();
    assert_eq!(m.intern(7, false), (MaterialId(0), false));
    assert_eq!(m.intern(7, true), (MaterialId(0), false));
    assert!(!m.loaded(MaterialId(0)));
    assert_eq!(m.intern(9, true), (MaterialId(1), true));
    m.maintain(&vec![]);
    assert_eq!(m.intern(7, true), (MaterialId(0), true));
    assert_eq!(m.intern(7, true), (MaterialId(0), false));
    m.maintain(&vec![9]);
    assert!(!m.loaded(MaterialId(1)));
    assert!(m.loaded(MaterialId(0)));
    assert_eq!(m.intern(9, true), (MaterialId(1), true));
    assert!(!m.loaded(MaterialId(5)));
}

#[test]
fn transparent_pass_keeps_order_and_reuses_unchanged_frames() {
    let assets = AssetState { meshes: vec![10, 11], ready_materials: vec![1, 2] };
    let visible = vec![entity(1, 10, 1), entity(2, 11, 2), entity(1, 10, 3)];
    let mut materials = MaterialInterner::new();
    let mut pass = DrawTerrainTransparentDesc::new().build(
        TerrainFlatPassDef::base_format(),
        TerrainFlatPassDef::skinned_format(),
    );
    materials.maintain(&vec![]);
    assert_eq!(pass.prepare(0, &visible, &assets, &mut materials), PrepareResult::DrawRecord);
    assert_eq!(
        pass.static_group_ranges(),
        &vec![range(0, 10, 0, 1), range(1, 11, 1, 2), range(0, 10, 2, 3)]
    );
    let tags: Vec<u32> = pass.static_instances().iter().map(|r| r.model[0]).collect();
    assert_eq!(tags, vec![1, 2, 3]);
    let (calls, skinned_calls) = pass.draw(0, &resident(&assets.meshes, full()), &materials);
    assert_eq!(calls.len(), 3);
    assert!(skinned_calls.is_empty());
    materials.maintain(&vec![]);
    // slot 1 was never recorded
    assert_eq!(pass.prepare(1, &visible, &assets, &mut materials), PrepareResult::DrawRecord);
    materials.maintain(&vec![]);
    assert_eq!(pass.prepare(0, &visible, &assets, &mut materials), PrepareResult::DrawReuse);
    materials.maintain(&vec![]);
    let fewer = vec![entity(1, 10, 1)];
    assert_eq!(pass.prepare(1, &fewer, &assets, &mut materials), PrepareResult::DrawRecord);
}

#[test]
fn transparent_pass_packs_skinned_joints() {
    let assets = AssetState { meshes: vec![10], ready_materials: vec![1] };
    let visible = vec![skinned(1, 10, 4, 2), entity(1, 10, 5), skinned(1, 10, 6, 3)];
    let mut materials = MaterialInterner::new();
    let mut pass = DrawTerrainTransparentDesc::new().with_skinning().build(
        TerrainFlatPassDef::base_format(),
        TerrainFlatPassDef::skinned_format(),
    );
    pass.prepare(0, &visible, &assets, &mut materials);
    assert_eq!(pass.static_group_ranges(), &vec![range(0, 10, 0, 1)]);
    assert_eq!(pass.skinned_group_ranges(), &vec![range(0, 10, 0, 2)]);
    let offsets: Vec<u32> = pass.skinned_instances().iter().map(|r| r.joints_offset).collect();
    assert_eq!(offsets, vec![0, 2]);
    let (calls, skinned_calls) = pass.draw(0, &resident(&assets.meshes, full()), &materials);
    assert_eq!(calls, vec![range(0, 10, 0, 1)]);
    assert_eq!(skinned_calls, vec![range(0, 10, 0, 2)]);
    assert_eq!(pass.skinned_models_location(), 3);
    assert_eq!(pass.models_location(), 2);
}

#[test]
fn pass_definitions_name_their_formats() {
    assert_eq!(
        TerrainFlatPassDef::base_format(),
        vec![VertexAttribute::Position, VertexAttribute::TexCoord]
    );
    assert_eq!(
        TerrainShadedPassDef::base_format(),
        vec![VertexAttribute::Position, VertexAttribute::Normal, VertexAttribute::TexCoord]
    );
    assert_eq!(
        TerrainShadedPassDef::skinned_format(),
        vec![VertexAttribute::Position, VertexAttribute::TexCoord, VertexAttribute::JointCombined]
    );
    assert_eq!(TerrainFlatPassDef::texture_set(), vec![TextureSlot::Albedo, TextureSlot::Splat]);
    assert_eq!(
        TerrainShadedPassDef::texture_set(),
        vec![TextureSlot::Albedo, TextureSlot::Emission, TextureSlot::Splat]
    );
    assert_eq!(TerrainFlatPassDef::fragment_shader(), ShaderModule::TerrainFlatFragment);
    assert_eq!(TerrainShadedPassDef::vertex_shader(), ShaderModule::TerrainPosNormTexVertex);
    assert_eq!(TerrainFlatPassDef::vertex_skinned_shader(), ShaderModule::PosTexSkinVertex);
}

#[test]
fn transparent_pipelines_blend_without_depth_writes() {
    let t = pipeline_settings(true);
    assert!(!t.depth_write && t.premultiplied_blend && t.cull_back_faces);
    let o = DrawTerrainDesc::new().settings();
    assert!(o.depth_write && !o.premultiplied_blend);
    assert_eq!(DrawTerrainTransparentDesc::new().settings(), t);
    assert!(!DrawTerrainTransparentDesc::new().skinning);
    assert!(DrawTerrainDesc::new().with_skinning().skinning);
}

#[test]
fn terrain_material_needs_both_textures() {
    let m = TerrainMaterial::new(3, 4);
    assert!(m.ready(&vec![4, 3]));
    assert!(!m.ready(&vec![3]));
    assert!(!m.ready(&vec![]));
}

#[test]
fn mesh_lacking_attributes_is_reported() {
    let required = TerrainShadedPassDef::base_format();
    let mesh = vec![VertexAttribute::TexCoord, VertexAttribute::Position];
    assert_eq!(missing_attributes(&required, &mesh), vec![VertexAttribute::Normal]);
    assert!(missing_attributes(&TerrainFlatPassDef::base_format(), &mesh).is_empty());
}

#[test]
fn opaque_pass_skips_when_every_mesh_is_absent() {
    let assets = AssetState { meshes: vec![], ready_materials: vec![1] };
    let mut materials = MaterialInterner::new();
    let mut pass = DrawTerrainDesc::new().build(TerrainFlatPassDef::base_format());
    let visible = vec![entity(1, 10, 1)];
    assert_eq!(pass.prepare(0, &visible, &assets, &mut materials), PrepareResult::Skip);
    let assets = AssetState { meshes: vec![10], ready_materials: vec![1] };
    assert_eq!(pass.prepare(0, &visible, &assets, &mut materials), PrepareResult::DrawRecord);
}

#[test]
fn mesh_lacking_an_attribute_is_not_drawn() {
    let assets = AssetState { meshes: vec![10, 11], ready_materials: vec![1] };
    let visible = vec![entity(1, 10, 1), entity(1, 11, 2)];
    let mut materials = MaterialInterner::new();
    let mut pass = DrawTerrainDesc::new().build(TerrainShadedPassDef::base_format());
    pass.prepare(0, &visible, &assets, &mut materials);
    let meshes = vec![
        ResidentMesh { id: 10, attributes: vec![VertexAttribute::Position, VertexAttribute::TexCoord] },
        ResidentMesh { id: 11, attributes: full() },
    ];
    assert_eq!(pass.draw(0, &meshes, &materials), vec![range(0, 11, 1, 2)]);
}

#[test]
fn transparent_pass_records_when_one_transform_changes() {
    let assets = AssetState { meshes: vec![10], ready_materials: vec![1] };
    let mut materials = MaterialInterner::new();
    let mut pass = DrawTerrainTransparentDesc::new().build(
        TerrainFlatPassDef::base_format(),
        TerrainFlatPassDef::skinned_format(),
    );
    let visible = vec![entity(1, 10, 1), entity(1, 10, 2)];
    assert_eq!(pass.prepare(0, &visible, &assets, &mut materials), PrepareResult::DrawRecord);
    assert_eq!(pass.prepare(0, &visible, &assets, &mut materials), PrepareResult::DrawReuse);
    let moved = vec![entity(1, 10, 1), entity(1, 10, 3)];
    assert_eq!(pass.prepare(0, &moved, &assets, &mut materials), PrepareResult::DrawRecord);
    assert_eq!(pass.prepare(0, &moved, &assets, &mut materials), PrepareResult::DrawReuse);
}

#[test]
fn transparent_pass_skips_with_nothing_visible() {
    let assets = AssetState { meshes: vec![10], ready_materials: vec![1] };
    let mut materials = MaterialInterner::new();
    let mut pass = DrawTerrainTransparentDesc::new().with_skinning().build(
        TerrainFlatPassDef::base_format(),
        TerrainFlatPassDef::skinned_format(),
    );
    assert_eq!(pass.prepare(0, &vec![], &assets, &mut materials), PrepareResult::Skip);
    let gone = vec![skinned(1, 20, 1, 2)];
    assert_eq!(pass.prepare(1, &gone, &assets, &mut materials), PrepareResult::Skip);
}

#[test]
fn transparent_pass_keeps_three_sorted_entities_in_one_group() {
    let assets = AssetState { meshes: vec![10], ready_materials: vec![1] };
    let mut materials = MaterialInterner::new();
    let mut pass = DrawTerrainTransparentDesc::new().build(
        TerrainFlatPassDef::base_format(),
        TerrainFlatPassDef::skinned_format(),
    );
    let visible = vec![entity(1, 10, 1), entity(1, 10, 2), entity(1, 10, 3)];
    pass.prepare(0, &visible, &assets, &mut materials);
    assert_eq!(pass.static_instances(), &vec![rec(1), rec(2), rec(3)]);
    assert_eq!(pass.static_group_ranges(), &vec![range(0, 10, 0, 3)]);
}
