use amethyst_rendy::buffer::{align_size, buffer_growth, next_power_of_two, InstanceBuffer};
use amethyst_rendy::change::{ChangeDetection, PrepareResult};
use amethyst_rendy::draw::{DrawCommand, PipelineKind};
use amethyst_rendy::frame::{IdSet, JointRef, RenderEntity};
use amethyst_rendy::pass::VertexLayout;
use amethyst_rendy::pbm::{
    choose_camera, texture_source, CameraChoice, DescriptorType, DrawPbmDesc, LightCounts, ShaderStages,
    UniformSizes, VertexInput,
};
use amethyst_rendy::pipeline::{
    pipeline_descs, steps_after_build, steps_after_shader_failure, steps_before_build, BuildStep, ShaderStage,
};
use amethyst_rendy::submodules::{MaterialSub, SkinningSub};

#[test]
fn align_size_rounds_up_to_alignment() {
    assert_eq!(align_size(12, 16, 1), 16);
    assert_eq!(align_size(16, 16, 1), 16);
    assert_eq!(align_size(48, 256, 128), 6144);
    assert_eq!(align_size(0, 64, 10), 0);
    assert_eq!(align_size(3, 1, 5), 15);
}

#[test]
fn next_power_of_two_values() {
    assert_eq!(next_power_of_two(0), 1);
    assert_eq!(next_power_of_two(1), 1);
    assert_eq!(next_power_of_two(3), 4);
    assert_eq!(next_power_of_two(1024), 1024);
    assert_eq!(next_power_of_two(1025), 2048);
    assert_eq!(next_power_of_two(1 << 63), 1 << 63);
}

#[test]
fn buffer_growth_only_when_too_small() {
    assert_eq!(buffer_growth(None, 0), None);
    assert_eq!(buffer_growth(None, 100), Some(128));
    assert_eq!(buffer_growth(Some(128), 100), None);
    assert_eq!(buffer_growth(Some(64), 100), Some(128));
}

#[test]
fn instance_buffer_tracks_each_slot() {
    let mut b = InstanceBuffer::new();
    assert!(!b.bindable(0));
    assert_eq!(b.write(1, 0), None);
    assert!(!b.bindable(1));
    assert_eq!(b.write(1, 300), Some(512));
    assert!(b.bindable(1));
    assert!(!b.bindable(0));
    assert_eq!(b.write(1, 500), None);
    assert_eq!(b.write(1, 600), Some(1024));
}

#[test]
fn change_detection_records_each_slot_after_a_change() {
    let mut c = ChangeDetection::new();
    assert_eq!(c.prepare_result(0, false), PrepareResult::DrawRecord);
    assert_eq!(c.prepare_result(1, false), PrepareResult::DrawRecord);
    assert_eq!(c.prepare_result(0, false), PrepareResult::DrawReuse);
    assert_eq!(c.prepare_result(1, true), PrepareResult::DrawRecord);
    assert_eq!(c.prepare_result(0, false), PrepareResult::DrawRecord);
    assert_eq!(c.prepare_result(1, false), PrepareResult::DrawReuse);
    assert!(!c.can_reuse(3, false));
    assert!(c.can_reuse(3, false));
}

#[test]
fn id_set_insert_and_remove() {
    let mut s = IdSet::new();
    assert!(!s.contains(5));
    s.insert(5);
    s.insert(2);
    assert!(s.contains(5) && s.contains(2) && !s.contains(3));
    s.remove(5);
    assert!(!s.contains(5));
    s.remove(100);
    assert!(s.contains(2));
}

#[test]
fn material_sub_registers_once() {
    let mut m = MaterialSub::new();
    assert_eq!(m.insert(3, false), None);
    assert!(!m.loaded(3));
    assert_eq!(m.insert(3, true), Some((3, true)));
    assert_eq!(m.insert(3, true), Some((3, false)));
    assert_eq!(m.insert(3, false), Some((3, false)));
    m.maintain(&vec![3, 4]);
    assert!(!m.loaded(3));
    assert_eq!(m.insert(3, true), Some((3, true)));
}

#[test]
fn skinning_sub_places_joints_in_turn() {
    let mut s = SkinningSub::new();
    assert_eq!(s.insert(JointRef { skin: 1, joint_count: 4 }), 0);
    assert_eq!(s.insert(JointRef { skin: 2, joint_count: 2 }), 4);
    assert_eq!(s.commit(), vec![(1, 0), (2, 4)]);
    assert_eq!(s.insert(JointRef { skin: 3, joint_count: 1 }), 0);
}

fn vlayout() -> VertexLayout {
    VertexLayout { base_formats: 2, skinned_formats: 3, instance_size: 64, skinned_instance_size: 80 }
}

#[test]
fn opaque_and_transparent_pipeline_state() {
    let opaque = pipeline_descs(vlayout(), false, false);
    assert_eq!(opaque.len(), 1);
    assert_eq!(opaque[0].kind, PipelineKind::Basic);
    assert!(opaque[0].cull_back_faces && opaque[0].depth_test && opaque[0].depth_write && !opaque[0].alpha_blend);
    assert_eq!(opaque[0].vertex_bindings, 2);
    let transparent = pipeline_descs(vlayout(), true, true);
    assert_eq!(transparent.len(), 2);
    assert!(!transparent[1].depth_write && transparent[1].alpha_blend);
    assert_eq!(transparent[1].parent, Some(0));
    assert_eq!(transparent[1].vertex_shader, ShaderStage::SkinnedVertex);
    assert_eq!(transparent[1].vertex_bindings, 3);
}

#[test]
fn failed_build_destroys_layout_and_shaders() {
    let mut steps = steps_before_build(true);
    steps.extend(steps_after_build(true, false));
    assert_eq!(
        steps,
        vec![
            BuildStep::CreateShader(ShaderStage::Vertex),
            BuildStep::CreateShader(ShaderStage::Fragment),
            BuildStep::CreateShader(ShaderStage::SkinnedVertex),
            BuildStep::BuildPipelines,
            BuildStep::DestroyShader(ShaderStage::SkinnedVertex),
            BuildStep::DestroyShader(ShaderStage::Vertex),
            BuildStep::DestroyShader(ShaderStage::Fragment),
            BuildStep::DestroyPipelineLayout,
        ]
    );
    let ok = steps_after_build(false, true);
    assert_eq!(ok, vec![BuildStep::DestroyShader(ShaderStage::Vertex), BuildStep::DestroyShader(ShaderStage::Fragment)]);
}

fn sizes() -> UniformSizes {
    UniformSizes {
        environment: 48,
        point_light: 32,
        directional_light: 32,
        spot_light: 64,
        projview: 128,
        material: 120,
        transform: 64,
    }
}

fn pbm_entity(material: u32, mesh: u32, rec: u32) -> RenderEntity<u32> {
    RenderEntity {
        mesh: Some(mesh),
        material: Some(material),
        instance: Some(rec),
        joints: None,
        hidden: false,
        hidden_propagate: false,
        transparent: false,
    }
}

#[test]
fn pbm_desc_builders_and_layout() {
    let d: DrawPbmDesc<u8, u8> = DrawPbmDesc::new();
    assert_eq!(d.colors(7), vec![7]);
    assert_eq!(d.layout().len(), 3);
    let d = d.with_vertex_skinning().with_transparency(3, Some(4));
    assert_eq!(d.colors(7), vec![3]);
    let sets = d.layout();
    assert_eq!(sets.len(), 4);
    assert_eq!(sets[1].len(), 8);
    assert_eq!(sets[1][0].ty, DescriptorType::UniformBuffer);
    assert_eq!(sets[1][7].binding, 7);
    assert_eq!(sets[1][7].ty, DescriptorType::CombinedImageSampler);
    assert_eq!(sets[2].len(), 4);
    assert_eq!(sets[0][0].stages, ShaderStages::Graphics);
    assert_eq!(d.shader_set(), (ShaderStage::SkinnedVertex, ShaderStage::Fragment));
    assert_eq!(
        d.vertices(),
        vec![VertexInput { binding: 0, per_instance: false }, VertexInput { binding: 1, per_instance: true }]
    );
}

#[test]
fn pbm_environment_layout_and_lights() {
    let d: DrawPbmDesc<u8, u8> = DrawPbmDesc::new();
    let mut pass = d.build::<u32>(256, sizes());
    let up = pass.prepare(&vec![], &IdSet::new(), LightCounts { point: 200, directional: 3, spot: 0 }, 0);
    assert_eq!(up.layout.environment.end, 256);
    assert_eq!(up.layout.point_lights.end, 256 + 4096);
    assert_eq!(up.layout.directional_lights.end, 4352 + 512);
    assert_eq!(up.layout.spot_lights.end, 4864 + 8192);
    assert_eq!(up.layout.projview.end, 13056 + 256);
    assert_eq!(up.environment_growth, Some(16384));
    assert_eq!((up.point_lights, up.directional_lights, up.spot_lights), (128, 3, 0));
    assert_eq!(up.result, PrepareResult::DrawRecord);
    assert_eq!(up.material_growth, None);
    assert_eq!(up.material_step, 256);
    let up = pass.prepare(&vec![], &IdSet::new(), LightCounts { point: 0, directional: 0, spot: 0 }, 0);
    assert_eq!(up.environment_growth, None);
}

#[test]
fn pbm_groups_neighbours_and_bounds_the_scan() {
    let d: DrawPbmDesc<u8, u8> = DrawPbmDesc::new();
    let mut pass = d.build::<u32>(256, sizes());
    let mut meshes = IdSet::new();
    let mut es = Vec::new();
    for mesh in 0..9u32 {
        meshes.insert(mesh);
        es.push(pbm_entity(1, mesh, mesh));
    }
    es.push(pbm_entity(1, 8, 100));
    es.push(pbm_entity(1, 0, 101));
    let mut hidden = pbm_entity(1, 0, 102);
    hidden.hidden = true;
    es.push(hidden);
    es.push(pbm_entity(1, 42, 103));
    let up = pass.prepare(&es, &meshes, LightCounts { point: 0, directional: 0, spot: 0 }, 0);
    assert_eq!(up.models, vec![0, 101, 1, 2, 3, 4, 5, 6, 7, 8, 100]);
    assert_eq!(up.materials, vec![1]);
    assert_eq!(up.models_growth, Some(1024));
    assert_eq!(pass.draw(1), vec![]);
    let cmds = pass.draw(0);
    assert_eq!(cmds[0], DrawCommand::BindEnvironment);
    assert_eq!(cmds[1], DrawCommand::BindObjects);
    assert_eq!(cmds[2], DrawCommand::BindMaterial(1));
    assert_eq!(cmds[3], DrawCommand::Draw { mesh: 0, start: 0, end: 2 });
    assert_eq!(cmds.len(), 3 + 9);
}

#[test]
fn pbm_scan_limit_opens_a_second_run() {
    let d: DrawPbmDesc<u8, u8> = DrawPbmDesc::new();
    let mut pass = d.build::<u32>(256, sizes());
    let mut meshes = IdSet::new();
    let mut es = Vec::new();
    for mesh in 0..9u32 {
        meshes.insert(mesh);
        es.push(pbm_entity(1, mesh, mesh));
    }
    es.push(pbm_entity(1, 7, 50));
    es.push(pbm_entity(1, 8, 51));
    let up = pass.prepare(&es, &meshes, LightCounts { point: 0, directional: 0, spot: 0 }, 0);
    assert_eq!(up.models, vec![0, 1, 2, 3, 4, 5, 6, 7, 50, 8, 51]);
    let cmds = pass.draw(0);
    let runs = cmds.iter().filter(|c| matches!(c, DrawCommand::Draw { .. })).count();
    assert_eq!(runs, 10);
}

#[test]
fn texture_falls_back_to_default() {
    let mut loaded = IdSet::new();
    loaded.insert(2);
    assert_eq!(texture_source(1, 2, &loaded), Some(2));
    loaded.insert(1);
    assert_eq!(texture_source(1, 2, &loaded), Some(1));
    assert_eq!(texture_source(5, 6, &loaded), None);
}

#[test]
fn camera_choice_prefers_active_then_first_then_standard() {
    let mut cameras = IdSet::new();
    let mut transforms = IdSet::new();
    assert_eq!(choose_camera(None, &cameras, &transforms, 10), CameraChoice::Standard);
    cameras.insert(4);
    cameras.insert(7);
    transforms.insert(7);
    assert_eq!(choose_camera(Some(4), &cameras, &transforms, 10), CameraChoice::Entity { id: 4, transformed: false });
    assert_eq!(choose_camera(None, &cameras, &transforms, 10), CameraChoice::Entity { id: 7, transformed: true });
    assert_eq!(choose_camera(Some(3), &cameras, &transforms, 10), CameraChoice::Entity { id: 7, transformed: true });
    assert_eq!(choose_camera(None, &cameras, &transforms, 7), CameraChoice::Standard);
}

#[test]
fn failed_shader_creation_destroys_what_was_made() {
    assert_eq!(steps_after_shader_failure(false, ShaderStage::Vertex), vec![BuildStep::DestroyPipelineLayout]);
    assert_eq!(
        steps_after_shader_failure(false, ShaderStage::Fragment),
        vec![BuildStep::DestroyShader(ShaderStage::Vertex), BuildStep::DestroyPipelineLayout]
    );
    assert_eq!(
        steps_after_shader_failure(true, ShaderStage::SkinnedVertex),
        vec![
            BuildStep::DestroyShader(ShaderStage::Vertex),
            BuildStep::DestroyShader(ShaderStage::Fragment),
            BuildStep::DestroyPipelineLayout,
        ]
    );
}
