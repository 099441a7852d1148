use amethyst_rendy::change::PrepareResult;
use amethyst_rendy::draw::{DrawCommand, PipelineKind};
use amethyst_rendy::frame::{Frame, IdSet, JointRef, RenderEntity, Visibility};
use amethyst_rendy::pass::{
    DisposeAction, DrawBase3DDesc, DrawBase3DTransparentDesc, PrepareError, VertexLayout,
};

fn entity(material: u32, mesh: u32, rec: u32) -> RenderEntity<u32> {
    RenderEntity {
        mesh: Some(mesh),
        material: Some(material),
        instance: Some(rec),
        joints: None,
        hidden: false,
        hidden_propagate: false,
        transparent: false,
    }
}

fn ids(v: &[u32]) -> IdSet {
    let mut s = IdSet::new();
    for &i in v {
        s.insert(i);
    }
    s
}

fn frame(entities: Vec<RenderEntity<u32>>, visibility: Option<Visibility>, meshes: &[u32], materials: &[u32]) -> Frame<u32> {
    Frame { entities, visibility, meshes_loaded: ids(meshes), materials_ready: ids(materials) }
}

fn layout() -> VertexLayout {
    VertexLayout { base_formats: 1, skinned_formats: 2, instance_size: 64, skinned_instance_size: 80 }
}

fn draws(cmds: &[DrawCommand]) -> Vec<(u32, usize, usize)> {
    cmds.iter()
        .filter_map(|c| match *c {
            DrawCommand::Draw { mesh, start, end } => Some((mesh, start, end)),
            _ => None,
        })
        .collect()
}

fn pipeline_binds(cmds: &[DrawCommand]) -> usize {
    cmds.iter().filter(|c| matches!(c, DrawCommand::BindPipeline(_))).count()
}

#[test]
fn hidden_entities_are_not_drawn_without_visibility() {
    let mut pass = DrawBase3DDesc::new().build::<u32>(layout());
    let mut hidden = entity(1, 10, 2);
    hidden.hidden = true;
    let mut propagated = entity(1, 10, 3);
    propagated.hidden_propagate = true;
    let mut transparent = entity(1, 10, 4);
    transparent.transparent = true;
    let f = frame(vec![entity(1, 10, 1), hidden, propagated, transparent], None, &[10], &[1]);
    let up = pass.prepare(&f, 0, &vec![]);
    assert_eq!(up.instances, vec![1]);
    assert_eq!(up.result, PrepareResult::DrawRecord);
}

#[test]
fn unloaded_meshes_are_not_drawn() {
    let mut pass = DrawBase3DDesc::new().build::<u32>(layout());
    let f = frame(vec![entity(1, 10, 1), entity(1, 11, 2), entity(2, 10, 3)], None, &[10], &[1, 2]);
    let up = pass.prepare(&f, 0, &vec![]);
    assert_eq!(up.instances, vec![1, 3]);
}

#[test]
fn materials_not_ready_are_skipped_until_ready() {
    let mut pass = DrawBase3DDesc::new().build::<u32>(layout());
    let f = frame(vec![entity(1, 10, 1), entity(2, 10, 2)], None, &[10], &[1]);
    assert_eq!(pass.prepare(&f, 0, &vec![]).instances, vec![1]);
    let f = frame(vec![entity(1, 10, 1), entity(2, 10, 2)], None, &[10], &[1, 2]);
    assert_eq!(pass.prepare(&f, 1, &vec![]).instances, vec![1, 2]);
}

#[test]
fn visibility_set_filters_the_opaque_pass() {
    let mut pass = DrawBase3DDesc::new().build::<u32>(layout());
    let mut hidden = entity(1, 10, 2);
    hidden.hidden = true;
    let vis = Visibility { visible_unordered: ids(&[1, 2]), visible_ordered: vec![] };
    let f = frame(vec![entity(1, 10, 1), hidden, entity(1, 10, 3)], Some(vis), &[10], &[1]);
    let up = pass.prepare(&f, 0, &vec![]);
    assert_eq!(up.instances, vec![2, 3]);
}

#[test]
fn skinned_entities_go_to_the_skinned_pipeline() {
    let mut pass = DrawBase3DDesc::skinned().build::<u32>(layout());
    let mut a = entity(1, 10, 7);
    a.joints = Some(JointRef { skin: 5, joint_count: 3 });
    let mut b = entity(1, 10, 8);
    b.joints = Some(JointRef { skin: 6, joint_count: 2 });
    let f = frame(vec![entity(1, 10, 1), a, b], None, &[10], &[1]);
    let up = pass.prepare(&f, 0, &vec![]);
    assert_eq!(up.instances, vec![1]);
    let skinned: Vec<(u32, u64)> = up.skinned_instances.iter().map(|s| (s.base, s.joint_offset)).collect();
    assert_eq!(skinned, vec![(7, 0), (8, 3)]);
    assert_eq!(up.joints, vec![(5, 0), (6, 3)]);
}

#[test]
fn unskinned_pass_ignores_jointed_entities() {
    let mut pass = DrawBase3DDesc::new().build::<u32>(layout());
    let mut a = entity(1, 10, 7);
    a.joints = Some(JointRef { skin: 5, joint_count: 3 });
    let f = frame(vec![a], None, &[10], &[1]);
    let up = pass.prepare(&f, 0, &vec![]);
    assert!(up.instances.is_empty());
    assert!(up.skinned_instances.is_empty());
    assert!(up.joints.is_empty());
}

#[test]
fn instance_buffer_grows_to_a_power_of_two() {
    let mut pass = DrawBase3DDesc::new().build::<u32>(layout());
    let f = frame(vec![entity(1, 10, 1), entity(1, 10, 2), entity(1, 10, 3)], None, &[10], &[1]);
    let up = pass.prepare(&f, 0, &vec![]);
    assert_eq!(up.instance_growth, Some(256));
    assert_eq!(up.skinned_growth, None);
    let up = pass.prepare(&f, 0, &vec![]);
    assert_eq!(up.instance_growth, None);
}

#[test]
fn draw_covers_every_instance_with_one_pipeline_bind() {
    let mut pass = DrawBase3DDesc::new().build::<u32>(layout());
    let mut es = Vec::new();
    for (m, mesh, n) in [(1u32, 10u32, 3u32), (1, 11, 5), (2, 10, 2), (2, 12, 7)] {
        for k in 0..n {
            es.push(entity(m, mesh, k));
        }
    }
    let f = frame(es, None, &[10, 11, 12], &[1, 2]);
    pass.prepare(&f, 0, &vec![]);
    let cmds = pass.draw_inline(0);
    let d = draws(&cmds);
    assert_eq!(d, vec![(10, 0, 3), (11, 3, 8), (10, 8, 10), (12, 10, 17)]);
    let total: usize = d.iter().map(|&(_, s, e)| e - s).sum();
    assert_eq!(total, 17);
    assert_eq!(pipeline_binds(&cmds), 1);
    assert_eq!(cmds[0], DrawCommand::BindPipeline(PipelineKind::Basic));
    assert_eq!(cmds[1], DrawCommand::BindEnvironment);
    assert_eq!(cmds[2], DrawCommand::BindInstances(1));
    assert_eq!(cmds[3], DrawCommand::BindMaterial(1));
}

#[test]
fn draw_without_instance_buffer_skips_the_loop() {
    let pass = DrawBase3DDesc::skinned().build::<u32>(layout());
    let cmds = pass.draw_inline(0);
    assert_eq!(
        cmds,
        vec![
            DrawCommand::BindPipeline(PipelineKind::Basic),
            DrawCommand::BindEnvironment,
            DrawCommand::BindPipeline(PipelineKind::Skinned),
        ]
    );
}

#[test]
fn modified_materials_are_rebuilt() {
    let mut pass = DrawBase3DTransparentDesc::new().build::<u32>(layout());
    let vis = || Some(Visibility { visible_unordered: IdSet::new(), visible_ordered: vec![0] });
    let f = frame(vec![entity(1, 10, 1)], vis(), &[10], &[1]);
    assert_eq!(pass.prepare(&f, 0, &vec![]).unwrap().result, PrepareResult::DrawRecord);
    assert_eq!(pass.prepare(&f, 0, &vec![]).unwrap().result, PrepareResult::DrawReuse);
    assert_eq!(pass.prepare(&f, 0, &vec![1]).unwrap().result, PrepareResult::DrawRecord);
}

#[test]
fn transparent_pass_needs_visibility() {
    let mut pass = DrawBase3DTransparentDesc::new().build::<u32>(layout());
    let f = frame(vec![entity(1, 10, 1)], None, &[10], &[1]);
    assert_eq!(pass.prepare(&f, 0, &vec![]).err(), Some(PrepareError::MissingVisibility));
}

#[test]
fn transparent_pass_keeps_visibility_order() {
    let mut pass = DrawBase3DTransparentDesc::new().build::<u32>(layout());
    let es = vec![entity(1, 10, 100), entity(2, 20, 101), entity(1, 10, 102)];
    let vis = Visibility { visible_unordered: IdSet::new(), visible_ordered: vec![2, 0, 1] };
    let f = frame(es, Some(vis), &[10, 20], &[1, 2]);
    let up = pass.prepare(&f, 0, &vec![]).unwrap();
    assert_eq!(up.instances, vec![102, 100, 101]);
    let d = draws(&pass.draw_inline(0));
    assert_eq!(d, vec![(10, 0, 2), (20, 2, 3)]);
}

#[test]
fn transparent_pass_reuses_each_slot_once_recorded() {
    let mut pass = DrawBase3DTransparentDesc::new().build::<u32>(layout());
    let make = |order: Vec<u32>| {
        let es = vec![entity(1, 10, 1), entity(2, 20, 2)];
        frame(es, Some(Visibility { visible_unordered: IdSet::new(), visible_ordered: order }), &[10, 20], &[1, 2])
    };
    let f = make(vec![0, 1]);
    assert_eq!(pass.prepare(&f, 0, &vec![]).unwrap().result, PrepareResult::DrawRecord);
    assert_eq!(pass.prepare(&f, 1, &vec![]).unwrap().result, PrepareResult::DrawRecord);
    assert_eq!(pass.prepare(&f, 0, &vec![]).unwrap().result, PrepareResult::DrawReuse);
    assert_eq!(pass.prepare(&f, 1, &vec![]).unwrap().result, PrepareResult::DrawReuse);
    let g = make(vec![1, 0]);
    assert_eq!(pass.prepare(&g, 0, &vec![]).unwrap().result, PrepareResult::DrawRecord);
    assert_eq!(pass.prepare(&g, 1, &vec![]).unwrap().result, PrepareResult::DrawRecord);
    assert_eq!(pass.prepare(&g, 0, &vec![]).unwrap().result, PrepareResult::DrawReuse);
}

#[test]
fn dispose_tolerates_missing_skinned_pipeline() {
    let pass = DrawBase3DDesc::new().build::<u32>(layout());
    assert_eq!(
        pass.dispose(),
        vec![DisposeAction::DestroyPipeline(PipelineKind::Basic), DisposeAction::DestroyPipelineLayout]
    );
    let pass = DrawBase3DTransparentDesc::skinned().build::<u32>(layout());
    assert_eq!(
        pass.dispose(),
        vec![
            DisposeAction::DestroyPipeline(PipelineKind::Basic),
            DisposeAction::DestroyPipeline(PipelineKind::Skinned),
            DisposeAction::DestroyPipelineLayout,
        ]
    );
}

#[test]
fn descriptors_select_skinning() {
    assert!(!DrawBase3DDesc::new().skinning);
    assert!(DrawBase3DDesc::skinned().skinning);
    assert!(!DrawBase3DTransparentDesc::new().skinning);
    assert!(DrawBase3DTransparentDesc::skinned().skinning);
}

#[test]
fn transparent_skinned_entities_are_not_drawn_without_visibility() {
    let mut pass = DrawBase3DDesc::skinned().build::<u32>(layout());
    let mut a = entity(1, 10, 7);
    a.joints = Some(JointRef { skin: 5, joint_count: 3 });
    a.transparent = true;
    let mut b = entity(1, 10, 8);
    b.joints = Some(JointRef { skin: 6, joint_count: 2 });
    let f = frame(vec![a, b], None, &[10], &[1]);
    let up = pass.prepare(&f, 0, &vec![]);
    let skinned: Vec<u32> = up.skinned_instances.iter().map(|s| s.base).collect();
    assert_eq!(skinned, vec![8]);
    assert_eq!(up.joints, vec![(6, 0)]);
}

#[test]
fn passes_use_their_own_pipeline_settings() {
    let opaque = DrawBase3DDesc::skinned().build::<u32>(layout()).pipelines();
    assert_eq!(opaque.len(), 2);
    assert!(opaque.iter().all(|p| p.depth_write && !p.alpha_blend && p.cull_back_faces && p.depth_test));
    assert_eq!(opaque[0].kind, PipelineKind::Basic);
    assert_eq!(opaque[1].kind, PipelineKind::Skinned);
    let transparent = DrawBase3DTransparentDesc::new().build::<u32>(layout()).pipelines();
    assert_eq!(transparent.len(), 1);
    assert!(!transparent[0].depth_write && transparent[0].alpha_blend && transparent[0].depth_test);
    assert_eq!(transparent[0].vertex_bindings, 1);
}
