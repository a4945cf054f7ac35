use live_compositor::audio_mixer::{AudioMixingParams, InputParams, MixingStrategy, VOLUME_ONE};
use live_compositor::error::{RenderError, TickError, ValidationError};
use live_compositor::output::{Framerate, Pacing, TickSchedule, NANOS_PER_SECOND};
use live_compositor::pipeline::{
    EntityKind, EntityParams, OutputParams, Pipeline, PipelineState, Request, TickOutput,
};
use live_compositor::queue::{Frame, Liveness};
use live_compositor::layout::tile_layout;
use live_compositor::renderer::{Bound, RenderOp};
use live_compositor::scene::{NodeDef, NodeKind, SceneDef};
use live_compositor::web_renderer::Resolution;

const HD: Resolution = Resolution { width: 1280, height: 720 };
const FPS_25: Framerate = Framerate { num: 25, den: 1 };
const PERIOD: u64 = 40_000_000;

fn s(text: &str) -> String {
    text.to_string()
}

fn output_params(inputs: Vec<(&str, u32)>, mixing_strategy: MixingStrategy) -> OutputParams {
    OutputParams {
        resolution: HD,
        framerate: FPS_25,
        first_pts: 0,
        audio: AudioMixingParams {
            inputs: inputs
                .into_iter()
                .map(|(id, volume)| InputParams { input_id: s(id), volume })
                .collect(),
            mixing_strategy,
        },
        samples_per_tick: 2,
    }
}

fn output() -> EntityParams {
    EntityParams::Output(output_params(vec![("input_1", VOLUME_ONE)], MixingStrategy::SumClip))
}

fn input() -> EntityParams {
    EntityParams::Input { has_video: true, has_audio: true }
}

fn node(id: &str, kind: NodeKind, children: &[&str]) -> NodeDef {
    NodeDef {
        id: s(id),
        kind,
        children: children.iter().map(|c| s(c)).collect(),
        resolution: HD,
    }
}

/// A tiles node over an input stream and an image.
fn initial_scene() -> SceneDef {
    SceneDef {
        root: s("root"),
        nodes: vec![
            node("root", NodeKind::Tiles { padding: 3, background_color_rgba: 0xDDDDDDFF }, &["stream", "logo"]),
            node("stream", NodeKind::InputStream { input_id: s("input_1") }, &[]),
            node("logo", NodeKind::Image { image_id: s("image_1") }, &[]),
        ],
    }
}

fn image_only_scene() -> SceneDef {
    SceneDef {
        root: s("logo"),
        nodes: vec![node("logo", NodeKind::Image { image_id: s("image_1") }, &[])],
    }
}

fn pipeline_with_output() -> Pipeline {
    let mut pipeline = Pipeline::new(8, 2);
    pipeline.register_entity(s("output_1"), output()).unwrap();
    pipeline
}

fn ops(pipeline: &Pipeline, out: &TickOutput) -> Vec<(String, String)> {
    let committed = pipeline.output(&s("output_1")).unwrap().scene.as_ref().unwrap();
    out.plan
        .iter()
        .map(|step| {
            let op = match &step.op {
                RenderOp::Blank => s("blank"),
                RenderOp::Frame { pts, data } => format!("frame {pts} {data}"),
                RenderOp::Image { texture } => format!("image {texture}"),
                RenderOp::Tiles { placements, .. } => format!("tiles {}", placements.len()),
                RenderOp::Shader { program } => format!("shader {program}"),
            };
            (committed.scene.node(step.node).id.clone(), op)
        })
        .collect()
}

fn op_of(pipeline: &Pipeline, out: &TickOutput, id: &str) -> String {
    ops(pipeline, out).into_iter().find(|(node, _)| node == id).unwrap().1
}

#[test]
fn a_new_pipeline_is_idle_and_empty() {
    let pipeline = Pipeline::new(8, 2);
    assert_eq!(pipeline.state(), PipelineState::Idle);
    for kind in [EntityKind::Image, EntityKind::Shader, EntityKind::WebRenderer, EntityKind::Input, EntityKind::Output] {
        assert!(!pipeline.has_entity(kind, &s("x")));
    }
}

#[test]
fn the_first_request_ends_idleness() {
    let mut pipeline = Pipeline::new(8, 2);
    pipeline.register_entity(s("image_1"), EntityParams::Image { texture: 1 }).unwrap();
    assert_eq!(pipeline.state(), PipelineState::Configuring);
    assert!(pipeline.has_entity(EntityKind::Image, &s("image_1")));
}

#[test]
fn a_request_that_is_turned_down_leaves_the_pipeline_idle() {
    let mut pipeline = Pipeline::new(8, 2);
    assert_eq!(
        pipeline.unregister_entity(EntityKind::Image, &s("image_1")),
        Err(ValidationError::NotFound)
    );
    assert_eq!(pipeline.state(), PipelineState::Idle);
}

#[test]
fn only_a_pipeline_that_is_configured_can_be_started() {
    let mut pipeline = Pipeline::new(8, 2);
    assert_eq!(pipeline.start(), Err(ValidationError::InvalidState));
    assert_eq!(pipeline.state(), PipelineState::Idle);
    pipeline.register_entity(s("input_1"), input()).unwrap();
    assert_eq!(pipeline.start(), Ok(()));
    assert_eq!(pipeline.state(), PipelineState::Running);
    assert_eq!(pipeline.start(), Err(ValidationError::InvalidState));
    assert_eq!(pipeline.stop(), Ok(()));
    assert_eq!(pipeline.start(), Err(ValidationError::InvalidState));
    assert_eq!(pipeline.state(), PipelineState::Stopped);
}

#[test]
fn a_stopped_pipeline_takes_no_request() {
    let mut pipeline = pipeline_with_output();
    pipeline.register_entity(s("input_1"), input()).unwrap();
    assert_eq!(pipeline.stop(), Ok(()));
    assert_eq!(pipeline.stop(), Err(ValidationError::InvalidState));
    assert_eq!(
        pipeline.register_entity(s("image_1"), EntityParams::Image { texture: 1 }),
        Err(ValidationError::InvalidState)
    );
    assert_eq!(
        pipeline.unregister_entity(EntityKind::Output, &s("output_1")),
        Err(ValidationError::InvalidState)
    );
    assert_eq!(
        pipeline.commit_scene(&s("output_1"), &image_only_scene()),
        Err(ValidationError::InvalidState)
    );
    assert!(!pipeline.push_video(&s("input_1"), Frame { pts: 0, data: 1 }));
    assert_eq!(pipeline.tick(&s("output_1")).unwrap_err(), TickError::NotRunning);
    assert_eq!(pipeline.report_device_loss(&s("output_1")), Err(ValidationError::InvalidState));
    assert!(pipeline.has_entity(EntityKind::Output, &s("output_1")));
    assert!(!pipeline.has_entity(EntityKind::Image, &s("image_1")));
}

#[test]
fn a_pipeline_can_be_stopped_before_it_ran() {
    let mut pipeline = Pipeline::new(8, 2);
    assert_eq!(pipeline.stop(), Ok(()));
    assert_eq!(pipeline.state(), PipelineState::Stopped);
}

#[test]
fn an_id_is_registered_once_per_kind() {
    let mut pipeline = Pipeline::new(8, 2);
    assert_eq!(pipeline.register_entity(s("x"), EntityParams::Image { texture: 1 }), Ok(()));
    assert_eq!(
        pipeline.register_entity(s("x"), EntityParams::Image { texture: 2 }),
        Err(ValidationError::DuplicateId)
    );
    assert_eq!(pipeline.register_entity(s("x"), EntityParams::Shader { program: 1 }), Ok(()));
    assert_eq!(
        pipeline.register_entity(s("x"), EntityParams::Shader { program: 1 }),
        Err(ValidationError::DuplicateId)
    );
    assert_eq!(pipeline.register_entity(s("x"), EntityParams::WebRenderer { url: s("u") }), Ok(()));
    assert_eq!(
        pipeline.register_entity(s("x"), EntityParams::WebRenderer { url: s("v") }),
        Err(ValidationError::DuplicateId)
    );
    assert_eq!(pipeline.register_entity(s("x"), input()), Ok(()));
    assert_eq!(pipeline.register_entity(s("x"), input()), Err(ValidationError::DuplicateId));
    assert_eq!(pipeline.register_entity(s("x"), output()), Ok(()));
    assert_eq!(pipeline.register_entity(s("x"), output()), Err(ValidationError::DuplicateId));
}

#[test]
fn parameters_out_of_range_are_turned_down() {
    let mut pipeline = Pipeline::new(8, 2);
    assert_eq!(
        pipeline.register_entity(s("mute"), EntityParams::Input { has_video: false, has_audio: false }),
        Err(ValidationError::InvalidParams)
    );
    let loud = output_params(vec![("input_1", VOLUME_ONE + 1)], MixingStrategy::SumClip);
    assert_eq!(
        pipeline.register_entity(s("loud"), EntityParams::Output(loud)),
        Err(ValidationError::InvalidParams)
    );
    for framerate in [Framerate { num: 0, den: 1 }, Framerate { num: 30, den: 0 }] {
        let still = OutputParams { framerate, ..output_params(vec![], MixingStrategy::SumClip) };
        assert_eq!(
            pipeline.register_entity(s("still"), EntityParams::Output(still)),
            Err(ValidationError::InvalidParams)
        );
    }
    assert_eq!(pipeline.state(), PipelineState::Idle);
    assert!(!pipeline.has_entity(EntityKind::Input, &s("mute")));
    assert!(!pipeline.has_entity(EntityKind::Output, &s("loud")));
    let full = output_params(vec![("input_1", VOLUME_ONE), ("input_2", 0)], MixingStrategy::SumScale);
    assert_eq!(pipeline.register_entity(s("full"), EntityParams::Output(full)), Ok(()));
}

#[test]
fn what_is_not_registered_cannot_be_unregistered() {
    let mut pipeline = pipeline_with_output();
    pipeline.register_entity(s("image_1"), EntityParams::Image { texture: 1 }).unwrap();
    assert_eq!(pipeline.unregister_entity(EntityKind::Shader, &s("image_1")), Err(ValidationError::NotFound));
    assert_eq!(pipeline.unregister_entity(EntityKind::Input, &s("input_1")), Err(ValidationError::NotFound));
    assert_eq!(pipeline.unregister_entity(EntityKind::Output, &s("output_2")), Err(ValidationError::NotFound));
    assert_eq!(pipeline.unregister_entity(EntityKind::Image, &s("image_1")), Ok(()));
    assert_eq!(pipeline.unregister_entity(EntityKind::Image, &s("image_1")), Err(ValidationError::NotFound));
    assert_eq!(pipeline.unregister_entity(EntityKind::Output, &s("output_1")), Ok(()));
    assert!(!pipeline.has_entity(EntityKind::Output, &s("output_1")));
}

#[test]
fn an_input_is_unregistered_once() {
    let mut pipeline = Pipeline::new(8, 2);
    pipeline.register_entity(s("input_1"), input()).unwrap();
    assert_eq!(pipeline.unregister_entity(EntityKind::Input, &s("input_1")), Ok(()));
    assert!(!pipeline.has_entity(EntityKind::Input, &s("input_1")));
    assert_eq!(pipeline.unregister_entity(EntityKind::Input, &s("input_1")), Err(ValidationError::NotFound));
    let drained = pipeline.input(&s("input_1")).unwrap();
    assert_eq!(drained.video.liveness(), Liveness::Draining { ticks_left: 2 });
    assert_eq!(drained.audio.liveness(), Liveness::Draining { ticks_left: 2 });
}

#[test]
fn an_unregistered_input_can_be_registered_again() {
    let mut pipeline = Pipeline::new(8, 2);
    pipeline.register_entity(s("input_1"), input()).unwrap();
    pipeline.push_video(&s("input_1"), Frame { pts: 0, data: 1 });
    pipeline.unregister_entity(EntityKind::Input, &s("input_1")).unwrap();
    assert_eq!(pipeline.register_entity(s("input_1"), input()), Ok(()));
    assert!(pipeline.has_entity(EntityKind::Input, &s("input_1")));
    let fresh = pipeline.input(&s("input_1")).unwrap();
    assert_eq!(fresh.video.liveness(), Liveness::Registered);
    assert_eq!(fresh.video.buffered(), 0);
}

#[test]
fn commit_before_image_registered_fails_then_succeeds() {
    let mut pipeline = pipeline_with_output();
    let scene = image_only_scene();
    assert_eq!(pipeline.commit_scene(&s("output_1"), &scene), Err(ValidationError::UnknownEntity));
    assert!(pipeline.output(&s("output_1")).unwrap().scene.is_none());
    pipeline.register_entity(s("image_1"), EntityParams::Image { texture: 11 }).unwrap();
    assert_eq!(pipeline.commit_scene(&s("output_1"), &scene), Ok(()));
    assert!(pipeline.output(&s("output_1")).unwrap().scene.is_some());
}

#[test]
fn a_committed_scene_holds_what_is_registered_for_its_nodes() {
    let mut pipeline = pipeline_with_output();
    pipeline.register_entity(s("image_1"), EntityParams::Image { texture: 11 }).unwrap();
    pipeline.register_entity(s("input_1"), input()).unwrap();
    pipeline.commit_scene(&s("output_1"), &initial_scene()).unwrap();
    let committed = pipeline.output(&s("output_1")).unwrap().scene.as_ref().unwrap();
    assert_eq!(committed.bounds.len(), 3);
    for at in 0..3 {
        match (committed.scene.node(at).id.as_str(), &committed.bounds[at]) {
            ("root", Bound::Layout { placements }) => assert_eq!(*placements, tile_layout(2, HD, 3)),
            ("stream", Bound::Nothing) => {}
            ("logo", Bound::Image { texture: 11 }) => {}
            (id, bound) => panic!("unexpected {bound:?} for {id}"),
        }
    }
}

#[test]
fn a_commit_that_is_turned_down_leaves_the_committed_scene() {
    let mut pipeline = pipeline_with_output();
    pipeline.register_entity(s("image_1"), EntityParams::Image { texture: 11 }).unwrap();
    pipeline.commit_scene(&s("output_1"), &image_only_scene()).unwrap();
    // `input_1` is not registered: nothing of the new scene is taken over.
    assert_eq!(pipeline.commit_scene(&s("output_1"), &initial_scene()), Err(ValidationError::UnknownEntity));
    let cyclic = SceneDef {
        root: s("a"),
        nodes: vec![node("a", NodeKind::Tiles { padding: 0, background_color_rgba: 0 }, &["a"])],
    };
    assert_eq!(pipeline.commit_scene(&s("output_1"), &cyclic), Err(ValidationError::InvalidGraph));
    let committed = pipeline.output(&s("output_1")).unwrap().scene.as_ref().unwrap();
    assert_eq!(committed.scene.len(), 1);
    assert_eq!(committed.scene.node(0).id, "logo");
}

#[test]
fn a_commit_succeeds_once_the_missing_input_is_registered() {
    let mut pipeline = pipeline_with_output();
    pipeline.register_entity(s("image_1"), EntityParams::Image { texture: 11 }).unwrap();
    assert_eq!(pipeline.commit_scene(&s("output_1"), &initial_scene()), Err(ValidationError::UnknownEntity));
    pipeline.register_entity(s("input_1"), input()).unwrap();
    assert_eq!(pipeline.commit_scene(&s("output_1"), &initial_scene()), Ok(()));
}

#[test]
fn a_scene_is_committed_to_a_registered_output_only() {
    let mut pipeline = Pipeline::new(8, 2);
    pipeline.register_entity(s("image_1"), EntityParams::Image { texture: 11 }).unwrap();
    assert_eq!(pipeline.commit_scene(&s("output_1"), &image_only_scene()), Err(ValidationError::UnknownEntity));
}

#[test]
fn a_scene_that_shows_an_unregistered_input_is_turned_down() {
    let mut pipeline = pipeline_with_output();
    pipeline.register_entity(s("image_1"), EntityParams::Image { texture: 11 }).unwrap();
    pipeline.register_entity(s("input_1"), input()).unwrap();
    pipeline.unregister_entity(EntityKind::Input, &s("input_1")).unwrap();
    assert_eq!(pipeline.commit_scene(&s("output_1"), &initial_scene()), Err(ValidationError::UnknownEntity));
}

#[test]
fn shaders_and_web_renderers_have_to_be_registered_too() {
    let mut pipeline = pipeline_with_output();
    let scene = SceneDef {
        root: s("shaded"),
        nodes: vec![
            node("shaded", NodeKind::Shader { shader_id: s("shader_1") }, &["page"]),
            node("page", NodeKind::WebRenderer { instance_id: s("web_1") }, &[]),
        ],
    };
    assert_eq!(pipeline.commit_scene(&s("output_1"), &scene), Err(ValidationError::UnknownEntity));
    pipeline.register_entity(s("shader_1"), EntityParams::Shader { program: 5 }).unwrap();
    assert_eq!(pipeline.commit_scene(&s("output_1"), &scene), Err(ValidationError::UnknownEntity));
    pipeline.register_entity(s("web_1"), EntityParams::WebRenderer { url: s("https://example.com") }).unwrap();
    assert_eq!(pipeline.commit_scene(&s("output_1"), &scene), Ok(()));
    pipeline.start().unwrap();
    let out = pipeline.tick(&s("output_1")).unwrap();
    assert_eq!(ops(&pipeline, &out), vec![(s("page"), s("blank")), (s("shaded"), s("shader 5"))]);
    assert_eq!(out.plan[0].error, Some(RenderError::CapabilityUnavailable));
    assert_eq!(out.plan[1].error, None);
}

#[test]
fn no_tick_is_made_before_the_pipeline_runs() {
    let mut pipeline = pipeline_with_output();
    assert_eq!(pipeline.tick(&s("output_1")).unwrap_err(), TickError::NotRunning);
    assert!(pipeline.complete_tick(&s("output_1"), 0).is_none());
    pipeline.start().unwrap();
    assert!(pipeline.tick(&s("output_1")).is_ok());
    assert_eq!(pipeline.tick(&s("output_2")).unwrap_err(), TickError::UnknownOutput);
    assert!(pipeline.complete_tick(&s("output_2"), 0).is_none());
}

#[test]
fn an_output_without_a_scene_renders_nothing() {
    let mut pipeline = pipeline_with_output();
    pipeline.start().unwrap();
    let out = pipeline.tick(&s("output_1")).unwrap();
    assert_eq!(out.pts, 0);
    assert!(out.plan.is_empty());
    assert_eq!(out.audio, vec![0, 0]);
}

#[test]
fn ticks_are_due_one_period_apart() {
    let mut pipeline = pipeline_with_output();
    pipeline.start().unwrap();
    assert_eq!(pipeline.tick(&s("output_1")).unwrap().pts, 0);
    // Making a tick again before it is completed gives the same time.
    assert_eq!(pipeline.tick(&s("output_1")).unwrap().pts, 0);
    let pacing = pipeline.complete_tick(&s("output_1"), 1_000_000).unwrap();
    assert_eq!(pacing, Pacing { next_pts: PERIOD, wait: PERIOD - 1_000_000, late: false });
    assert_eq!(pipeline.tick(&s("output_1")).unwrap().pts, PERIOD);
}

#[test]
fn a_late_tick_is_followed_at_once_and_the_schedule_holds() {
    let mut pipeline = pipeline_with_output();
    pipeline.start().unwrap();
    pipeline.tick(&s("output_1")).unwrap();
    // The first tick took three periods.
    let pacing = pipeline.complete_tick(&s("output_1"), 3 * PERIOD).unwrap();
    assert_eq!(pacing, Pacing { next_pts: PERIOD, wait: 0, late: true });
    assert_eq!(pipeline.tick(&s("output_1")).unwrap().pts, PERIOD);
    let pacing = pipeline.complete_tick(&s("output_1"), 3 * PERIOD + 1).unwrap();
    assert_eq!(pacing.next_pts, 2 * PERIOD);
    assert!(pacing.late);
}

#[test]
fn a_schedule_does_not_drift() {
    let mut schedule = TickSchedule::new(7, Framerate { num: 30000, den: 1001 }).unwrap();
    assert_eq!(schedule.next_pts(), 7);
    let mut last = 0;
    for n in 1..=30000u64 {
        last = schedule.complete_tick(0).next_pts;
        assert_eq!(last, 7 + n * NANOS_PER_SECOND * 1001 / 30000);
    }
    assert_eq!(last, 7 + 1001 * NANOS_PER_SECOND);
    assert!(TickSchedule::new(0, Framerate { num: 0, den: 1 }).is_none());
    assert!(TickSchedule::new(0, Framerate { num: 1, den: 0 }).is_none());
}

#[test]
fn a_tick_on_time_waits_for_the_next_one() {
    let mut schedule = TickSchedule::new(0, FPS_25).unwrap();
    let pacing = schedule.complete_tick(PERIOD);
    assert_eq!(pacing, Pacing { next_pts: PERIOD, wait: 0, late: false });
    let pacing = schedule.complete_tick(PERIOD + 1);
    assert_eq!(pacing, Pacing { next_pts: 2 * PERIOD, wait: PERIOD - 1, late: false });
}

#[test]
fn frames_go_to_inputs_that_are_registered_for_them() {
    let mut pipeline = Pipeline::new(8, 2);
    pipeline.register_entity(s("video"), EntityParams::Input { has_video: true, has_audio: false }).unwrap();
    pipeline.register_entity(s("audio"), EntityParams::Input { has_video: false, has_audio: true }).unwrap();
    assert!(pipeline.push_video(&s("video"), Frame { pts: 0, data: 1 }));
    assert!(!pipeline.push_audio(&s("video"), Frame { pts: 0, data: vec![1] }));
    assert!(pipeline.push_audio(&s("audio"), Frame { pts: 0, data: vec![1] }));
    assert!(!pipeline.push_video(&s("audio"), Frame { pts: 0, data: 1 }));
    assert!(!pipeline.push_video(&s("missing"), Frame { pts: 0, data: 1 }));
    assert_eq!(pipeline.input(&s("video")).unwrap().video.buffered(), 1);
    assert_eq!(pipeline.input(&s("video")).unwrap().audio.buffered(), 0);
    assert_eq!(pipeline.input(&s("audio")).unwrap().audio.buffered(), 1);
}

fn running_pipeline() -> Pipeline {
    let mut pipeline = Pipeline::new(8, 2);
    pipeline.register_entity(s("image_1"), EntityParams::Image { texture: 11 }).unwrap();
    pipeline.register_entity(s("input_1"), input()).unwrap();
    pipeline.register_entity(s("output_1"), output()).unwrap();
    pipeline.commit_scene(&s("output_1"), &initial_scene()).unwrap();
    pipeline.start().unwrap();
    pipeline
}

fn next_tick(pipeline: &mut Pipeline) -> TickOutput {
    let out = pipeline.tick(&s("output_1")).unwrap();
    pipeline.complete_tick(&s("output_1"), out.pts).unwrap();
    out
}

#[test]
fn a_tick_renders_the_scene_from_what_the_inputs_show() {
    let mut pipeline = running_pipeline();
    let out = next_tick(&mut pipeline);
    assert_eq!(out.plan.len(), 3);
    assert_eq!(op_of(&pipeline, &out, "stream"), "blank");
    assert_eq!(op_of(&pipeline, &out, "logo"), "image 11");
    assert_eq!(op_of(&pipeline, &out, "root"), "tiles 2");
    assert_eq!(ops(&pipeline, &out).last().unwrap().0, "root");
    pipeline.push_video(&s("input_1"), Frame { pts: PERIOD, data: 100 });
    pipeline.push_video(&s("input_1"), Frame { pts: 3 * PERIOD, data: 300 });
    let out = next_tick(&mut pipeline);
    assert_eq!(out.pts, PERIOD);
    assert_eq!(op_of(&pipeline, &out, "stream"), format!("frame {PERIOD} 100"));
    // Nothing new is due at the third tick: the frame stays.
    let out = next_tick(&mut pipeline);
    assert_eq!(op_of(&pipeline, &out, "stream"), format!("frame {PERIOD} 100"));
    let out = next_tick(&mut pipeline);
    assert_eq!(op_of(&pipeline, &out, "stream"), format!("frame {} 300", 3 * PERIOD));
}

#[test]
fn a_tick_mixes_the_audio_that_is_new() {
    let mut pipeline = running_pipeline();
    pipeline.push_audio(&s("input_1"), Frame { pts: 0, data: vec![100, -200, 300] });
    let out = next_tick(&mut pipeline);
    assert_eq!(out.audio, vec![100, -200]);
    // The samples were played: the next tick is silent.
    let out = next_tick(&mut pipeline);
    assert_eq!(out.audio, vec![0, 0]);
    pipeline.push_audio(&s("input_1"), Frame { pts: 2 * PERIOD, data: vec![7] });
    let out = next_tick(&mut pipeline);
    assert_eq!(out.audio, vec![7, 0]);
}

#[test]
fn two_loud_inputs_are_clipped_or_scaled() {
    for (strategy, expected) in [
        (MixingStrategy::SumClip, vec![32767i16, -32768]),
        (MixingStrategy::SumScale, vec![32767i16, -32767]),
    ] {
        let mut pipeline = Pipeline::new(8, 2);
        pipeline.register_entity(s("a"), input()).unwrap();
        pipeline.register_entity(s("b"), input()).unwrap();
        let params = output_params(vec![("a", VOLUME_ONE), ("b", VOLUME_ONE)], strategy);
        pipeline.register_entity(s("output_1"), EntityParams::Output(params)).unwrap();
        pipeline.start().unwrap();
        pipeline.push_audio(&s("a"), Frame { pts: 0, data: vec![30000, -30000] });
        pipeline.push_audio(&s("b"), Frame { pts: 0, data: vec![30000, -30000] });
        assert_eq!(pipeline.tick(&s("output_1")).unwrap().audio, expected);
    }
}

#[test]
fn unregistering_keeps_the_output_producing_frames() {
    let mut pipeline = Pipeline::new(8, 2);
    pipeline.register_entity(s("output_1"), output()).unwrap();
    // The image has to be registered first.
    assert_eq!(pipeline.commit_scene(&s("output_1"), &initial_scene()), Err(ValidationError::UnknownEntity));
    pipeline.register_entity(s("image_1"), EntityParams::Image { texture: 11 }).unwrap();
    // And so has the input that the scene shows.
    assert_eq!(pipeline.commit_scene(&s("output_1"), &initial_scene()), Err(ValidationError::UnknownEntity));
    pipeline.register_entity(s("input_1"), input()).unwrap();
    assert_eq!(pipeline.commit_scene(&s("output_1"), &initial_scene()), Ok(()));
    pipeline.start().unwrap();

    pipeline.push_video(&s("input_1"), Frame { pts: 0, data: 100 });
    pipeline.push_video(&s("input_1"), Frame { pts: PERIOD, data: 101 });
    let out = next_tick(&mut pipeline);
    assert_eq!(op_of(&pipeline, &out, "stream"), "frame 0 100");

    assert_eq!(pipeline.unregister_entity(EntityKind::Input, &s("input_1")), Ok(()));
    assert_eq!(pipeline.unregister_entity(EntityKind::Image, &s("image_1")), Ok(()));
    assert!(!pipeline.push_video(&s("input_1"), Frame { pts: 2 * PERIOD, data: 102 }));

    let mut times = vec![out.pts];
    let mut shown = Vec::new();
    for _ in 0..5 {
        let out = next_tick(&mut pipeline);
        assert_eq!(out.plan.len(), 3);
        // What does not depend on the input is rendered as before.
        assert_eq!(op_of(&pipeline, &out, "logo"), "image 11");
        assert_eq!(op_of(&pipeline, &out, "root"), "tiles 2");
        shown.push(op_of(&pipeline, &out, "stream"));
        times.push(out.pts);
    }
    // Two ticks of grace: what was buffered, then the last frame; then nothing.
    let last = format!("frame {PERIOD} 101");
    assert_eq!(shown, vec![last.clone(), last, s("blank"), s("blank"), s("blank")]);
    assert_eq!(times, (0..6).map(|n| n * PERIOD).collect::<Vec<u64>>());
    assert_eq!(pipeline.reclaim(), 1);
    assert!(pipeline.input(&s("input_1")).is_none());
    let out = next_tick(&mut pipeline);
    assert_eq!(op_of(&pipeline, &out, "stream"), "blank");
}

#[test]
fn unregistering_an_input_leaves_other_inputs_as_they_are() {
    let scene = SceneDef {
        root: s("root"),
        nodes: vec![
            node("root", NodeKind::Tiles { padding: 0, background_color_rgba: 0 }, &["one", "two"]),
            node("one", NodeKind::InputStream { input_id: s("input_1") }, &[]),
            node("two", NodeKind::InputStream { input_id: s("input_2") }, &[]),
        ],
    };
    let mut pipeline = Pipeline::new(8, 0);
    pipeline.register_entity(s("input_1"), input()).unwrap();
    pipeline.register_entity(s("input_2"), input()).unwrap();
    pipeline.register_entity(s("output_1"), output()).unwrap();
    pipeline.commit_scene(&s("output_1"), &scene).unwrap();
    pipeline.start().unwrap();
    pipeline.push_video(&s("input_1"), Frame { pts: 0, data: 1 });
    pipeline.push_video(&s("input_2"), Frame { pts: 0, data: 2 });
    pipeline.unregister_entity(EntityKind::Input, &s("input_1")).unwrap();
    let out = next_tick(&mut pipeline);
    // No grace: the unregistered input shows nothing at once.
    assert_eq!(op_of(&pipeline, &out, "one"), "blank");
    assert_eq!(op_of(&pipeline, &out, "two"), "frame 0 2");
    assert_eq!(op_of(&pipeline, &out, "root"), "tiles 2");
}

#[test]
fn the_loss_of_a_device_ends_one_output() {
    let mut pipeline = Pipeline::new(8, 2);
    pipeline.register_entity(s("output_1"), output()).unwrap();
    pipeline.register_entity(s("output_2"), output()).unwrap();
    pipeline.register_entity(s("input_1"), input()).unwrap();
    pipeline.start().unwrap();
    assert_eq!(pipeline.report_device_loss(&s("output_3")), Err(ValidationError::NotFound));
    assert_eq!(pipeline.report_device_loss(&s("output_1")), Ok(()));
    assert_eq!(pipeline.tick(&s("output_1")).unwrap_err(), TickError::DeviceLost);
    assert!(pipeline.complete_tick(&s("output_1"), 0).is_none());
    assert_eq!(pipeline.state(), PipelineState::Running);
    pipeline.push_audio(&s("input_1"), Frame { pts: 0, data: vec![5, 6] });
    let out = pipeline.tick(&s("output_2")).unwrap();
    assert_eq!(out.audio, vec![5, 6]);
    assert!(pipeline.complete_tick(&s("output_2"), 0).is_some());
    // Reporting the loss again changes nothing.
    assert_eq!(pipeline.report_device_loss(&s("output_1")), Ok(()));
    assert!(pipeline.output(&s("output_1")).unwrap().device_lost);
    assert!(!pipeline.output(&s("output_2")).unwrap().device_lost);
}

#[test]
fn reclaiming_drops_released_inputs_only() {
    let mut pipeline = Pipeline::new(8, 1);
    pipeline.register_entity(s("gone"), input()).unwrap();
    pipeline.register_entity(s("live"), input()).unwrap();
    pipeline.register_entity(s("output_1"), output()).unwrap();
    pipeline.start().unwrap();
    pipeline.unregister_entity(EntityKind::Input, &s("gone")).unwrap();
    assert_eq!(pipeline.reclaim(), 0);
    next_tick(&mut pipeline);
    assert_eq!(pipeline.reclaim(), 0);
    next_tick(&mut pipeline);
    assert_eq!(pipeline.reclaim(), 1);
    assert!(pipeline.input(&s("gone")).is_none());
    assert!(pipeline.input(&s("live")).is_some());
    assert_eq!(pipeline.reclaim(), 0);
}

#[test]
fn a_texture_is_in_use_while_something_holds_it() {
    let mut pipeline = pipeline_with_output();
    assert!(!pipeline.holds_texture(11));
    pipeline.register_entity(s("image_1"), EntityParams::Image { texture: 11 }).unwrap();
    pipeline.register_entity(s("shader_1"), EntityParams::Shader { program: 12 }).unwrap();
    assert!(pipeline.holds_texture(11));
    assert!(!pipeline.holds_texture(12));
    pipeline.commit_scene(&s("output_1"), &image_only_scene()).unwrap();
    pipeline.unregister_entity(EntityKind::Image, &s("image_1")).unwrap();
    // The scene still shows the image.
    assert!(pipeline.holds_texture(11));
    pipeline.register_entity(s("image_1"), EntityParams::Image { texture: 13 }).unwrap();
    pipeline.commit_scene(&s("output_1"), &image_only_scene()).unwrap();
    assert!(!pipeline.holds_texture(11));
    assert!(pipeline.holds_texture(13));
    pipeline.unregister_entity(EntityKind::Image, &s("image_1")).unwrap();
    pipeline.unregister_entity(EntityKind::Output, &s("output_1")).unwrap();
    assert!(!pipeline.holds_texture(13));
}

#[test]
fn entity_types_are_told_apart_by_name() {
    let kind = |name: &str| EntityKind::from_entity_type(&s(name));
    assert_eq!(kind("image"), Some(EntityKind::Image));
    assert_eq!(kind("shader"), Some(EntityKind::Shader));
    assert_eq!(kind("web_renderer"), Some(EntityKind::WebRenderer));
    assert_eq!(kind("rtp_input_stream"), Some(EntityKind::Input));
    assert_eq!(kind("input_stream"), Some(EntityKind::Input));
    assert_eq!(kind("output_stream"), Some(EntityKind::Output));
    assert_eq!(kind("Image"), None);
    assert_eq!(kind(""), None);
    assert_eq!(kind("tiles"), None);
}

#[test]
fn requests_are_carried_out_or_turned_down() {
    let mut pipeline = Pipeline::new(8, 2);
    assert_eq!(pipeline.handle(Request::Start), Err(ValidationError::InvalidState));
    let register = |id: &str, params: EntityParams| Request::Register { id: s(id), params };
    assert_eq!(pipeline.handle(register("output_1", output())), Ok(()));
    assert_eq!(pipeline.handle(register("output_1", output())), Err(ValidationError::DuplicateId));
    let commit = || Request::CommitScene { output_id: s("output_1"), scene: image_only_scene() };
    assert_eq!(pipeline.handle(commit()), Err(ValidationError::UnknownEntity));
    assert_eq!(pipeline.handle(register("image_1", EntityParams::Image { texture: 1 })), Ok(()));
    assert_eq!(pipeline.handle(commit()), Ok(()));
    assert_eq!(pipeline.handle(Request::Start), Ok(()));
    assert_eq!(pipeline.state(), PipelineState::Running);
    let unregister = || Request::Unregister { kind: EntityKind::Image, id: s("image_1") };
    assert_eq!(pipeline.handle(unregister()), Ok(()));
    assert_eq!(pipeline.handle(unregister()), Err(ValidationError::NotFound));
    let out = pipeline.tick(&s("output_1")).unwrap();
    assert_eq!(ops(&pipeline, &out), vec![(s("logo"), s("image 1"))]);
}

#[test]
fn every_error_has_a_message() {
    let errors = [
        ValidationError::DuplicateId,
        ValidationError::UnknownEntity,
        ValidationError::InvalidGraph,
        ValidationError::InvalidParams,
        ValidationError::InvalidState,
        ValidationError::NotFound,
    ];
    let messages: Vec<String> = errors.iter().map(|e| e.message()).collect();
    for (i, message) in messages.iter().enumerate() {
        assert!(!message.is_empty());
        assert!(messages[i + 1..].iter().all(|other| other != message));
    }
    assert_eq!(ValidationError::NotFound.message(), "no such entity is registered");
}
