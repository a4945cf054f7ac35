//! The pipeline: registering entities, committing scenes, taking in
//! frames and making ticks.

use crate::audio_mixer::{
    mix_samples, mixed_sample, samples_views, AudioMixingParams, AudioMixingParamsView,
    InputSamples, InputSamplesView,
};
use crate::error::{TickError, ValidationError};
use crate::output::{capped, tick_time, Framerate, Pacing, TickSchedule};
use crate::queue::{Frame, FrameSynchronizer, Liveness, SynchronizerView};
use crate::renderer::{
    bound_views, frame_of, frame_views, is_plan, lay_out, node_error, node_op, placements,
    render_plan, Bound, BoundView, InputFrame, InputFrameView, RenderOpView, RenderStep,
    ShownFrame,
};
use crate::scene::{
    valid_graph, NodeDef, NodeKind, NodeKindView, NodeView, Scene, SceneDef, SceneView,
};
use crate::text::{lemma_filter_none, lemma_filter_step, same_text, text_is};
use crate::web_renderer::Resolution;
use vstd::prelude::*;

verus! {

/// The codecs in which the pipeline hands audio to an encoder.
#[derive(Clone, Copy, Debug, PartialEq, Eq, Structural)]
pub enum AudioCodec {
    Opus,
}

/// Where the pipeline stands in its life.
#[derive(Clone, Copy, Debug, PartialEq, Eq, Structural)]
pub enum PipelineState {
    /// Nothing was asked of it yet.
    Idle,
    /// Entities are registered and scenes committed; no tick is made.
    Configuring,
    /// Ticks are made; entities and scenes still change.
    Running,
    /// Nothing is accepted any more.
    Stopped,
}

/// The kinds of entities that are registered with the pipeline.
#[derive(Clone, Copy, Debug, PartialEq, Eq, Structural)]
pub enum EntityKind {
    Image,
    Shader,
    WebRenderer,
    Input,
    Output,
}

impl EntityKind {
    /// The kind that a request names by `entity_type`.
    pub open spec fn spec_from_entity_type(entity_type: Seq<char>) -> Option<EntityKind> {
        if entity_type == "image"@ {
            Some(EntityKind::Image)
        } else if entity_type == "shader"@ {
            Some(EntityKind::Shader)
        } else if entity_type == "web_renderer"@ {
            Some(EntityKind::WebRenderer)
        } else if entity_type == "rtp_input_stream"@ || entity_type == "input_stream"@ {
            Some(EntityKind::Input)
        } else if entity_type == "output_stream"@ {
            Some(EntityKind::Output)
        } else {
            None
        }
    }

    /// The kind that a request names by `entity_type`; `None` for a name
    /// that stands for no kind.
    pub fn from_entity_type(entity_type: &String) -> (kind: Option<EntityKind>)
        ensures
            kind == Self::spec_from_entity_type(entity_type@),
    {
        if text_is(entity_type, "image") {
            Some(EntityKind::Image)
        } else if text_is(entity_type, "shader") {
            Some(EntityKind::Shader)
        } else if text_is(entity_type, "web_renderer") {
            Some(EntityKind::WebRenderer)
        } else if text_is(entity_type, "rtp_input_stream") || text_is(entity_type, "input_stream") {
            Some(EntityKind::Input)
        } else if text_is(entity_type, "output_stream") {
            Some(EntityKind::Output)
        } else {
            None
        }
    }
}

/// What an output is registered with.
#[derive(Debug)]
pub struct OutputParams {
    pub resolution: Resolution,
    pub framerate: Framerate,
    /// The time of the first tick.
    pub first_pts: u64,
    pub audio: AudioMixingParams,
    /// How many samples the audio of one tick has.
    pub samples_per_tick: usize,
}

/// What an entity is registered with.
#[derive(Debug)]
pub enum EntityParams {
    /// A decoded image, by the handle of its texture.
    Image { texture: u64 },
    /// A compiled shader, by the handle of its program.
    Shader { program: u64 },
    /// A web page to render.
    WebRenderer { url: String },
    /// An input and the kinds of media it brings.
    Input { has_video: bool, has_audio: bool },
    Output(OutputParams),
}

/// What can be asked of the pipeline.
#[derive(Debug)]
pub enum Request {
    Register { id: String, params: EntityParams },
    Unregister { kind: EntityKind, id: String },
    CommitScene { output_id: String, scene: SceneDef },
    Start,
}

/// A registered image, shader or web renderer.
#[derive(Debug)]
pub struct Asset {
    pub id: String,
    pub content: Bound,
}

/// Mathematical value of an [`Asset`].
pub struct AssetView {
    pub id: Seq<char>,
    pub content: BoundView,
}

impl View for Asset {
    type V = AssetView;

    open spec fn view(&self) -> AssetView {
        AssetView { id: self.id@, content: self.content@ }
    }
}

/// A registered input with what has arrived from it.
#[derive(Debug)]
pub struct Input {
    pub id: String,
    pub has_video: bool,
    pub has_audio: bool,
    pub video: FrameSynchronizer<u64>,
    pub audio: FrameSynchronizer<Vec<i16>>,
}

/// Mathematical value of an [`Input`].
pub struct InputView {
    pub id: Seq<char>,
    pub has_video: bool,
    pub has_audio: bool,
    pub video: SynchronizerView<u64>,
    pub audio: SynchronizerView<Vec<i16>>,
}

impl View for Input {
    type V = InputView;

    open spec fn view(&self) -> InputView {
        InputView {
            id: self.id@,
            has_video: self.has_video,
            has_audio: self.has_audio,
            video: self.video@,
            audio: self.audio@,
        }
    }
}

/// A scene as an output renders it: the graph, and for each node what it
/// holds of the entity it shows.
#[derive(Debug)]
pub struct CommittedScene {
    pub scene: Scene,
    pub bounds: Vec<Bound>,
}

/// A registered output.
#[derive(Debug)]
pub struct Output {
    pub id: String,
    pub resolution: Resolution,
    pub schedule: TickSchedule,
    pub audio: AudioMixingParams,
    pub samples_per_tick: usize,
    /// The scene that was committed last, if one was.
    pub scene: Option<CommittedScene>,
    /// Whether the device that the output renders on is lost.
    pub device_lost: bool,
}

/// Mathematical value of an [`Output`].
pub struct OutputView {
    pub id: Seq<char>,
    pub resolution: Resolution,
    pub first_pts: u64,
    pub framerate: Framerate,
    pub ticks_done: u64,
    pub audio: AudioMixingParamsView,
    pub samples_per_tick: usize,
    /// The committed scene with what its nodes hold, if one was committed.
    pub scene: Option<(SceneView, Seq<BoundView>)>,
    pub device_lost: bool,
}

impl View for Output {
    type V = OutputView;

    open spec fn view(&self) -> OutputView {
        OutputView {
            id: self.id@,
            resolution: self.resolution,
            first_pts: self.schedule.first(),
            framerate: self.schedule.framerate(),
            ticks_done: self.schedule.done(),
            audio: self.audio@,
            samples_per_tick: self.samples_per_tick,
            scene: match self.scene {
                Some(committed) => Some((committed.scene@, bound_views(committed.bounds@))),
                None => None,
            },
            device_lost: self.device_lost,
        }
    }
}

/// Mathematical value of a [`Pipeline`].
pub struct PipelineView {
    pub state: PipelineState,
    pub assets: Seq<AssetView>,
    pub inputs: Seq<InputView>,
    pub outputs: Seq<OutputView>,
}

/// The kind of entity that an asset is.
pub open spec fn asset_kind(content: BoundView) -> Option<EntityKind> {
    match content {
        BoundView::Nothing => None,
        BoundView::Layout { .. } => None,
        BoundView::Image { .. } => Some(EntityKind::Image),
        BoundView::Shader { .. } => Some(EntityKind::Shader),
        BoundView::WebRenderer { .. } => Some(EntityKind::WebRenderer),
    }
}

/// Where among `assets` the asset of the given kind and id stands, from
/// position `from` on.
pub open spec fn asset_position(
    assets: Seq<AssetView>,
    kind: EntityKind,
    id: Seq<char>,
    from: int,
) -> Option<int>
    decreases assets.len() - from,
{
    if from < 0 || from >= assets.len() {
        None
    } else if assets[from].id == id && asset_kind(assets[from].content) == Some(kind) {
        Some(from)
    } else {
        asset_position(assets, kind, id, from + 1)
    }
}

/// Where among `inputs` the input with the given id stands, from position
/// `from` on.
pub open spec fn input_position(inputs: Seq<InputView>, id: Seq<char>, from: int) -> Option<int>
    decreases inputs.len() - from,
{
    if from < 0 || from >= inputs.len() {
        None
    } else if inputs[from].id == id {
        Some(from)
    } else {
        input_position(inputs, id, from + 1)
    }
}

/// Where among `outputs` the output with the given id stands, from
/// position `from` on.
pub open spec fn output_position(outputs: Seq<OutputView>, id: Seq<char>, from: int) -> Option<
    int,
>
    decreases outputs.len() - from,
{
    if from < 0 || from >= outputs.len() {
        None
    } else if outputs[from].id == id {
        Some(from)
    } else {
        output_position(outputs, id, from + 1)
    }
}

/// Whether no two inputs share an id.
pub open spec fn inputs_distinct(inputs: Seq<InputView>) -> bool {
    forall|i: int, j: int|
        0 <= i < j < inputs.len() ==> (#[trigger] inputs[i]).id != (#[trigger] inputs[j]).id
}

/// Whether no two outputs share an id.
pub open spec fn outputs_distinct(outputs: Seq<OutputView>) -> bool {
    forall|i: int, j: int|
        0 <= i < j < outputs.len() ==> (#[trigger] outputs[i]).id != (#[trigger] outputs[j]).id
}

/// Whether two assets are of the same kind and id.
pub open spec fn same_asset(a: AssetView, b: AssetView) -> bool {
    a.id == b.id && asset_kind(a.content) == asset_kind(b.content)
}

/// Whether no two assets are of the same kind and id.
pub open spec fn assets_distinct(assets: Seq<AssetView>) -> bool {
    forall|i: int, j: int|
        0 <= i < j < assets.len() ==> !same_asset(#[trigger] assets[i], #[trigger] assets[j])
}

/// Whether an input is registered and was not unregistered.
pub open spec fn is_live(input: InputView) -> bool {
    input.video.liveness is Registered || input.video.liveness is Streaming
}

impl PipelineView {
    /// Whether an entity of the given kind and id is registered.
    pub open spec fn has_entity(self, kind: EntityKind, id: Seq<char>) -> bool {
        match kind {
            EntityKind::Input => match input_position(self.inputs, id, 0) {
                Some(at) => is_live(self.inputs[at]),
                None => false,
            },
            EntityKind::Output => output_position(self.outputs, id, 0) is Some,
            _ => asset_position(self.assets, kind, id, 0) is Some,
        }
    }

    /// Whether requests are taken: always but after the pipeline was
    /// stopped.
    pub open spec fn accepts_requests(self) -> bool {
        !(self.state is Stopped)
    }

    /// The state after a request was carried out: the first request ends
    /// idleness.
    pub open spec fn state_after_request(self) -> PipelineState {
        if self.state is Idle {
            PipelineState::Configuring
        } else {
            self.state
        }
    }
}


/// The views of a list of assets, one for one.
pub open spec fn asset_views(assets: Seq<Asset>) -> Seq<AssetView> {
    Seq::new(assets.len(), |i: int| assets[i]@)
}

/// The views of a list of inputs, one for one.
pub open spec fn input_views(inputs: Seq<Input>) -> Seq<InputView> {
    Seq::new(inputs.len(), |i: int| inputs[i]@)
}

/// The views of a list of outputs, one for one.
pub open spec fn output_views(outputs: Seq<Output>) -> Seq<OutputView> {
    Seq::new(outputs.len(), |i: int| outputs[i]@)
}

/// The view of an input that was just registered.
pub open spec fn new_input(id: Seq<char>, has_video: bool, has_audio: bool, capacity: usize) -> InputView {
    InputView {
        id,
        has_video,
        has_audio,
        video: SynchronizerView {
            buffer: Seq::empty(),
            selected: None,
            capacity: capacity as nat,
            liveness: Liveness::Registered,
        },
        audio: SynchronizerView {
            buffer: Seq::empty(),
            selected: None,
            capacity: capacity as nat,
            liveness: Liveness::Registered,
        },
    }
}

/// The view of an output that was just registered.
pub open spec fn new_output(id: Seq<char>, params: OutputParams) -> OutputView {
    OutputView {
        id,
        resolution: params.resolution,
        first_pts: params.first_pts,
        framerate: params.framerate,
        ticks_done: 0,
        audio: params.audio@,
        samples_per_tick: params.samples_per_tick,
        scene: None,
        device_lost: false,
    }
}

/// Whether an entity can be registered with these parameters: an input
/// brings video or audio; the framerate of an output is a positive
/// number and the volumes of its audio are between nothing and full.
pub open spec fn params_valid(params: EntityParams) -> bool {
    match params {
        EntityParams::Input { has_video, has_audio } => has_video || has_audio,
        EntityParams::Output(output) => output.framerate.num > 0 && output.framerate.den > 0
            && output.audio.wf(),
        _ => true,
    }
}

/// The kind of entity that is registered with these parameters.
pub open spec fn params_kind(params: EntityParams) -> EntityKind {
    match params {
        EntityParams::Image { .. } => EntityKind::Image,
        EntityParams::Shader { .. } => EntityKind::Shader,
        EntityParams::WebRenderer { .. } => EntityKind::WebRenderer,
        EntityParams::Input { .. } => EntityKind::Input,
        EntityParams::Output(_) => EntityKind::Output,
    }
}

impl PipelineView {
    /// How a request to register an entity ends.
    pub open spec fn register_outcome(self, id: Seq<char>, params: EntityParams) -> Result<
        (),
        ValidationError,
    > {
        if !self.accepts_requests() {
            Err(ValidationError::InvalidState)
        } else if self.has_entity(params_kind(params), id) {
            Err(ValidationError::DuplicateId)
        } else if !params_valid(params) {
            Err(ValidationError::InvalidParams)
        } else {
            Ok(())
        }
    }

    /// The inputs without the input of the given id, if there is one.
    pub open spec fn inputs_without(self, id: Seq<char>) -> Seq<InputView> {
        match input_position(self.inputs, id, 0) {
            Some(at) => self.inputs.remove(at),
            None => self.inputs,
        }
    }

    /// The pipeline after an entity was registered. An input takes the
    /// place of an unregistered input with its id that is still drained.
    pub open spec fn after_register(self, id: Seq<char>, params: EntityParams, capacity: usize) -> Self {
        let state = self.state_after_request();
        match params {
            EntityParams::Image { texture } => PipelineView {
                state,
                assets: self.assets.push(AssetView { id, content: BoundView::Image { texture } }),
                ..self
            },
            EntityParams::Shader { program } => PipelineView {
                state,
                assets: self.assets.push(AssetView { id, content: BoundView::Shader { program } }),
                ..self
            },
            EntityParams::WebRenderer { url } => PipelineView {
                state,
                assets: self.assets.push(
                    AssetView { id, content: BoundView::WebRenderer { url: url@ } },
                ),
                ..self
            },
            EntityParams::Input { has_video, has_audio } => PipelineView {
                state,
                inputs: self.inputs_without(id).push(
                    new_input(id, has_video, has_audio, capacity),
                ),
                ..self
            },
            EntityParams::Output(output) => PipelineView {
                state,
                outputs: self.outputs.push(new_output(id, output)),
                ..self
            },
        }
    }

    /// How a request to unregister an entity ends.
    pub open spec fn unregister_outcome(self, kind: EntityKind, id: Seq<char>) -> Result<
        (),
        ValidationError,
    > {
        if !self.accepts_requests() {
            Err(ValidationError::InvalidState)
        } else if !self.has_entity(kind, id) {
            Err(ValidationError::NotFound)
        } else {
            Ok(())
        }
    }

    /// The pipeline after an entity was unregistered. An image, a
    /// shader, a web renderer or an output leaves the registry. An input
    /// stays for `grace` ticks more and takes in nothing new. Committed
    /// scenes stay as they are.
    pub open spec fn after_unregister(self, kind: EntityKind, id: Seq<char>, grace: u64) -> Self {
        let state = self.state_after_request();
        match kind {
            EntityKind::Input => {
                let at = input_position(self.inputs, id, 0)->0;
                let input = self.inputs[at];
                PipelineView {
                    state,
                    inputs: self.inputs.update(
                        at,
                        InputView {
                            video: input.video.after_removal(grace),
                            audio: input.audio.after_removal(grace),
                            ..input
                        },
                    ),
                    ..self
                }
            },
            EntityKind::Output => PipelineView {
                state,
                outputs: self.outputs.remove(output_position(self.outputs, id, 0)->0),
                ..self
            },
            _ => PipelineView {
                state,
                assets: self.assets.remove(asset_position(self.assets, kind, id, 0)->0),
                ..self
            },
        }
    }

    /// What a node of a scene that is committed now holds: the content of
    /// the entity it shows, or the layout of its children if it is a tiles
    /// node. `None` where the node refers to an entity that is not
    /// registered.
    pub open spec fn bound_for(self, node: NodeView) -> Option<BoundView> {
        match node.kind {
            NodeKindView::Image { image_id } => match asset_position(
                self.assets,
                EntityKind::Image,
                image_id,
                0,
            ) {
                Some(at) => Some(self.assets[at].content),
                None => None,
            },
            NodeKindView::Shader { shader_id } => match asset_position(
                self.assets,
                EntityKind::Shader,
                shader_id,
                0,
            ) {
                Some(at) => Some(self.assets[at].content),
                None => None,
            },
            NodeKindView::WebRenderer { instance_id } => match asset_position(
                self.assets,
                EntityKind::WebRenderer,
                instance_id,
                0,
            ) {
                Some(at) => Some(self.assets[at].content),
                None => None,
            },
            NodeKindView::InputStream { input_id } => if self.has_entity(
                EntityKind::Input,
                input_id,
            ) {
                Some(BoundView::Nothing)
            } else {
                None
            },
            NodeKindView::Tiles { padding, .. } => Some(
                BoundView::Layout { placements: placements(node, padding) },
            ),
            NodeKindView::Unknown => Some(BoundView::Nothing),
        }
    }

    /// Whether every node refers to registered entities only.
    pub open spec fn all_known(self, nodes: Seq<NodeView>) -> bool {
        forall|i: int| 0 <= i < nodes.len() ==> self.bound_for(#[trigger] nodes[i]) is Some
    }

    /// How a request to commit a scene ends: it is turned down if the
    /// pipeline is stopped, if the output is not registered, if the scene
    /// is no valid graph, or if a node refers to an entity that is not
    /// registered, in this order.
    pub open spec fn commit_outcome(self, output_id: Seq<char>, scene: SceneView) -> Result<
        (),
        ValidationError,
    > {
        if !self.accepts_requests() {
            Err(ValidationError::InvalidState)
        } else if output_position(self.outputs, output_id, 0) is None {
            Err(ValidationError::UnknownEntity)
        } else if !valid_graph(scene) {
            Err(ValidationError::InvalidGraph)
        } else if !self.all_known(scene.nodes) {
            Err(ValidationError::UnknownEntity)
        } else {
            Ok(())
        }
    }
}

/// An input after a selection for time `t` in both of its queues.
pub open spec fn advanced(input: InputView, t: u64) -> InputView {
    InputView { video: input.video.after_select(t), audio: input.audio.after_select(t), ..input }
}

/// The frame that an input shows: the one that its video queue has
/// selected, if the input brings video.
pub open spec fn shown_frame(input: InputView) -> InputFrameView {
    InputFrameView {
        input_id: input.id,
        frame: match input.video.selected {
            Some(frame) => if input.has_video {
                Some(ShownFrame { pts: frame.pts, data: frame.data })
            } else {
                None
            },
            None => None,
        },
    }
}

/// The frames that the inputs show, one for one.
pub open spec fn shown_frames(inputs: Seq<InputView>) -> Seq<InputFrameView> {
    Seq::new(inputs.len(), |i: int| shown_frame(inputs[i]))
}

/// The samples that an input adds to a tick at time `t`: those that its
/// audio queue picks for the first time at this tick; none if it picks
/// nothing new or the input brings no audio.
pub open spec fn fresh_samples(input: InputView, t: u64) -> InputSamplesView {
    InputSamplesView {
        input_id: input.id,
        samples: if input.has_audio && input.audio.is_fresh(t) {
            input.audio.after_select(t).selected->0.data@
        } else {
            Seq::empty()
        },
    }
}

/// The samples that the inputs add to a tick at time `t`, one for one.
pub open spec fn all_fresh_samples(inputs: Seq<InputView>, t: u64) -> Seq<InputSamplesView> {
    Seq::new(inputs.len(), |i: int| fresh_samples(inputs[i], t))
}

impl PipelineView {
    /// The pipeline after a video frame arrived for an input: the
    /// frame goes to the video queue of the input if it is registered and
    /// brings video, unless the pipeline is stopped.
    pub open spec fn after_video(self, input_id: Seq<char>, frame: Frame<u64>) -> Self {
        match input_position(self.inputs, input_id, 0) {
            Some(at) => if self.accepts_requests() && self.inputs[at].has_video {
                PipelineView {
                    inputs: self.inputs.update(
                        at,
                        InputView {
                            video: self.inputs[at].video.after_push(frame),
                            ..self.inputs[at]
                        },
                    ),
                    ..self
                }
            } else {
                self
            },
            None => self,
        }
    }

    /// The pipeline after samples arrived for an input: they go to the
    /// audio queue of the input if it is registered and brings audio,
    /// unless the pipeline is stopped.
    pub open spec fn after_audio(self, input_id: Seq<char>, frame: Frame<Vec<i16>>) -> Self {
        match input_position(self.inputs, input_id, 0) {
            Some(at) => if self.accepts_requests() && self.inputs[at].has_audio {
                PipelineView {
                    inputs: self.inputs.update(
                        at,
                        InputView {
                            audio: self.inputs[at].audio.after_push(frame),
                            ..self.inputs[at]
                        },
                    ),
                    ..self
                }
            } else {
                self
            },
            None => self,
        }
    }

    /// The pipeline after a tick at time `t`: every input has made its
    /// selection for `t`.
    pub open spec fn after_tick(self, t: u64) -> Self {
        PipelineView {
            inputs: Seq::new(self.inputs.len(), |i: int| advanced(self.inputs[i], t)),
            ..self
        }
    }

    /// Whether this is the pipeline after `def` was committed to the
    /// output `output_id` of `before` as `scene` with `bounds`: the scene
    /// has the root and the nodes of `def`, children first, and each node
    /// holds what was registered for it.
    pub open spec fn committed_as(
        self,
        before: Self,
        output_id: Seq<char>,
        def: SceneView,
        scene: SceneView,
        bounds: Seq<BoundView>,
    ) -> bool {
        &&& self.is_commit_of(
            before,
            output_position(before.outputs, output_id, 0)->0,
            scene,
            bounds,
        )
        &&& scene.root == def.root
        &&& crate::scene::same_nodes(scene.nodes, def.nodes)
        &&& crate::scene::children_first(scene.nodes)
        &&& bounds.len() == scene.nodes.len()
        &&& forall|k: int|
            0 <= k < bounds.len() ==> Some(#[trigger] bounds[k]) == before.bound_for(scene.nodes[k])
    }

    /// Whether the scene of the output at `o` holds `content` for one of
    /// its nodes.
    pub open spec fn scene_holds(self, o: int, content: BoundView) -> bool {
        match self.outputs[o].scene {
            Some((_, bounds)) => bounds.contains(content),
            None => false,
        }
    }

    /// Whether something of the pipeline holds `content`: an asset of the
    /// registry or a node of a committed scene. What is held is in use,
    /// whether or not it is still registered.
    pub open spec fn holds(self, content: BoundView) -> bool {
        ||| exists|i: int| 0 <= i < self.assets.len() && (#[trigger] self.assets[i]).content == content
        ||| exists|o: int| 0 <= o < self.outputs.len() && #[trigger] self.scene_holds(o, content)
    }

    /// How a request ends.
    pub open spec fn outcome(self, request: Request) -> Result<(), ValidationError> {
        match request {
            Request::Register { id, params } => self.register_outcome(id@, params),
            Request::Unregister { kind, id } => self.unregister_outcome(kind, id@),
            Request::CommitScene { output_id, scene } => self.commit_outcome(output_id@, scene@),
            Request::Start => if self.state is Configuring {
                Ok(())
            } else {
                Err(ValidationError::InvalidState)
            },
        }
    }

    /// The time of the tick that is due next for the output at `at`.
    pub open spec fn next_pts(self, at: int) -> u64 {
        capped(
            tick_time(
                self.outputs[at].first_pts,
                self.outputs[at].framerate,
                self.outputs[at].ticks_done as nat,
            ),
        )
    }

    /// Whether a tick is made for an output, and why not: the pipeline has
    /// to run, the output has to be registered and its device must not be
    /// lost. No input and no other output can keep a tick from being made.
    pub open spec fn tick_outcome(self, output_id: Seq<char>) -> Result<(), TickError> {
        if !(self.state is Running) {
            Err(TickError::NotRunning)
        } else {
            match output_position(self.outputs, output_id, 0) {
                Some(at) => if self.outputs[at].device_lost {
                    Err(TickError::DeviceLost)
                } else {
                    Ok(())
                },
                None => Err(TickError::UnknownOutput),
            }
        }
    }

    /// Whether a tick is made for an output.
    pub open spec fn ticks(self, output_id: Seq<char>) -> bool {
        self.tick_outcome(output_id) is Ok
    }

    /// How a report that the device of an output is lost ends.
    pub open spec fn device_loss_outcome(self, output_id: Seq<char>) -> Result<
        (),
        ValidationError,
    > {
        if !self.accepts_requests() {
            Err(ValidationError::InvalidState)
        } else if output_position(self.outputs, output_id, 0) is None {
            Err(ValidationError::NotFound)
        } else {
            Ok(())
        }
    }

    /// The pipeline after the device of an output was lost: no tick is
    /// made for that output any more. Everything else is as it was.
    pub open spec fn after_device_loss(self, output_id: Seq<char>) -> Self {
        let at = output_position(self.outputs, output_id, 0)->0;
        PipelineView {
            outputs: self.outputs.update(
                at,
                OutputView { device_lost: true, ..self.outputs[at] },
            ),
            ..self
        }
    }

    /// The pipeline without the inputs that are released.
    pub open spec fn after_reclaim(self) -> Self {
        PipelineView { inputs: self.inputs.filter(in_use()), ..self }
    }

    /// Whether the scene of the output at `at` is `scene` with `bounds`,
    /// and everything else is as in `before` after a request.
    pub open spec fn is_commit_of(
        self,
        before: Self,
        at: int,
        scene: SceneView,
        bounds: Seq<BoundView>,
    ) -> bool {
        &&& self.state == before.state_after_request()
        &&& self.assets == before.assets
        &&& self.inputs == before.inputs
        &&& self.outputs == before.outputs.update(
            at,
            OutputView { scene: Some((scene, bounds)), ..before.outputs[at] },
        )
    }
}

/// Holds of the inputs that are not released.
pub open spec fn in_use() -> spec_fn(InputView) -> bool {
    |input: InputView| !(input.video.liveness is Removed && input.audio.liveness is Removed)
}

/// What an output hands on at a tick.
#[derive(Debug)]
pub struct TickOutput {
    /// The time of the tick.
    pub pts: u64,
    /// The steps that render the picture; none if no scene is committed.
    pub plan: Vec<RenderStep>,
    /// The mixed audio.
    pub audio: Vec<i16>,
}

/// The compositing pipeline: what is registered, what has arrived, and
/// what each output shows.
#[derive(Debug)]
pub struct Pipeline {
    state: PipelineState,
    assets: Vec<Asset>,
    inputs: Vec<Input>,
    outputs: Vec<Output>,
    /// How many frames of each kind an input may have waiting.
    queue_capacity: usize,
    /// For how many ticks an unregistered input is still served.
    grace_ticks: u64,
}

impl View for Pipeline {
    type V = PipelineView;

    closed spec fn view(&self) -> PipelineView {
        PipelineView {
            state: self.state,
            assets: asset_views(self.assets@),
            inputs: input_views(self.inputs@),
            outputs: output_views(self.outputs@),
        }
    }
}

/// Whether an input holds together: its queues are well-formed and stand
/// at the same point of the input's life.
pub open spec fn input_wf(input: InputView) -> bool {
    &&& input.video.wf()
    &&& input.audio.wf()
    &&& (input.video.liveness is Registered || input.video.liveness is Streaming) == (
    input.audio.liveness is Registered || input.audio.liveness is Streaming)
}

/// Whether an output holds together: its schedule and audio are valid and
/// its scene, if it has one, is well-formed with something held for each
/// node.
pub open spec fn output_wf(output: Output) -> bool {
    &&& output.schedule.wf()
    &&& output.audio.wf()
    &&& output.scene matches Some(committed) ==> committed.scene.wf() && committed.bounds.len()
        == committed.scene@.nodes.len()
}

impl Pipeline {
    /// Every input and every output holds together, and every asset is
    /// an image, a shader or a web renderer.
    pub closed spec fn wf(&self) -> bool {
        &&& forall|i: int| 0 <= i < self.inputs.len() ==> input_wf((#[trigger] self.inputs[i])@)
        &&& forall|i: int| 0 <= i < self.outputs.len() ==> output_wf(#[trigger] self.outputs[i])
        &&& forall|i: int|
            0 <= i < self.assets.len() ==> asset_kind((#[trigger] self.assets[i]).content@) is Some
        &&& inputs_distinct(input_views(self.inputs@))
        &&& outputs_distinct(output_views(self.outputs@))
        &&& assets_distinct(asset_views(self.assets@))
    }

    /// How many frames of each kind an input may have waiting.
    pub closed spec fn spec_queue_capacity(&self) -> usize {
        self.queue_capacity
    }

    /// For how many ticks an unregistered input is still served.
    pub closed spec fn spec_grace_ticks(&self) -> u64 {
        self.grace_ticks
    }

    /// The outputs as they are held.
    pub closed spec fn spec_outputs(&self) -> Seq<Output> {
        self.outputs@
    }

    /// What holds of every well-formed pipeline: the outputs as they are
    /// held are the outputs of its value and hold together, as do the
    /// inputs; no two inputs and no two outputs share an id; and no two
    /// assets are of the same kind and id.
    pub proof fn lemma_invariants(&self)
        requires
            self.wf(),
        ensures
            output_views(self.spec_outputs()) == self@.outputs,
            forall|i: int|
                0 <= i < self.spec_outputs().len() ==> output_wf(#[trigger] self.spec_outputs()[i]),
            forall|i: int| 0 <= i < self@.inputs.len() ==> input_wf(#[trigger] self@.inputs[i]),
            inputs_distinct(self@.inputs),
            outputs_distinct(self@.outputs),
            assets_distinct(self@.assets),
            forall|i: int|
                0 <= i < self@.assets.len() ==> asset_kind((#[trigger] self@.assets[i]).content) is Some,
    {
        assert forall|i: int| 0 <= i < self@.assets.len() implies asset_kind(
            (#[trigger] self@.assets[i]).content,
        ) is Some by {
            assert(asset_kind(self.assets[i].content@) is Some);
        }
        assert forall|i: int| 0 <= i < self@.inputs.len() implies input_wf(
            #[trigger] self@.inputs[i],
        ) by {
            assert(input_wf(self.inputs[i]@));
        }
    }

    /// An idle pipeline in which nothing is registered. An input may have
    /// `queue_capacity` frames of each kind waiting, and is served for
    /// `grace_ticks` ticks after it was unregistered.
    pub fn new(queue_capacity: usize, grace_ticks: u64) -> (pipeline: Self)
        ensures
            pipeline.wf(),
            pipeline.spec_queue_capacity() == queue_capacity,
            pipeline.spec_grace_ticks() == grace_ticks,
            pipeline@ == (PipelineView {
                state: PipelineState::Idle,
                assets: Seq::empty(),
                inputs: Seq::empty(),
                outputs: Seq::empty(),
            }),
    {
        let pipeline = Self {
            state: PipelineState::Idle,
            assets: Vec::new(),
            inputs: Vec::new(),
            outputs: Vec::new(),
            queue_capacity,
            grace_ticks,
        };
        assert(pipeline@.assets =~= Seq::empty());
        assert(pipeline@.inputs =~= Seq::empty());
        assert(pipeline@.outputs =~= Seq::empty());
        pipeline
    }

    /// Where the pipeline stands in its life.
    pub fn state(&self) -> (state: PipelineState)
        ensures
            state == self@.state,
    {
        self.state
    }

    /// Starts the ticks. Only a pipeline that is being configured can be
    /// started.
    pub fn start(&mut self) -> (res: Result<(), ValidationError>)
        requires
            old(self).wf(),
        ensures
            final(self).wf(),
            final(self).spec_queue_capacity() == old(self).spec_queue_capacity(),
            final(self).spec_grace_ticks() == old(self).spec_grace_ticks(),
            res == old(self)@.outcome(Request::Start),
            res is Ok == old(self)@.state is Configuring,
            res is Ok ==> final(self)@ == (PipelineView {
                state: PipelineState::Running,
                ..old(self)@
            }),
            res matches Err(e) ==> e == ValidationError::InvalidState && final(self)@ == old(
                self,
            )@,
    {
        match self.state {
            PipelineState::Configuring => {
                self.state = PipelineState::Running;
                Ok(())
            },
            _ => Err(ValidationError::InvalidState),
        }
    }

    /// Stops the pipeline for good.
    pub fn stop(&mut self) -> (res: Result<(), ValidationError>)
        requires
            old(self).wf(),
        ensures
            final(self).wf(),
            final(self).spec_queue_capacity() == old(self).spec_queue_capacity(),
            final(self).spec_grace_ticks() == old(self).spec_grace_ticks(),
            res == if old(self)@.state is Stopped {
                Err::<(), ValidationError>(ValidationError::InvalidState)
            } else {
                Ok::<(), ValidationError>(())
            },
            res is Ok == !(old(self)@.state is Stopped),
            res is Ok ==> final(self)@ == (PipelineView {
                state: PipelineState::Stopped,
                ..old(self)@
            }),
            res matches Err(e) ==> e == ValidationError::InvalidState && final(self)@ == old(
                self,
            )@,
    {
        match self.state {
            PipelineState::Stopped => Err(ValidationError::InvalidState),
            _ => {
                self.state = PipelineState::Stopped;
                Ok(())
            },
        }
    }
}


/// What is found for a kind and an id among assets: a position that
/// holds them, or none where no asset holds them.
proof fn lemma_asset_position(assets: Seq<AssetView>, kind: EntityKind, id: Seq<char>, from: int)
    requires
        0 <= from,
    ensures
        match asset_position(assets, kind, id, from) {
            Some(at) => from <= at < assets.len() && assets[at].id == id && asset_kind(
                assets[at].content,
            ) == Some(kind),
            None => forall|j: int|
                from <= j < assets.len() ==> !((#[trigger] assets[j]).id == id && asset_kind(
                    assets[j].content,
                ) == Some(kind)),
        },
    decreases assets.len() - from,
{
    if from < assets.len() && !(assets[from].id == id && asset_kind(assets[from].content) == Some(
        kind,
    )) {
        lemma_asset_position(assets, kind, id, from + 1);
    }
}

/// An asset of a kind and id that no asset has keeps assets distinct.
proof fn lemma_assets_distinct_after_push(assets: Seq<AssetView>, asset: AssetView)
    requires
        assets_distinct(assets),
        asset_kind(asset.content) is Some,
        asset_position(assets, asset_kind(asset.content)->0, asset.id, 0) is None,
    ensures
        assets_distinct(assets.push(asset)),
{
    lemma_asset_position(assets, asset_kind(asset.content)->0, asset.id, 0);
    let longer = assets.push(asset);
    assert forall|i: int, j: int| 0 <= i < j < longer.len() implies !same_asset(
        #[trigger] longer[i],
        #[trigger] longer[j],
    ) by {
        assert(longer[i] == assets[i]);
        if j < assets.len() {
            assert(longer[j] == assets[j]);
        }
    }
}

/// An output with an id that no output has keeps outputs distinct.
proof fn lemma_outputs_distinct_after_push(outputs: Seq<OutputView>, output: OutputView)
    requires
        outputs_distinct(outputs),
        output_position(outputs, output.id, 0) is None,
    ensures
        outputs_distinct(outputs.push(output)),
{
    lemma_output_position(outputs, output.id, 0);
    let longer = outputs.push(output);
    assert forall|i: int, j: int| 0 <= i < j < longer.len() implies (#[trigger] longer[i]).id != (
    #[trigger] longer[j]).id by {
        assert(longer[i] == outputs[i]);
        if j < outputs.len() {
            assert(longer[j] == outputs[j]);
        }
    }
}

/// Leaving out an input keeps the ids of the others distinct.
proof fn lemma_distinct_after_remove(inputs: Seq<InputView>, at: int)
    requires
        inputs_distinct(inputs),
        0 <= at < inputs.len(),
    ensures
        inputs_distinct(inputs.remove(at)),
        forall|j: int|
            0 <= j < inputs.remove(at).len() ==> (#[trigger] inputs.remove(at)[j]).id
                != inputs[at].id,
{
    let shorter = inputs.remove(at);
    assert forall|i: int, j: int| 0 <= i < j < shorter.len() implies (#[trigger] shorter[i]).id != (
    #[trigger] shorter[j]).id by {
        let a = if i < at {
            i
        } else {
            i + 1
        };
        let b = if j < at {
            j
        } else {
            j + 1
        };
        assert(shorter[i] == inputs[a] && shorter[j] == inputs[b]);
    }
    assert forall|j: int| 0 <= j < shorter.len() implies (#[trigger] shorter[j]).id
        != inputs[at].id by {
        let b = if j < at {
            j
        } else {
            j + 1
        };
        assert(shorter[j] == inputs[b]);
        if b < at {
            assert(inputs[b].id != inputs[at].id);
        } else {
            assert(inputs[at].id != inputs[b].id);
        }
    }
}

/// Putting an input in the place of the one with its id keeps ids
/// distinct, and the new input is the one that is found for the id.
proof fn lemma_distinct_after_replace(s: PipelineView, new: InputView)
    requires
        inputs_distinct(s.inputs),
    ensures
        inputs_distinct(s.inputs_without(new.id).push(new)),
        input_position(s.inputs_without(new.id).push(new), new.id, 0) == Some(
            s.inputs_without(new.id).len() as int,
        ),
{
    let without = s.inputs_without(new.id);
    let longer = without.push(new);
    lemma_input_position(s.inputs, new.id, 0);
    match input_position(s.inputs, new.id, 0) {
        Some(at) => {
            lemma_distinct_after_remove(s.inputs, at);
        },
        None => {},
    }
    assert forall|j: int| 0 <= j < without.len() implies (#[trigger] longer[j]).id != new.id by {
        assert(longer[j] == without[j]);
    }
    assert forall|i: int, j: int| 0 <= i < j < longer.len() implies (#[trigger] longer[i]).id != (
    #[trigger] longer[j]).id by {
        assert(longer[i] == without[i]);
        if j < without.len() {
            assert(longer[j] == without[j]);
        }
    }
    lemma_input_position_is(longer, new.id, 0, without.len() as int);
}

fn kind_of(content: &Bound) -> (kind: Option<EntityKind>)
    ensures
        kind == asset_kind(content@),
{
    match content {
        Bound::Nothing => None,
        Bound::Layout { .. } => None,
        Bound::Image { .. } => Some(EntityKind::Image),
        Bound::Shader { .. } => Some(EntityKind::Shader),
        Bound::WebRenderer { .. } => Some(EntityKind::WebRenderer),
    }
}

fn same_kind(a: EntityKind, b: EntityKind) -> (res: bool)
    ensures
        res == (a == b),
{
    a == b
}

fn find_asset(assets: &Vec<Asset>, kind: EntityKind, id: &String) -> (res: Option<usize>)
    ensures
        match res {
            Some(at) => at < assets.len() && asset_position(asset_views(assets@), kind, id@, 0)
                == Some(at as int) && assets[at as int].id@ == id@ && asset_kind(
                assets[at as int].content@,
            ) == Some(kind),
            None => asset_position(asset_views(assets@), kind, id@, 0) is None,
        },
{
    let mut i: usize = 0;
    while i < assets.len()
        invariant
            i <= assets.len(),
            asset_position(asset_views(assets@), kind, id@, 0) == asset_position(
                asset_views(assets@),
                kind,
                id@,
                i as int,
            ),
        decreases assets.len() - i,
    {
        let matches_kind = match kind_of(&assets[i].content) {
            Some(own) => same_kind(own, kind),
            None => false,
        };
        assert(asset_views(assets@)[i as int] == assets[i as int]@);
        if matches_kind && same_text(&assets[i].id, id) {
            return Some(i);
        }
        i += 1;
    }
    None
}

fn find_input(inputs: &Vec<Input>, id: &String) -> (res: Option<usize>)
    ensures
        match res {
            Some(at) => at < inputs.len() && input_position(input_views(inputs@), id@, 0) == Some(
                at as int,
            ) && inputs[at as int].id@ == id@,
            None => input_position(input_views(inputs@), id@, 0) is None,
        },
{
    let mut i: usize = 0;
    while i < inputs.len()
        invariant
            i <= inputs.len(),
            input_position(input_views(inputs@), id@, 0) == input_position(
                input_views(inputs@),
                id@,
                i as int,
            ),
        decreases inputs.len() - i,
    {
        assert(input_views(inputs@)[i as int] == inputs[i as int]@);
        if same_text(&inputs[i].id, id) {
            return Some(i);
        }
        i += 1;
    }
    None
}

fn find_output(outputs: &Vec<Output>, id: &String) -> (res: Option<usize>)
    ensures
        match res {
            Some(at) => at < outputs.len() && output_position(output_views(outputs@), id@, 0)
                == Some(at as int) && outputs[at as int].id@ == id@,
            None => output_position(output_views(outputs@), id@, 0) is None,
        },
{
    let mut i: usize = 0;
    while i < outputs.len()
        invariant
            i <= outputs.len(),
            output_position(output_views(outputs@), id@, 0) == output_position(
                output_views(outputs@),
                id@,
                i as int,
            ),
        decreases outputs.len() - i,
    {
        assert(output_views(outputs@)[i as int] == outputs[i as int]@);
        if same_text(&outputs[i].id, id) {
            return Some(i);
        }
        i += 1;
    }
    None
}

fn input_is_live(input: &Input) -> (res: bool)
    ensures
        res == is_live(input@),
{
    match input.video.liveness() {
        Liveness::Registered | Liveness::Streaming => true,
        _ => false,
    }
}

impl Pipeline {
    /// Whether an entity of the given kind and id is registered.
    pub fn has_entity(&self, kind: EntityKind, id: &String) -> (res: bool)
        ensures
            res == self@.has_entity(kind, id@),
    {
        match kind {
            EntityKind::Input => match find_input(&self.inputs, id) {
                Some(at) => {
                    assert(input_views(self.inputs@)[at as int] == self.inputs[at as int]@);
                    input_is_live(&self.inputs[at])
                },
                None => false,
            },
            EntityKind::Output => find_output(&self.outputs, id).is_some(),
            _ => find_asset(&self.assets, kind, id).is_some(),
        }
    }

    /// The input with the given id, if there is one.
    pub fn input(&self, id: &String) -> (res: Option<&Input>)
        ensures
            res is Some == input_position(self@.inputs, id@, 0) is Some,
            res matches Some(input) ==> input@ == self@.inputs[input_position(
                self@.inputs,
                id@,
                0,
            )->0],
    {
        match find_input(&self.inputs, id) {
            Some(at) => {
                assert(input_views(self.inputs@)[at as int] == self.inputs[at as int]@);
                Some(&self.inputs[at])
            },
            None => None,
        }
    }

    /// The output with the given id, if there is one.
    pub fn output(&self, id: &String) -> (res: Option<&Output>)
        ensures
            res is Some == output_position(self@.outputs, id@, 0) is Some,
            res matches Some(output) ==> output@ == self@.outputs[output_position(
                self@.outputs,
                id@,
                0,
            )->0],
    {
        match find_output(&self.outputs, id) {
            Some(at) => {
                assert(output_views(self.outputs@)[at as int] == self.outputs[at as int]@);
                Some(&self.outputs[at])
            },
            None => None,
        }
    }

    /// Registers an entity. The request is turned down if the pipeline is
    /// stopped, if an entity of that kind and id is registered, or if the
    /// parameters are out of range, in this order; then nothing changes.
    pub fn register_entity(&mut self, id: String, params: EntityParams) -> (res: Result<
        (),
        ValidationError,
    >)
        requires
            old(self).wf(),
        ensures
            final(self).wf(),
            final(self).spec_queue_capacity() == old(self).spec_queue_capacity(),
            final(self).spec_grace_ticks() == old(self).spec_grace_ticks(),
            res == old(self)@.register_outcome(id@, params),
            res is Ok ==> final(self)@ == old(self)@.after_register(
                id@,
                params,
                old(self).spec_queue_capacity(),
            ),
            res is Err ==> final(self)@ == old(self)@,
    {
        if let PipelineState::Stopped = self.state {
            return Err(ValidationError::InvalidState);
        }
        let ghost before = self@;
        match params {
            EntityParams::Image { texture } => {
                if find_asset(&self.assets, EntityKind::Image, &id).is_some() {
                    return Err(ValidationError::DuplicateId);
                }
                self.assets.push(Asset { id, content: Bound::Image { texture } });
                assert(self@.assets =~= before.assets.push(
                    AssetView { id: id@, content: BoundView::Image { texture } },
                ));
                proof {
                    lemma_assets_distinct_after_push(
                        before.assets,
                        AssetView { id: id@, content: BoundView::Image { texture } },
                    );
                }
            },
            EntityParams::Shader { program } => {
                if find_asset(&self.assets, EntityKind::Shader, &id).is_some() {
                    return Err(ValidationError::DuplicateId);
                }
                self.assets.push(Asset { id, content: Bound::Shader { program } });
                assert(self@.assets =~= before.assets.push(
                    AssetView { id: id@, content: BoundView::Shader { program } },
                ));
                proof {
                    lemma_assets_distinct_after_push(
                        before.assets,
                        AssetView { id: id@, content: BoundView::Shader { program } },
                    );
                }
            },
            EntityParams::WebRenderer { url } => {
                if find_asset(&self.assets, EntityKind::WebRenderer, &id).is_some() {
                    return Err(ValidationError::DuplicateId);
                }
                self.assets.push(Asset { id, content: Bound::WebRenderer { url } });
                assert(self@.assets =~= before.assets.push(
                    AssetView { id: id@, content: BoundView::WebRenderer { url: url@ } },
                ));
                proof {
                    lemma_assets_distinct_after_push(
                        before.assets,
                        AssetView { id: id@, content: BoundView::WebRenderer { url: url@ } },
                    );
                }
            },
            EntityParams::Input { has_video, has_audio } => {
                let stale = find_input(&self.inputs, &id);
                if let Some(at) = stale {
                    assert(input_views(self.inputs@)[at as int] == self.inputs[at as int]@);
                    if input_is_live(&self.inputs[at]) {
                        return Err(ValidationError::DuplicateId);
                    }
                }
                if !(has_video || has_audio) {
                    return Err(ValidationError::InvalidParams);
                }
                if let Some(at) = stale {
                    self.inputs.remove(at);
                    assert(input_views(self.inputs@) =~= before.inputs.remove(at as int));
                }
                let input = Input {
                    id,
                    has_video,
                    has_audio,
                    video: FrameSynchronizer::new(self.queue_capacity),
                    audio: FrameSynchronizer::new(self.queue_capacity),
                };
                let ghost shorter = input_views(self.inputs@);
                self.inputs.push(input);
                assert(self@.inputs =~= shorter.push(
                    new_input(id@, has_video, has_audio, self.queue_capacity),
                ));
                proof {
                    lemma_distinct_after_replace(
                        before,
                        new_input(id@, has_video, has_audio, self.queue_capacity),
                    );
                }
            },
            EntityParams::Output(output) => {
                if find_output(&self.outputs, &id).is_some() {
                    return Err(ValidationError::DuplicateId);
                }
                let schedule = match TickSchedule::new(output.first_pts, output.framerate) {
                    Some(schedule) => schedule,
                    None => {
                        return Err(ValidationError::InvalidParams);
                    },
                };
                if !output.audio.is_valid() {
                    return Err(ValidationError::InvalidParams);
                }
                let OutputParams { resolution, framerate, first_pts, audio, samples_per_tick } =
                    output;
                self.outputs.push(
                    Output {
                        id,
                        resolution,
                        schedule,
                        audio,
                        samples_per_tick,
                        scene: None,
                        device_lost: false,
                    },
                );
                assert(self@.outputs =~= before.outputs.push(new_output(id@, output)));
                proof {
                    lemma_outputs_distinct_after_push(before.outputs, new_output(id@, output));
                }
            },
        }
        if let PipelineState::Idle = self.state {
            self.state = PipelineState::Configuring;
        }
        Ok(())
    }

    /// Unregisters an entity. The request is turned down if the pipeline
    /// is stopped or no such entity is registered; then nothing changes.
    /// Scenes that show the entity stay committed: they go on showing an
    /// image or a shader, and the last frame of an input for its time of
    /// grace.
    pub fn unregister_entity(&mut self, kind: EntityKind, id: &String) -> (res: Result<
        (),
        ValidationError,
    >)
        requires
            old(self).wf(),
        ensures
            final(self).wf(),
            final(self).spec_queue_capacity() == old(self).spec_queue_capacity(),
            final(self).spec_grace_ticks() == old(self).spec_grace_ticks(),
            res == old(self)@.unregister_outcome(kind, id@),
            res is Ok ==> final(self)@ == old(self)@.after_unregister(
                kind,
                id@,
                old(self).spec_grace_ticks(),
            ),
            res is Err ==> final(self)@ == old(self)@,
    {
        if let PipelineState::Stopped = self.state {
            return Err(ValidationError::InvalidState);
        }
        let ghost before = self@;
        match kind {
            EntityKind::Input => {
                let at = match find_input(&self.inputs, id) {
                    Some(at) => at,
                    None => {
                        return Err(ValidationError::NotFound);
                    },
                };
                assert(input_views(self.inputs@)[at as int] == self.inputs[at as int]@);
                if !input_is_live(&self.inputs[at]) {
                    return Err(ValidationError::NotFound);
                }
                let mut input = self.inputs.remove(at);
                input.video.remove(self.grace_ticks);
                input.audio.remove(self.grace_ticks);
                self.inputs.insert(at, input);
                assert(self@.inputs =~= before.inputs.update(
                    at as int,
                    InputView {
                        video: before.inputs[at as int].video.after_removal(self.grace_ticks),
                        audio: before.inputs[at as int].audio.after_removal(self.grace_ticks),
                        ..before.inputs[at as int]
                    },
                ));
            },
            EntityKind::Output => {
                let at = match find_output(&self.outputs, id) {
                    Some(at) => at,
                    None => {
                        return Err(ValidationError::NotFound);
                    },
                };
                self.outputs.remove(at);
                assert(self@.outputs =~= before.outputs.remove(at as int));
            },
            _ => {
                let at = match find_asset(&self.assets, kind, id) {
                    Some(at) => at,
                    None => {
                        return Err(ValidationError::NotFound);
                    },
                };
                self.assets.remove(at);
                assert(self@.assets =~= before.assets.remove(at as int));
            },
        }
        if let PipelineState::Idle = self.state {
            self.state = PipelineState::Configuring;
        }
        Ok(())
    }
}


fn clone_bound(bound: &Bound) -> (res: Bound)
    ensures
        res@ == bound@,
{
    match bound {
        Bound::Nothing => Bound::Nothing,
        Bound::Layout { placements } => {
            let mut copy: Vec<crate::layout::Rect> = Vec::new();
            let mut i: usize = 0;
            while i < placements.len()
                invariant
                    i <= placements.len(),
                    copy@ == placements@.take(i as int),
                decreases placements.len() - i,
            {
                copy.push(placements[i]);
                assert(copy@ =~= placements@.take(i as int + 1));
                i += 1;
            }
            assert(placements@.take(placements.len() as int) =~= placements@);
            Bound::Layout { placements: copy }
        },
        Bound::Image { texture } => Bound::Image { texture: *texture },
        Bound::Shader { program } => Bound::Shader { program: *program },
        Bound::WebRenderer { url } => Bound::WebRenderer { url: url.clone() },
    }
}

/// A node of one list is a node of another list that holds the same
/// nodes.
proof fn lemma_known_in_same_nodes(s: PipelineView, a: Seq<NodeView>, b: Seq<NodeView>)
    requires
        crate::scene::same_nodes(a, b),
    ensures
        s.all_known(a) == s.all_known(b),
{
    if s.all_known(a) {
        assert forall|i: int| 0 <= i < b.len() implies s.bound_for(#[trigger] b[i]) is Some by {
            assert(a.contains(b[i]));
            let j = choose|j: int| 0 <= j < a.len() && a[j] == b[i];
            assert(s.bound_for(a[j]) is Some);
        }
    }
    if s.all_known(b) {
        assert forall|i: int| 0 <= i < a.len() implies s.bound_for(#[trigger] a[i]) is Some by {
            assert(b.contains(a[i]));
            let j = choose|j: int| 0 <= j < b.len() && b[j] == a[i];
            assert(s.bound_for(b[j]) is Some);
        }
    }
}

impl Pipeline {
    /// What a node holds of its entity if it is committed now.
    fn bind(&self, node: &NodeDef) -> (res: Option<Bound>)
        ensures
            res is Some == self@.bound_for(node@) is Some,
            res matches Some(bound) ==> Some(bound@) == self@.bound_for(node@),
    {
        match &node.kind {
            NodeKind::Image { image_id } => match find_asset(
                &self.assets,
                EntityKind::Image,
                image_id,
            ) {
                Some(at) => {
                    assert(asset_views(self.assets@)[at as int] == self.assets[at as int]@);
                    Some(clone_bound(&self.assets[at].content))
                },
                None => None,
            },
            NodeKind::Shader { shader_id } => match find_asset(
                &self.assets,
                EntityKind::Shader,
                shader_id,
            ) {
                Some(at) => {
                    assert(asset_views(self.assets@)[at as int] == self.assets[at as int]@);
                    Some(clone_bound(&self.assets[at].content))
                },
                None => None,
            },
            NodeKind::WebRenderer { instance_id } => match find_asset(
                &self.assets,
                EntityKind::WebRenderer,
                instance_id,
            ) {
                Some(at) => {
                    assert(asset_views(self.assets@)[at as int] == self.assets[at as int]@);
                    Some(clone_bound(&self.assets[at].content))
                },
                None => None,
            },
            NodeKind::InputStream { input_id } => {
                if self.has_entity(EntityKind::Input, input_id) {
                    Some(Bound::Nothing)
                } else {
                    None
                }
            },
            NodeKind::Tiles { padding, .. } => Some(
                Bound::Layout { placements: lay_out(node, *padding) },
            ),
            NodeKind::Unknown => Some(Bound::Nothing),
        }
    }

    /// Makes `def` the scene of an output. The whole scene is checked
    /// before anything changes: where the request is turned down, the
    /// output keeps the scene it had. The committed scene holds the nodes
    /// of `def`, and each node holds what is registered for it now.
    pub fn commit_scene(&mut self, output_id: &String, def: &SceneDef) -> (res: Result<
        (),
        ValidationError,
    >)
        requires
            old(self).wf(),
        ensures
            final(self).wf(),
            final(self).spec_queue_capacity() == old(self).spec_queue_capacity(),
            final(self).spec_grace_ticks() == old(self).spec_grace_ticks(),
            res == old(self)@.commit_outcome(output_id@, def@),
            res is Err ==> final(self)@ == old(self)@,
            res is Ok ==> exists|scene: SceneView, bounds: Seq<BoundView>| #[trigger]
                final(self)@.committed_as(old(self)@, output_id@, def@, scene, bounds),
    {
        if let PipelineState::Stopped = self.state {
            return Err(ValidationError::InvalidState);
        }
        let ghost before = self@;
        let at = match find_output(&self.outputs, output_id) {
            Some(at) => at,
            None => {
                return Err(ValidationError::UnknownEntity);
            },
        };
        let scene = match Scene::build(def) {
            Ok(scene) => scene,
            Err(e) => {
                return Err(e);
            },
        };
        proof {
            lemma_known_in_same_nodes(before, scene@.nodes, def@.nodes);
            scene.lemma_wf_is_valid();
        }
        let mut bounds: Vec<Bound> = Vec::new();
        let mut k: usize = 0;
        while k < scene.len()
            invariant
                k <= scene@.nodes.len(),
                *self == *old(self),
                self.wf(),
                self@ == before,
                before.accepts_requests(),
                output_position(before.outputs, output_id@, 0) == Some(at as int),
                valid_graph(def@),
                scene.wf(),
                before.all_known(scene@.nodes) == before.all_known(def@.nodes),
                bounds.len() == k,
                forall|j: int|
                    0 <= j < k ==> Some((#[trigger] bounds[j])@) == before.bound_for(scene@.nodes[j]),
            decreases scene@.nodes.len() - k,
        {
            match self.bind(scene.node(k)) {
                Some(bound) => bounds.push(bound),
                None => {
                    return Err(ValidationError::UnknownEntity);
                },
            }
            k += 1;
        }
        let ghost scene_view = scene@;
        let ghost bounds_view = bound_views(bounds@);
        assert(before.all_known(scene_view.nodes)) by {
            assert forall|i: int| 0 <= i < scene_view.nodes.len() implies before.bound_for(
                #[trigger] scene_view.nodes[i],
            ) is Some by {
                assert(Some(bounds[i]@) == before.bound_for(scene_view.nodes[i]));
            }
        }
        assert forall|j: int| 0 <= j < bounds_view.len() implies Some(#[trigger] bounds_view[j])
            == before.bound_for(scene_view.nodes[j]) by {
            assert(bounds_view[j] == bounds[j]@);
        }
        let output = &mut self.outputs[at];
        output.scene = Some(CommittedScene { scene, bounds });
        if let PipelineState::Idle = self.state {
            self.state = PipelineState::Configuring;
        }
        proof {
            assert(self@.outputs =~= before.outputs.update(
                at as int,
                OutputView { scene: Some((scene_view, bounds_view)), ..before.outputs[at as int] },
            ));
            assert(self@.inputs =~= before.inputs);
            assert(self@.assets =~= before.assets);
            assert(self@.is_commit_of(before, at as int, scene_view, bounds_view));
            assert(self@.committed_as(before, output_id@, def@, scene_view, bounds_view));
        }
        Ok(())
    }

    /// Carries out a request, or turns it down and changes nothing. What
    /// a request changes is what the function that it stands for changes.
    pub fn handle(&mut self, request: Request) -> (res: Result<(), ValidationError>)
        requires
            old(self).wf(),
        ensures
            final(self).wf(),
            final(self).spec_queue_capacity() == old(self).spec_queue_capacity(),
            final(self).spec_grace_ticks() == old(self).spec_grace_ticks(),
            res == old(self)@.outcome(request),
            res is Err ==> final(self)@ == old(self)@,
            res is Ok ==> match request {
                Request::Register { id, params } => final(self)@ == old(self)@.after_register(
                    id@,
                    params,
                    old(self).spec_queue_capacity(),
                ),
                Request::Unregister { kind, id } => final(self)@ == old(self)@.after_unregister(
                    kind,
                    id@,
                    old(self).spec_grace_ticks(),
                ),
                Request::CommitScene { output_id, scene } => exists|
                    committed: SceneView,
                    bounds: Seq<BoundView>,
                | #[trigger]
                    final(self)@.committed_as(old(self)@, output_id@, scene@, committed, bounds),
                Request::Start => final(self)@ == (PipelineView {
                    state: PipelineState::Running,
                    ..old(self)@
                }),
            },
    {
        match request {
            Request::Register { id, params } => self.register_entity(id, params),
            Request::Unregister { kind, id } => self.unregister_entity(kind, &id),
            Request::CommitScene { output_id, scene } => self.commit_scene(&output_id, &scene),
            Request::Start => self.start(),
        }
    }

    /// Takes in a video frame that arrived for an input and says whether
    /// it went into the input's queue.
    pub fn push_video(&mut self, input_id: &String, frame: Frame<u64>) -> (accepted: bool)
        requires
            old(self).wf(),
        ensures
            final(self).wf(),
            final(self).spec_queue_capacity() == old(self).spec_queue_capacity(),
            final(self).spec_grace_ticks() == old(self).spec_grace_ticks(),
            final(self)@ == old(self)@.after_video(input_id@, frame),
            accepted == (old(self)@.accepts_requests() && (match input_position(
                old(self)@.inputs,
                input_id@,
                0,
            ) {
                Some(at) => old(self)@.inputs[at].has_video && old(self)@.inputs[at].video.accepts(
                    frame,
                ),
                None => false,
            })),
    {
        if let PipelineState::Stopped = self.state {
            return false;
        }
        let ghost before = self@;
        match find_input(&self.inputs, input_id) {
            Some(at) => {
                assert(input_views(self.inputs@)[at as int] == self.inputs[at as int]@);
                if !self.inputs[at].has_video {
                    return false;
                }
                let input = &mut self.inputs[at];
                let accepted = input.video.push(frame);
                assert(self@.inputs =~= before.inputs.update(
                    at as int,
                    InputView {
                        video: before.inputs[at as int].video.after_push(frame),
                        ..before.inputs[at as int]
                    },
                ));
                accepted
            },
            None => false,
        }
    }

    /// Takes in samples that arrived for an input and says whether they
    /// went into the input's queue.
    pub fn push_audio(&mut self, input_id: &String, frame: Frame<Vec<i16>>) -> (accepted: bool)
        requires
            old(self).wf(),
        ensures
            final(self).wf(),
            final(self).spec_queue_capacity() == old(self).spec_queue_capacity(),
            final(self).spec_grace_ticks() == old(self).spec_grace_ticks(),
            final(self)@ == old(self)@.after_audio(input_id@, frame),
            accepted == (old(self)@.accepts_requests() && (match input_position(
                old(self)@.inputs,
                input_id@,
                0,
            ) {
                Some(at) => old(self)@.inputs[at].has_audio && old(self)@.inputs[at].audio.accepts(
                    frame,
                ),
                None => false,
            })),
    {
        if let PipelineState::Stopped = self.state {
            return false;
        }
        let ghost before = self@;
        match find_input(&self.inputs, input_id) {
            Some(at) => {
                assert(input_views(self.inputs@)[at as int] == self.inputs[at as int]@);
                if !self.inputs[at].has_audio {
                    return false;
                }
                let input = &mut self.inputs[at];
                let accepted = input.audio.push(frame);
                assert(self@.inputs =~= before.inputs.update(
                    at as int,
                    InputView {
                        audio: before.inputs[at as int].audio.after_push(frame),
                        ..before.inputs[at as int]
                    },
                ));
                accepted
            },
            None => false,
        }
    }
}


fn copy_samples(samples: &Vec<i16>) -> (res: Vec<i16>)
    ensures
        res@ == samples@,
{
    let mut res: Vec<i16> = Vec::new();
    let mut i: usize = 0;
    while i < samples.len()
        invariant
            i <= samples.len(),
            res@ == samples@.take(i as int),
        decreases samples.len() - i,
    {
        res.push(samples[i]);
        assert(res@ =~= samples@.take(i as int + 1));
        i += 1;
    }
    assert(samples@.take(samples.len() as int) =~= samples@);
    res
}

/// A selection leaves an input that holds together holding together.
proof fn lemma_advanced_wf(input: InputView, t: u64)
    requires
        input_wf(input),
    ensures
        input_wf(advanced(input, t)),
{
    crate::queue::lemma_steps_keep_wf(input.video, arbitrary(), t, 0);
    crate::queue::lemma_steps_keep_wf(input.audio, arbitrary(), t, 0);
}

impl Pipeline {
    /// Makes the tick that is due for an output: every input makes its
    /// selection for the time of the tick, the scene of the output is
    /// turned into the steps that render it from what the inputs show,
    /// and what the inputs newly have of audio is mixed. No tick is made,
    /// and nothing changes, if the pipeline does not run, the output is
    /// not registered, or the device of the output is lost.
    pub fn tick(&mut self, output_id: &String) -> (res: Result<TickOutput, TickError>)
        requires
            old(self).wf(),
        ensures
            final(self).wf(),
            final(self).spec_queue_capacity() == old(self).spec_queue_capacity(),
            final(self).spec_grace_ticks() == old(self).spec_grace_ticks(),
            final(self).spec_outputs() == old(self).spec_outputs(),
            res is Ok == old(self)@.ticks(output_id@),
            res matches Err(e) ==> Err::<(), TickError>(e) == old(self)@.tick_outcome(output_id@)
                && final(self)@ == old(self)@,
            res matches Ok(out) ==> ({
                let at = output_position(old(self)@.outputs, output_id@, 0)->0;
                let output = old(self)@.outputs[at];
                let t = old(self)@.next_pts(at);
                &&& out.pts == t
                &&& final(self)@ == old(self)@.after_tick(t)
                &&& match old(self).spec_outputs()[at].scene {
                    Some(committed) => is_plan(
                        &committed.scene,
                        bound_views(committed.bounds@),
                        shown_frames(final(self)@.inputs),
                        out.plan@,
                    ),
                    None => out.plan.len() == 0,
                }
                &&& out.audio.len() == output.samples_per_tick
                &&& forall|k: int|
                    0 <= k < out.audio.len() ==> (#[trigger] out.audio[k]) as int == mixed_sample(
                        output.audio,
                        all_fresh_samples(old(self)@.inputs, t),
                        output.samples_per_tick as int,
                        k,
                    )
            }),
    {
        match self.state {
            PipelineState::Running => {},
            _ => {
                return Err(TickError::NotRunning);
            },
        }
        let ghost before = self@;
        let at = match find_output(&self.outputs, output_id) {
            Some(at) => at,
            None => {
                return Err(TickError::UnknownOutput);
            },
        };
        assert(output_views(self.outputs@)[at as int] == self.outputs[at as int]@);
        if self.outputs[at].device_lost {
            return Err(TickError::DeviceLost);
        }
        let t = self.outputs[at].schedule.next_pts();
        let mut frames: Vec<InputFrame> = Vec::new();
        let mut available: Vec<InputSamples> = Vec::new();
        let mut i: usize = 0;
        while i < self.inputs.len()
            invariant
                i <= self.inputs.len(),
                self.inputs.len() == old(self).inputs.len(),
                self.state == old(self).state,
                self.outputs == old(self).outputs,
                self.assets == old(self).assets,
                self.queue_capacity == old(self).queue_capacity,
                self.grace_ticks == old(self).grace_ticks,
                old(self).wf(),
                before == old(self)@,
                forall|j: int|
                    0 <= j < i ==> (#[trigger] self.inputs[j])@ == advanced(old(self).inputs[j]@, t),
                forall|j: int|
                    i <= j < self.inputs.len() ==> (#[trigger] self.inputs[j]) == old(self).inputs[j],
                frames.len() == i,
                available.len() == i,
                forall|j: int|
                    0 <= j < i ==> (#[trigger] frames[j])@ == shown_frame(self.inputs[j]@),
                forall|j: int|
                    0 <= j < i ==> (#[trigger] available[j])@ == fresh_samples(
                        old(self).inputs[j]@,
                        t,
                    ),
            decreases self.inputs.len() - i,
        {
            let ghost earlier = self.inputs@;
            assert(input_wf(old(self).inputs[i as int]@));
            let input = &mut self.inputs[i];
            let _ = input.video.advance(t);
            let fresh = input.audio.advance(t);
            let shown = match input.video.selected() {
                Some(frame) => if input.has_video {
                    Some(ShownFrame { pts: frame.pts, data: frame.data })
                } else {
                    None
                },
                None => None,
            };
            let samples = if input.has_audio && fresh {
                match input.audio.selected() {
                    Some(frame) => copy_samples(&frame.data),
                    None => Vec::new(),
                }
            } else {
                Vec::new()
            };
            frames.push(InputFrame { input_id: input.id.clone(), frame: shown });
            available.push(InputSamples { input_id: input.id.clone(), samples });
            assert forall|j: int| 0 <= j < i implies (#[trigger] self.inputs[j])@ == advanced(
                old(self).inputs[j]@,
                t,
            ) by {
                assert(self.inputs[j] == earlier[j]);
            }
            i += 1;
        }
        proof {
            assert(self@.inputs =~= before.after_tick(t).inputs);
            assert(self@.outputs =~= before.outputs);
            assert(self@.assets =~= before.assets);
            assert forall|j: int| 0 <= j < self.inputs.len() implies input_wf(
                (#[trigger] self.inputs[j])@,
            ) by {
                lemma_advanced_wf(old(self).inputs[j]@, t);
            }
            assert(frame_views(frames@) =~= shown_frames(self@.inputs));
            assert(samples_views(available@) =~= all_fresh_samples(before.inputs, t));
        }
        let output = &self.outputs[at];
        assert(output_wf(*output));
        let plan = match &output.scene {
            Some(committed) => render_plan(&committed.scene, &committed.bounds, &frames),
            None => Vec::new(),
        };
        let audio = mix_samples(&output.audio, &available, output.samples_per_tick);
        Ok(TickOutput { pts: t, plan, audio })
    }

    /// Records that the tick that was due for an output is done, at time
    /// `now`, and says when to make the next one. `None`, and nothing
    /// changes, if the pipeline does not run, the output is not
    /// registered, its device is lost, or the count of its ticks is at
    /// its end.
    pub fn complete_tick(&mut self, output_id: &String, now: u64) -> (res: Option<Pacing>)
        requires
            old(self).wf(),
        ensures
            final(self).wf(),
            final(self).spec_queue_capacity() == old(self).spec_queue_capacity(),
            final(self).spec_grace_ticks() == old(self).spec_grace_ticks(),
            res is Some == (old(self)@.ticks(output_id@) && old(self)@.outputs[output_position(
                old(self)@.outputs,
                output_id@,
                0,
            )->0].ticks_done < u64::MAX),
            res is None ==> final(self)@ == old(self)@,
            res matches Some(pacing) ==> ({
                let at = output_position(old(self)@.outputs, output_id@, 0)->0;
                let output = old(self)@.outputs[at];
                &&& final(self)@ == (PipelineView {
                    outputs: old(self)@.outputs.update(
                        at,
                        OutputView { ticks_done: (output.ticks_done + 1) as u64, ..output },
                    ),
                    ..old(self)@
                })
                &&& pacing.next_pts == final(self)@.next_pts(at)
                &&& pacing.late == (now > pacing.next_pts)
                &&& pacing.wait == if now > pacing.next_pts {
                    0
                } else {
                    pacing.next_pts - now
                }
            }),
    {
        match self.state {
            PipelineState::Running => {},
            _ => {
                return None;
            },
        }
        let ghost before = self@;
        let at = match find_output(&self.outputs, output_id) {
            Some(at) => at,
            None => {
                return None;
            },
        };
        assert(output_views(self.outputs@)[at as int] == self.outputs[at as int]@);
        assert(output_wf(self.outputs[at as int]));
        if self.outputs[at].device_lost {
            return None;
        }
        if self.outputs[at].schedule.is_last() {
            return None;
        }
        let output = &mut self.outputs[at];
        let mut schedule = output.schedule;
        let pacing = schedule.complete_tick(now);
        output.schedule = schedule;
        proof {
            assert(self@.outputs =~= before.outputs.update(
                at as int,
                OutputView {
                    ticks_done: (before.outputs[at as int].ticks_done + 1) as u64,
                    ..before.outputs[at as int]
                },
            ));
            assert(self@.inputs =~= before.inputs);
            assert(self@.assets =~= before.assets);
        }
        Some(pacing)
    }

    /// Takes note that the device that an output renders on is lost. No
    /// tick is made for that output from now on; the other outputs go
    /// on. The report is turned down if the pipeline is stopped or the
    /// output is not registered; then nothing changes.
    pub fn report_device_loss(&mut self, output_id: &String) -> (res: Result<(), ValidationError>)
        requires
            old(self).wf(),
        ensures
            final(self).wf(),
            final(self).spec_queue_capacity() == old(self).spec_queue_capacity(),
            final(self).spec_grace_ticks() == old(self).spec_grace_ticks(),
            res == old(self)@.device_loss_outcome(output_id@),
            res is Ok ==> final(self)@ == old(self)@.after_device_loss(output_id@),
            res is Err ==> final(self)@ == old(self)@,
    {
        if let PipelineState::Stopped = self.state {
            return Err(ValidationError::InvalidState);
        }
        let ghost before = self@;
        let at = match find_output(&self.outputs, output_id) {
            Some(at) => at,
            None => {
                return Err(ValidationError::NotFound);
            },
        };
        assert(output_views(self.outputs@)[at as int] == self.outputs[at as int]@);
        assert(output_wf(self.outputs[at as int]));
        let output = &mut self.outputs[at];
        output.device_lost = true;
        proof {
            assert(self@.outputs =~= before.outputs.update(
                at as int,
                OutputView { device_lost: true, ..before.outputs[at as int] },
            ));
            assert(self@.inputs =~= before.inputs);
            assert(self@.assets =~= before.assets);
        }
        Ok(())
    }

    /// Whether the texture is in use: an image that is registered has it,
    /// or an image node of a committed scene shows it. A texture that is
    /// not in use any more can be given back.
    pub fn holds_texture(&self, texture: u64) -> (res: bool)
        requires
            self.wf(),
        ensures
            res == self@.holds(BoundView::Image { texture }),
    {
        let ghost content = BoundView::Image { texture };
        let mut i: usize = 0;
        while i < self.assets.len()
            invariant
                i <= self.assets.len(),
                content == (BoundView::Image { texture }),
                forall|j: int| 0 <= j < i ==> (#[trigger] self@.assets[j]).content != content,
            decreases self.assets.len() - i,
        {
            assert(self@.assets[i as int] == self.assets[i as int]@);
            if let Bound::Image { texture: own } = &self.assets[i].content {
                if *own == texture {
                    return true;
                }
            }
            i += 1;
        }
        let mut o: usize = 0;
        while o < self.outputs.len()
            invariant
                o <= self.outputs.len(),
                content == (BoundView::Image { texture }),
                forall|j: int|
                    0 <= j < self.assets.len() ==> (#[trigger] self@.assets[j]).content != content,
                forall|j: int| 0 <= j < o ==> !#[trigger] self@.scene_holds(j, content),
            decreases self.outputs.len() - o,
        {
            assert(self@.outputs[o as int] == self.outputs[o as int]@);
            if let Some(committed) = &self.outputs[o].scene {
                let ghost bounds = bound_views(committed.bounds@);
                let mut k: usize = 0;
                while k < committed.bounds.len()
                    invariant
                        k <= committed.bounds.len(),
                        o < self.outputs.len(),
                        content == (BoundView::Image { texture }),
                        bounds == bound_views(committed.bounds@),
                        self@.outputs[o as int].scene == Some((committed.scene@, bounds)),
                        forall|j: int| 0 <= j < k ==> (#[trigger] bounds[j]) != content,
                    decreases committed.bounds.len() - k,
                {
                    assert(bounds[k as int] == committed.bounds[k as int]@);
                    if let Bound::Image { texture: own } = &committed.bounds[k] {
                        if *own == texture {
                            assert(self@.scene_holds(o as int, content));
                            return true;
                        }
                    }
                    k += 1;
                }
            }
            o += 1;
        }
        false
    }

    /// Drops the inputs that are released, and says how many they were.
    pub fn reclaim(&mut self) -> (dropped: usize)
        requires
            old(self).wf(),
        ensures
            final(self).wf(),
            final(self).spec_queue_capacity() == old(self).spec_queue_capacity(),
            final(self).spec_grace_ticks() == old(self).spec_grace_ticks(),
            final(self)@ == old(self)@.after_reclaim(),
            dropped == old(self)@.inputs.len() - final(self)@.inputs.len(),
    {
        let ghost before = input_views(self.inputs@);
        let ghost pred = in_use();
        let ghost n = self.inputs.len();
        let mut i: usize = 0;
        let mut dropped: usize = 0;
        proof {
            lemma_filter_none(before, pred);
            assert(input_views(self.inputs@) =~= before.take(0).filter(pred) + before.skip(0));
        }
        while i < self.inputs.len()
            invariant
                i <= self.inputs.len(),
                self.state == old(self).state,
                self.outputs == old(self).outputs,
                self.assets == old(self).assets,
                self.queue_capacity == old(self).queue_capacity,
                self.grace_ticks == old(self).grace_ticks,
                before == input_views(old(self).inputs@),
                n == before.len(),
                pred == in_use(),
                i + dropped <= n,
                self.inputs.len() == n - dropped,
                before.take(i + dropped).filter(pred).len() == i,
                input_views(self.inputs@) == before.take(i + dropped).filter(pred) + before.skip(
                    i + dropped,
                ),
                inputs_distinct(input_views(self.inputs@)),
                forall|j: int| 0 <= j < self.inputs.len() ==> input_wf((#[trigger] self.inputs[j])@),
            decreases self.inputs.len() - i,
        {
            let ghost current = input_views(self.inputs@);
            let ghost j = (i + dropped) as int;
            proof {
                lemma_filter_step(before, pred, j);
                assert(current[i as int] == before[j]);
                assert(current[i as int] == self.inputs[i as int]@);
            }
            let video_gone = match self.inputs[i].video.liveness() {
                Liveness::Removed => true,
                _ => false,
            };
            let audio_gone = match self.inputs[i].audio.liveness() {
                Liveness::Removed => true,
                _ => false,
            };
            if video_gone && audio_gone {
                assert(!pred(before[j]));
                proof {
                    lemma_distinct_after_remove(current, i as int);
                }
                self.inputs.remove(i);
                dropped += 1;
                assert(input_views(self.inputs@) =~= current.remove(i as int));
                assert(current.remove(i as int) =~= before.take(j + 1).filter(pred) + before.skip(
                    j + 1,
                ));
            } else {
                assert(pred(before[j]));
                assert(input_views(self.inputs@) =~= before.take(j + 1).filter(pred) + before.skip(
                    j + 1,
                ));
                i += 1;
            }
        }
        proof {
            assert(before.take(n as int) =~= before);
            assert(before.skip(n as int) =~= Seq::<InputView>::empty());
            assert(self@.inputs =~= before.filter(pred));
        }
        dropped
    }
}


/// Whether a node shows the entity of the given kind and id.
pub open spec fn refers_to(node: NodeView, kind: EntityKind, id: Seq<char>) -> bool {
    match node.kind {
        NodeKindView::Image { image_id } => kind == EntityKind::Image && image_id == id,
        NodeKindView::Shader { shader_id } => kind == EntityKind::Shader && shader_id == id,
        NodeKindView::WebRenderer { instance_id } => kind == EntityKind::WebRenderer && instance_id
            == id,
        NodeKindView::InputStream { input_id } => kind == EntityKind::Input && input_id == id,
        _ => false,
    }
}

/// A scene with a node that refers to an entity that is not registered
/// is turned down, whatever else holds of the request.
pub proof fn lemma_unknown_entity_is_rejected(
    s: PipelineView,
    output_id: Seq<char>,
    scene: SceneView,
    i: int,
)
    requires
        0 <= i < scene.nodes.len(),
        s.bound_for(scene.nodes[i]) is None,
    ensures
        s.commit_outcome(output_id, scene) is Err,
{
}

proof fn lemma_asset_position_push(
    assets: Seq<AssetView>,
    asset: AssetView,
    kind: EntityKind,
    id: Seq<char>,
    from: int,
)
    requires
        0 <= from <= assets.len(),
    ensures
        asset_position(assets, kind, id, from) is Some ==> asset_position(
            assets.push(asset),
            kind,
            id,
            from,
        ) == asset_position(assets, kind, id, from),
        asset.id == id && asset_kind(asset.content) == Some(kind) ==> asset_position(
            assets.push(asset),
            kind,
            id,
            from,
        ) is Some,
        asset_position(assets, kind, id, from) is None && asset.id == id && asset_kind(
            asset.content,
        ) == Some(kind) ==> asset_position(assets.push(asset), kind, id, from) == Some(
            assets.len() as int,
        ),
    decreases assets.len() - from,
{
    let longer = assets.push(asset);
    if from < assets.len() {
        assert(longer[from] == assets[from]);
        if !(assets[from].id == id && asset_kind(assets[from].content) == Some(kind)) {
            lemma_asset_position_push(assets, asset, kind, id, from + 1);
        }
    } else {
        assert(longer[from] == asset);
        if !(asset.id == id && asset_kind(asset.content) == Some(kind)) {
            assert(asset_position(longer, kind, id, from + 1) is None);
        }
    }
}

/// What is found for an id among inputs: a position that holds the id,
/// before which no input holds it.
proof fn lemma_input_position(inputs: Seq<InputView>, id: Seq<char>, from: int)
    requires
        0 <= from,
    ensures
        match input_position(inputs, id, from) {
            Some(at) => from <= at < inputs.len() && inputs[at].id == id && forall|j: int|
                from <= j < at ==> (#[trigger] inputs[j]).id != id,
            None => forall|j: int| from <= j < inputs.len() ==> (#[trigger] inputs[j]).id != id,
        },
    decreases inputs.len() - from,
{
    if from < inputs.len() && inputs[from].id != id {
        lemma_input_position(inputs, id, from + 1);
    }
}

/// Where the first input with an id stands, that is what is found.
proof fn lemma_input_position_is(inputs: Seq<InputView>, id: Seq<char>, from: int, at: int)
    requires
        0 <= from <= at < inputs.len(),
        inputs[at].id == id,
        forall|j: int| from <= j < at ==> (#[trigger] inputs[j]).id != id,
    ensures
        input_position(inputs, id, from) == Some(at),
    decreases at - from,
{
    if from < at {
        lemma_input_position_is(inputs, id, from + 1, at);
    }
}

/// Registering an input leaves the inputs with other ids registered.
proof fn lemma_other_inputs_stay(
    s: PipelineView,
    id: Seq<char>,
    has_video: bool,
    has_audio: bool,
    capacity: usize,
    other: Seq<char>,
)
    requires
        other != id,
        s.has_entity(EntityKind::Input, other),
    ensures
        ({
            let inputs = s.inputs_without(id).push(new_input(id, has_video, has_audio, capacity));
            input_position(inputs, other, 0) is Some && is_live(
                inputs[input_position(inputs, other, 0)->0],
            )
        }),
{
    let inputs = s.inputs_without(id).push(new_input(id, has_video, has_audio, capacity));
    lemma_input_position(s.inputs, other, 0);
    lemma_input_position(s.inputs, id, 0);
    let at = input_position(s.inputs, other, 0)->0;
    match input_position(s.inputs, id, 0) {
        Some(gone) => {
            let to = if at < gone {
                at
            } else {
                at - 1
            };
            assert(inputs[to] == s.inputs[at]);
            assert forall|j: int| 0 <= j < to implies (#[trigger] inputs[j]).id != other by {
                if j < gone {
                    assert(inputs[j] == s.inputs[j]);
                } else {
                    assert(inputs[j] == s.inputs[j + 1]);
                }
            }
            lemma_input_position_is(inputs, other, 0, to);
        },
        None => {
            assert(inputs[at] == s.inputs[at]);
            assert forall|j: int| 0 <= j < at implies (#[trigger] inputs[j]).id != other by {
                assert(inputs[j] == s.inputs[j]);
            }
            lemma_input_position_is(inputs, other, 0, at);
        },
    }
}

/// Once the entity is registered for whose absence a scene was turned
/// down, the same scene is committed.
pub proof fn lemma_commit_succeeds_once_registered(
    s: PipelineView,
    output_id: Seq<char>,
    scene: SceneView,
    id: Seq<char>,
    params: EntityParams,
    capacity: usize,
)
    requires
        inputs_distinct(s.inputs),
        s.commit_outcome(output_id, scene) == Err::<(), ValidationError>(
            ValidationError::UnknownEntity,
        ),
        output_position(s.outputs, output_id, 0) is Some,
        s.register_outcome(id, params) is Ok,
        !(params is Output),
        forall|i: int|
            0 <= i < scene.nodes.len() && s.bound_for(#[trigger] scene.nodes[i]) is None
                ==> refers_to(scene.nodes[i], params_kind(params), id),
    ensures
        s.after_register(id, params, capacity).commit_outcome(output_id, scene) is Ok,
{
    let after = s.after_register(id, params, capacity);
    assert forall|i: int| 0 <= i < scene.nodes.len() implies after.bound_for(
        #[trigger] scene.nodes[i],
    ) is Some by {
        let node = scene.nodes[i];
        match params {
            EntityParams::Input { has_video, has_audio } => {
                match node.kind {
                    NodeKindView::InputStream { input_id } => {
                        if input_id == id {
                            lemma_distinct_after_replace(
                                s,
                                new_input(id, has_video, has_audio, capacity),
                            );
                        } else {
                            lemma_other_inputs_stay(s, id, has_video, has_audio, capacity, input_id);
                        }
                    },
                    _ => {},
                }
            },
            EntityParams::Image { texture } => {
                let asset = AssetView { id, content: BoundView::Image { texture } };
                lemma_asset_positions_after_push(s.assets, asset, node);
            },
            EntityParams::Shader { program } => {
                let asset = AssetView { id, content: BoundView::Shader { program } };
                lemma_asset_positions_after_push(s.assets, asset, node);
            },
            EntityParams::WebRenderer { url } => {
                let asset = AssetView { id, content: BoundView::WebRenderer { url: url@ } };
                lemma_asset_positions_after_push(s.assets, asset, node);
            },
            EntityParams::Output(_) => {},
        }
    }
}

/// What a new asset changes for the assets that a node may show.
proof fn lemma_asset_positions_after_push(assets: Seq<AssetView>, asset: AssetView, node: NodeView)
    ensures
        forall|kind: EntityKind, id: Seq<char>|
            #![trigger asset_position(assets.push(asset), kind, id, 0)]
            (asset_position(assets, kind, id, 0) is Some || (asset.id == id && asset_kind(
                asset.content,
            ) == Some(kind))) ==> asset_position(assets.push(asset), kind, id, 0) is Some,
{
    assert forall|kind: EntityKind, id: Seq<char>|
        #![trigger asset_position(assets.push(asset), kind, id, 0)]
        (asset_position(assets, kind, id, 0) is Some || (asset.id == id && asset_kind(
            asset.content,
        ) == Some(kind))) implies asset_position(assets.push(asset), kind, id, 0) is Some by {
        lemma_asset_position_push(assets, asset, kind, id, 0);
    }
}

/// The frame that is found for an id among what the inputs show is the
/// frame that the first input with that id shows.
proof fn lemma_frame_of_shown(inputs: Seq<InputView>, id: Seq<char>, from: int)
    requires
        0 <= from,
    ensures
        frame_of(shown_frames(inputs), id, from) == match input_position(inputs, id, from) {
            Some(at) => shown_frame(inputs[at]).frame,
            None => None,
        },
    decreases inputs.len() - from,
{
    if from < inputs.len() {
        assert(shown_frames(inputs)[from] == shown_frame(inputs[from]));
        if inputs[from].id != id {
            lemma_frame_of_shown(inputs, id, from + 1);
        }
    }
}

/// Inputs with the same ids are found at the same positions.
proof fn lemma_same_ids_same_positions(
    a: Seq<InputView>,
    b: Seq<InputView>,
    id: Seq<char>,
    from: int,
)
    requires
        0 <= from,
        a.len() == b.len(),
        forall|j: int| 0 <= j < a.len() ==> (#[trigger] a[j]).id == b[j].id,
    ensures
        input_position(a, id, from) == input_position(b, id, from),
    decreases a.len() - from,
{
    if from < a.len() {
        assert(a[from].id == b[from].id);
        if a[from].id != id {
            lemma_same_ids_same_positions(a, b, id, from + 1);
        }
    }
}

/// Unregistering an input does not stop the ticks of any output and
/// takes no scene away. At the next tick every other input shows the
/// frame it would have shown, and so does the unregistered input itself
/// if it has a time of grace.
pub proof fn lemma_unregistered_input_keeps_ticks(
    s: PipelineView,
    input_id: Seq<char>,
    grace: u64,
    output_id: Seq<char>,
    t: u64,
    other: Seq<char>,
)
    requires
        s.unregister_outcome(EntityKind::Input, input_id) is Ok,
    ensures
        ({
            let u = s.after_unregister(EntityKind::Input, input_id, grace);
            &&& u.ticks(output_id) == s.ticks(output_id)
            &&& u.outputs == s.outputs
            &&& (other != input_id || grace > 0) ==> frame_of(
                shown_frames(u.after_tick(t).inputs),
                other,
                0,
            ) == frame_of(shown_frames(s.after_tick(t).inputs), other, 0)
        }),
{
    let u = s.after_unregister(EntityKind::Input, input_id, grace);
    let a = u.after_tick(t).inputs;
    let b = s.after_tick(t).inputs;
    lemma_input_position(s.inputs, input_id, 0);
    let at = input_position(s.inputs, input_id, 0)->0;
    assert forall|j: int| 0 <= j < a.len() implies (#[trigger] a[j]).id == b[j].id by {
        if j != at {
            assert(u.inputs[j] == s.inputs[j]);
        }
    }
    lemma_same_ids_same_positions(a, b, other, 0);
    lemma_frame_of_shown(a, other, 0);
    lemma_frame_of_shown(b, other, 0);
    lemma_input_position(a, other, 0);
    match input_position(a, other, 0) {
        Some(p) => {
            if p != at {
                assert(u.inputs[p] == s.inputs[p]);
                assert(a[p] == b[p]);
            } else {
                assert(a[p].id == input_id);
            }
        },
        None => {},
    }
}

/// A tiles node of a committed scene puts its children where a layout
/// made at the tick would put them: the layout that was made when the
/// scene was committed is the one to use for as long as the scene stays.
pub proof fn lemma_committed_layout_is_current(
    s: PipelineView,
    node: NodeView,
    frames: Seq<InputFrameView>,
)
    requires
        node.kind is Tiles,
    ensures
        s.bound_for(node) is Some,
        node_op(node, s.bound_for(node)->0, frames) == node_op(node, BoundView::Nothing, frames),
        node_op(node, s.bound_for(node)->0, frames) matches RenderOpView::Tiles { placements: p, .. }
            && p == placements(node, node.kind->Tiles_padding),
{
}

/// What a committed scene holds stays in use when an image, a shader, a
/// web renderer or an input is unregistered: the scene goes on showing it.
pub proof fn lemma_scenes_keep_what_they_hold(
    s: PipelineView,
    kind: EntityKind,
    id: Seq<char>,
    grace: u64,
    content: BoundView,
    o: int,
)
    requires
        !(kind is Output),
        0 <= o < s.outputs.len(),
        s.scene_holds(o, content),
    ensures
        s.after_unregister(kind, id, grace).outputs == s.outputs,
        s.after_unregister(kind, id, grace).holds(content),
{
    let u = s.after_unregister(kind, id, grace);
    assert(u.scene_holds(o, content));
}

/// A stopped pipeline stays as it is: every request is turned down, no
/// frame is taken in and no tick is made.
pub proof fn lemma_stopped_is_terminal(
    s: PipelineView,
    id: Seq<char>,
    params: EntityParams,
    kind: EntityKind,
    scene: SceneView,
    video: Frame<u64>,
    audio: Frame<Vec<i16>>,
)
    requires
        s.state is Stopped,
    ensures
        s.register_outcome(id, params) == Err::<(), ValidationError>(ValidationError::InvalidState),
        s.unregister_outcome(kind, id) == Err::<(), ValidationError>(
            ValidationError::InvalidState,
        ),
        s.commit_outcome(id, scene) == Err::<(), ValidationError>(ValidationError::InvalidState),
        s.device_loss_outcome(id) == Err::<(), ValidationError>(ValidationError::InvalidState),
        s.tick_outcome(id) == Err::<(), TickError>(TickError::NotRunning),
        s.after_video(id, video) == s,
        s.after_audio(id, audio) == s,
{
}

/// A node that refers to registered entities has what it shows: at a tick
/// nothing goes wrong at it, unless it is a web page, which this build
/// cannot render.
pub proof fn lemma_committed_nodes_have_their_source(s: PipelineView, node: NodeView)
    requires
        s.bound_for(node) is Some,
    ensures
        node_error(node, s.bound_for(node)->0) == if node.kind is WebRenderer {
            Some(crate::error::RenderError::CapabilityUnavailable)
        } else {
            None
        },
{
    match node.kind {
        NodeKindView::Image { image_id } => {
            lemma_asset_position(s.assets, EntityKind::Image, image_id, 0);
        },
        NodeKindView::Shader { shader_id } => {
            lemma_asset_position(s.assets, EntityKind::Shader, shader_id, 0);
        },
        _ => {},
    }
}

/// What a node shows depends on the frame of no input but its own: where
/// two ticks differ only in what one input shows, every node that does
/// not show that input is rendered alike.
pub proof fn lemma_other_nodes_render_alike(
    node: NodeView,
    bound: BoundView,
    frames: Seq<InputFrameView>,
    other_frames: Seq<InputFrameView>,
    input_id: Seq<char>,
)
    requires
        !refers_to(node, EntityKind::Input, input_id),
        forall|id: Seq<char>|
            id != input_id ==> #[trigger] frame_of(frames, id, 0) == frame_of(other_frames, id, 0),
    ensures
        node_op(node, bound, frames) == node_op(node, bound, other_frames),
{
}


/// What is found for an id among outputs: a position that holds the id,
/// before which no output holds it.
proof fn lemma_output_position(outputs: Seq<OutputView>, id: Seq<char>, from: int)
    requires
        0 <= from,
    ensures
        match output_position(outputs, id, from) {
            Some(at) => from <= at < outputs.len() && outputs[at].id == id && forall|j: int|
                from <= j < at ==> (#[trigger] outputs[j]).id != id,
            None => forall|j: int| from <= j < outputs.len() ==> (#[trigger] outputs[j]).id != id,
        },
    decreases outputs.len() - from,
{
    if from < outputs.len() && outputs[from].id != id {
        lemma_output_position(outputs, id, from + 1);
    }
}

/// Outputs with the same ids are found at the same positions.
proof fn lemma_same_ids_same_outputs(
    a: Seq<OutputView>,
    b: Seq<OutputView>,
    id: Seq<char>,
    from: int,
)
    requires
        0 <= from,
        a.len() == b.len(),
        forall|j: int| 0 <= j < a.len() ==> (#[trigger] a[j]).id == b[j].id,
    ensures
        output_position(a, id, from) == output_position(b, id, from),
    decreases a.len() - from,
{
    if from < a.len() {
        assert(a[from].id == b[from].id);
        if a[from].id != id {
            lemma_same_ids_same_outputs(a, b, id, from + 1);
        }
    }
}

/// The loss of a device ends the output that rendered on it and no other:
/// no tick is made for that output, and for every other output a tick is
/// made if and only if one was made before.
pub proof fn lemma_device_loss_ends_one_output(
    s: PipelineView,
    output_id: Seq<char>,
    other: Seq<char>,
)
    requires
        s.device_loss_outcome(output_id) is Ok,
    ensures
        !s.after_device_loss(output_id).ticks(output_id),
        other != output_id ==> s.after_device_loss(output_id).tick_outcome(other)
            == s.tick_outcome(other),
        s.after_device_loss(output_id).inputs == s.inputs,
        s.after_device_loss(output_id).assets == s.assets,
{
    let u = s.after_device_loss(output_id);
    lemma_output_position(s.outputs, output_id, 0);
    let at = output_position(s.outputs, output_id, 0)->0;
    assert forall|j: int| 0 <= j < u.outputs.len() implies (#[trigger] u.outputs[j]).id
        == s.outputs[j].id by {
        if j != at {
            assert(u.outputs[j] == s.outputs[j]);
        }
    }
    lemma_same_ids_same_outputs(u.outputs, s.outputs, output_id, 0);
    lemma_same_ids_same_outputs(u.outputs, s.outputs, other, 0);
    lemma_output_position(s.outputs, other, 0);
    if other != output_id {
        match output_position(s.outputs, other, 0) {
            Some(p) => {
                assert(u.outputs[p] == s.outputs[p]);
            },
            None => {},
        }
    }
}

} // verus!
