//! What a tick renders: the steps that make the texture of a scene.

use crate::error::RenderError;
use crate::layout::{tile, tile_layout, Rect};
use crate::scene::{NodeDef, NodeKind, NodeKindView, NodeView, Scene};
use crate::text::same_text;
use crate::web_renderer::{RegisterCtx, Resolution, WebRenderer, WebRendererSpec};
use vstd::prelude::*;

verus! {

/// What a node of a committed scene holds of the entity that it shows.
/// It is taken when the scene is committed and stays with the scene when
/// the entity is unregistered.
#[derive(Debug)]
pub enum Bound {
    /// The node shows no registered image, shader or web page.
    Nothing,
    /// Where the node puts its children: laid out once, when the scene is
    /// committed, and used at every tick.
    Layout { placements: Vec<Rect> },
    Image { texture: u64 },
    Shader { program: u64 },
    WebRenderer { url: String },
}

/// Mathematical value of a [`Bound`].
pub enum BoundView {
    Nothing,
    Layout { placements: Seq<Rect> },
    Image { texture: u64 },
    Shader { program: u64 },
    WebRenderer { url: Seq<char> },
}

impl View for Bound {
    type V = BoundView;

    open spec fn view(&self) -> BoundView {
        match self {
            Bound::Nothing => BoundView::Nothing,
            Bound::Layout { placements } => BoundView::Layout { placements: placements@ },
            Bound::Image { texture } => BoundView::Image { texture: *texture },
            Bound::Shader { program } => BoundView::Shader { program: *program },
            Bound::WebRenderer { url } => BoundView::WebRenderer { url: url@ },
        }
    }
}

/// The views of a list of bound entities, one for one.
pub open spec fn bound_views(bounds: Seq<Bound>) -> Seq<BoundView> {
    Seq::new(bounds.len(), |i: int| bounds[i]@)
}

/// A frame as a node shows it.
#[derive(Clone, Copy, Debug, PartialEq, Eq, Structural)]
pub struct ShownFrame {
    pub pts: u64,
    /// The handle of the decoded picture.
    pub data: u64,
}

/// The frame that an input shows at a tick, if it shows one.
#[derive(Debug)]
pub struct InputFrame {
    pub input_id: String,
    pub frame: Option<ShownFrame>,
}

/// Mathematical value of an [`InputFrame`].
pub struct InputFrameView {
    pub input_id: Seq<char>,
    pub frame: Option<ShownFrame>,
}

impl View for InputFrame {
    type V = InputFrameView;

    open spec fn view(&self) -> InputFrameView {
        InputFrameView { input_id: self.input_id@, frame: self.frame }
    }
}

/// The views of a list of frames, one for one.
pub open spec fn frame_views(frames: Seq<InputFrame>) -> Seq<InputFrameView> {
    Seq::new(frames.len(), |i: int| frames[i]@)
}

/// What is done to produce the texture of a node.
#[derive(Debug)]
pub enum RenderOp {
    /// Nothing is shown: the texture is transparent.
    Blank,
    Frame { pts: u64, data: u64 },
    Image { texture: u64 },
    /// The textures of the children are put side by side.
    Tiles { placements: Vec<Rect>, background_color_rgba: u32 },
    /// A shader runs on the textures of the children.
    Shader { program: u64 },
}

/// Mathematical value of a [`RenderOp`].
pub enum RenderOpView {
    Blank,
    Frame { pts: u64, data: u64 },
    Image { texture: u64 },
    Tiles { placements: Seq<Rect>, background_color_rgba: u32 },
    Shader { program: u64 },
}

impl View for RenderOp {
    type V = RenderOpView;

    open spec fn view(&self) -> RenderOpView {
        match self {
            RenderOp::Blank => RenderOpView::Blank,
            RenderOp::Frame { pts, data } => RenderOpView::Frame { pts: *pts, data: *data },
            RenderOp::Image { texture } => RenderOpView::Image { texture: *texture },
            RenderOp::Tiles { placements, background_color_rgba } => RenderOpView::Tiles {
                placements: placements@,
                background_color_rgba: *background_color_rgba,
            },
            RenderOp::Shader { program } => RenderOpView::Shader { program: *program },
        }
    }
}

/// One step of rendering a scene: the texture of one node, made from the
/// textures of earlier steps.
#[derive(Debug)]
pub struct RenderStep {
    /// The position of the node in the scene.
    pub node: usize,
    pub op: RenderOp,
    /// The steps that made the textures of the node's children, in the
    /// order of the children.
    pub inputs: Vec<usize>,
    pub resolution: Resolution,
    /// Why the node shows nothing, where something went wrong.
    pub error: Option<RenderError>,
}

/// The frame of the first of `frames` that belongs to `input_id`, from
/// position `from` on.
pub open spec fn frame_of(frames: Seq<InputFrameView>, input_id: Seq<char>, from: int) -> Option<
    ShownFrame,
>
    decreases frames.len() - from,
{
    if from < 0 || from >= frames.len() {
        None
    } else if frames[from].input_id == input_id {
        frames[from].frame
    } else {
        frame_of(frames, input_id, from + 1)
    }
}

/// The placements of the children of a tiles node.
pub open spec fn placements(node: NodeView, padding: u32) -> Seq<Rect> {
    Seq::new(
        node.children.len(),
        |k: int| tile(node.children.len(), node.resolution, padding, k),
    )
}

/// What is done for a node: an input shows its current frame, or nothing
/// if it has none; an image and a shader show what was bound when the
/// scene was committed; tiles are put where the node holds that they go,
/// or laid out anew if it holds no layout; a web page shows nothing.
pub open spec fn node_op(node: NodeView, bound: BoundView, frames: Seq<InputFrameView>) -> RenderOpView {
    match node.kind {
        NodeKindView::Tiles { padding, background_color_rgba } => RenderOpView::Tiles {
            placements: match bound {
                BoundView::Layout { placements } => placements,
                _ => placements(node, padding),
            },
            background_color_rgba,
        },
        NodeKindView::Shader { .. } => match bound {
            BoundView::Shader { program } => RenderOpView::Shader { program },
            _ => RenderOpView::Blank,
        },
        NodeKindView::Image { .. } => match bound {
            BoundView::Image { texture } => RenderOpView::Image { texture },
            _ => RenderOpView::Blank,
        },
        NodeKindView::InputStream { input_id } => match frame_of(frames, input_id, 0) {
            Some(frame) => RenderOpView::Frame { pts: frame.pts, data: frame.data },
            None => RenderOpView::Blank,
        },
        NodeKindView::WebRenderer { .. } => RenderOpView::Blank,
        NodeKindView::Unknown => RenderOpView::Blank,
    }
}

/// What went wrong at a node: a web page cannot be rendered by this
/// build; an image or a shader node without its entity has nothing to
/// show. An input without a frame is no failure.
pub open spec fn node_error(node: NodeView, bound: BoundView) -> Option<RenderError> {
    match node.kind {
        NodeKindView::WebRenderer { .. } => Some(RenderError::CapabilityUnavailable),
        NodeKindView::Shader { .. } => if bound is Shader {
            None
        } else {
            Some(RenderError::SourceGone)
        },
        NodeKindView::Image { .. } => if bound is Image {
            None
        } else {
            Some(RenderError::SourceGone)
        },
        _ => None,
    }
}

/// Whether step `s` of `plan` renders a node of the scene as it is to be
/// rendered, from the steps that rendered its children.
pub open spec fn step_ok(
    scene: &Scene,
    bounds: Seq<BoundView>,
    frames: Seq<InputFrameView>,
    plan: Seq<RenderStep>,
    s: int,
) -> bool {
    let step = plan[s];
    &&& step.node < scene@.nodes.len()
    &&& step.inputs.len() == scene.spec_children(step.node as int).len()
    &&& forall|k: int|
        0 <= k < step.inputs.len() ==> (#[trigger] step.inputs[k]) < s && plan[step.inputs[k] as int].node
            == scene.spec_children(step.node as int)[k]
    &&& step.op@ == node_op(scene@.nodes[step.node as int], bounds[step.node as int], frames)
    &&& step.resolution == scene@.nodes[step.node as int].resolution
    &&& step.error == node_error(scene@.nodes[step.node as int], bounds[step.node as int])
}

/// Whether a later step of `plan` works on the texture of step `a`.
pub open spec fn is_used(plan: Seq<RenderStep>, a: int) -> bool {
    exists|b: int, k: int|
        a < b < plan.len() && 0 <= k < plan[b].inputs.len() && #[trigger] plan[b].inputs[k] == a
}

/// Whether `plan` renders the scene: its last step renders the root;
/// every step renders one node from the steps of its children, which come
/// before it; no node is rendered twice; and nothing is rendered that the
/// root does not need.
pub open spec fn is_plan(
    scene: &Scene,
    bounds: Seq<BoundView>,
    frames: Seq<InputFrameView>,
    plan: Seq<RenderStep>,
) -> bool {
    &&& plan.len() >= 1
    &&& plan.last().node == scene.spec_root()
    &&& forall|a: int, b: int|
        0 <= a < b < plan.len() ==> (#[trigger] plan[a]).node < (#[trigger] plan[b]).node
    &&& forall|s: int| 0 <= s < plan.len() ==> #[trigger] step_ok(scene, bounds, frames, plan, s)
    &&& forall|a: int| 0 <= a < plan.len() - 1 ==> #[trigger] is_used(plan, a)
}

fn find_frame(frames: &Vec<InputFrame>, input_id: &String) -> (res: Option<ShownFrame>)
    ensures
        res == frame_of(frame_views(frames@), input_id@, 0),
{
    let mut i: usize = 0;
    while i < frames.len()
        invariant
            i <= frames.len(),
            frame_of(frame_views(frames@), input_id@, 0) == frame_of(frame_views(frames@), input_id@, i as int),
        decreases frames.len() - i,
    {
        if same_text(&frames[i].input_id, input_id) {
            return frames[i].frame;
        }
        i += 1;
    }
    None
}

fn copy_rects(rects: &Vec<Rect>) -> (res: Vec<Rect>)
    ensures
        res@ == rects@,
{
    let mut res: Vec<Rect> = Vec::new();
    let mut i: usize = 0;
    while i < rects.len()
        invariant
            i <= rects.len(),
            res@ == rects@.take(i as int),
        decreases rects.len() - i,
    {
        res.push(rects[i]);
        assert(res@ =~= rects@.take(i as int + 1));
        i += 1;
    }
    assert(rects@.take(rects.len() as int) =~= rects@);
    res
}

/// Where a tiles node puts its children.
pub fn lay_out(node: &NodeDef, padding: u32) -> (tiles: Vec<Rect>)
    ensures
        tiles@ == placements(node@, padding),
{
    let tiles = tile_layout(node.children.len(), node.resolution, padding);
    assert(tiles@ =~= placements(node@, padding));
    tiles
}

/// What is done for a node, and what went wrong there.
pub fn evaluate(node: &NodeDef, bound: &Bound, frames: &Vec<InputFrame>) -> (res: (
    RenderOp,
    Option<RenderError>,
))
    ensures
        res.0@ == node_op(node@, bound@, frame_views(frames@)),
        res.1 == node_error(node@, bound@),
{
    match &node.kind {
        NodeKind::Tiles { padding, background_color_rgba } => {
            let tiles = match bound {
                Bound::Layout { placements } => copy_rects(placements),
                _ => lay_out(node, *padding),
            };
            (
                RenderOp::Tiles {
                    placements: tiles,
                    background_color_rgba: *background_color_rgba,
                },
                None,
            )
        },
        NodeKind::Shader { .. } => match bound {
            Bound::Shader { program } => (RenderOp::Shader { program: *program }, None),
            _ => (RenderOp::Blank, Some(RenderError::SourceGone)),
        },
        NodeKind::Image { .. } => match bound {
            Bound::Image { texture } => (RenderOp::Image { texture: *texture }, None),
            _ => (RenderOp::Blank, Some(RenderError::SourceGone)),
        },
        NodeKind::InputStream { input_id } => match find_frame(frames, input_id) {
            Some(frame) => (RenderOp::Frame { pts: frame.pts, data: frame.data }, None),
            None => (RenderOp::Blank, None),
        },
        NodeKind::WebRenderer { .. } => {
            let url = match bound {
                Bound::WebRenderer { url } => url.clone(),
                _ => String::new(),
            };
            let spec = WebRendererSpec { url, resolution: node.resolution };
            match WebRenderer::new(&RegisterCtx {  }, spec) {
                Ok(_) => (RenderOp::Blank, None),
                Err(_) => (RenderOp::Blank, Some(RenderError::CapabilityUnavailable)),
            }
        },
        NodeKind::Unknown => (RenderOp::Blank, None),
    }
}


/// Whether node `j` is a child of a needed node that stands after it and
/// not after the root: the `slot[j]`-th child of node `user[j]`.
pub open spec fn has_user(
    scene: &Scene,
    needed: Seq<bool>,
    user: Seq<int>,
    slot: Seq<int>,
    j: int,
) -> bool {
    &&& j < user[j] <= scene.spec_root()
    &&& needed[user[j]]
    &&& 0 <= slot[j] < scene.spec_children(user[j]).len()
    &&& scene.spec_children(user[j])[slot[j]] == j
}

/// Whether every child of node `u` is needed.
pub open spec fn children_needed(scene: &Scene, needed: Seq<bool>, u: int) -> bool {
    forall|k: int|
        0 <= k < scene.spec_children(u).len() ==> needed[(#[trigger] scene.spec_children(u)[k]) as int]
}

/// Whether `needed` marks what the root needs, as far as the nodes from
/// `done` on have been looked at: the root is needed and nothing after it;
/// every needed node but the root has a user; and the children of every
/// needed node from `done` on are needed.
pub open spec fn marks_needed(
    scene: &Scene,
    needed: Seq<bool>,
    user: Seq<int>,
    slot: Seq<int>,
    done: int,
) -> bool {
    let n = scene@.nodes.len() as int;
    let root = scene.spec_root() as int;
    &&& needed.len() == n
    &&& user.len() == n
    &&& slot.len() == n
    &&& root < n
    &&& needed[root]
    &&& forall|j: int| root < j < n ==> !#[trigger] needed[j]
    &&& forall|j: int|
        0 <= j < n && needed[j] && j != root ==> #[trigger] has_user(scene, needed, user, slot, j)
    &&& forall|u: int| done <= u < n && needed[u] ==> #[trigger] children_needed(scene, needed, u)
}

/// Marking one more child of a needed node keeps what was marked.
proof fn lemma_mark_child(
    scene: &Scene,
    needed: Seq<bool>,
    user: Seq<int>,
    slot: Seq<int>,
    done: int,
    i: int,
    k: int,
)
    requires
        scene.wf(),
        marks_needed(scene, needed, user, slot, done),
        0 <= i < done,
        i <= scene.spec_root(),
        needed[i],
        0 <= k < scene.spec_children(i).len(),
        !needed[scene.spec_children(i)[k] as int],
    ensures
        marks_needed(
            scene,
            needed.update(scene.spec_children(i)[k] as int, true),
            user.update(scene.spec_children(i)[k] as int, i),
            slot.update(scene.spec_children(i)[k] as int, k),
            done,
        ),
{
    scene.lemma_positions();
    let c = scene.spec_children(i)[k] as int;
    let needed2 = needed.update(c, true);
    let user2 = user.update(c, i);
    let slot2 = slot.update(c, k);
    assert(c < i);
    assert forall|j: int|
        0 <= j < needed2.len() && needed2[j] && j != scene.spec_root() implies #[trigger] has_user(
        scene,
        needed2,
        user2,
        slot2,
        j,
    ) by {
        if j != c {
            assert(has_user(scene, needed, user, slot, j));
        }
    }
    assert forall|u: int| done <= u < needed2.len() && needed2[u] implies #[trigger] children_needed(
        scene,
        needed2,
        u,
    ) by {
        assert(children_needed(scene, needed, u));
    }
}

/// Marks the nodes that the root needs: the root and, for each needed
/// node, its children. `user` and `slot` say for each needed node but the
/// root of which needed node it is a child, and which.
fn mark_needed(scene: &Scene) -> (res: (Vec<bool>, Ghost<Seq<int>>, Ghost<Seq<int>>))
    requires
        scene.wf(),
    ensures
        marks_needed(scene, res.0@, res.1@, res.2@, 0),
{
    proof {
        scene.lemma_positions();
    }
    let n = scene.len();
    let root = scene.root();
    let mut needed: Vec<bool> = Vec::new();
    let mut i: usize = 0;
    while i < n
        invariant
            i <= n,
            needed.len() == i,
            forall|j: int| 0 <= j < i ==> !#[trigger] needed[j],
        decreases n - i,
    {
        needed.push(false);
        i += 1;
    }
    needed.set(root, true);
    let ghost mut user: Seq<int> = Seq::new(n as nat, |j: int| 0int);
    let ghost mut slot: Seq<int> = Seq::new(n as nat, |j: int| 0int);
    let mut i: usize = root + 1;
    while i > 0
        invariant
            scene.wf(),
            n == scene@.nodes.len(),
            root == scene.spec_root(),
            i <= root + 1,
            marks_needed(scene, needed@, user, slot, i as int),
        decreases i,
    {
        i -= 1;
        if needed[i] {
            let children = scene.children(i);
            let mut k: usize = 0;
            while k < children.len()
                invariant
                    scene.wf(),
                    n == scene@.nodes.len(),
                    root == scene.spec_root(),
                    i <= root,
                    children@ == scene.spec_children(i as int),
                    k <= children.len(),
                    needed[i as int],
                    marks_needed(scene, needed@, user, slot, i as int + 1),
                    forall|m: int| 0 <= m < k ==> needed[(#[trigger] children[m]) as int],
                decreases children.len() - k,
            {
                proof {
                    scene.lemma_positions();
                }
                let c = children[k];
                assert(c == scene.spec_children(i as int)[k as int]);
                if !needed[c] {
                    proof {
                        lemma_mark_child(scene, needed@, user, slot, i as int + 1, i as int, k as int);
                        user = user.update(c as int, i as int);
                        slot = slot.update(c as int, k as int);
                    }
                    needed.set(c, true);
                }
                k += 1;
            }
            assert(children_needed(scene, needed@, i as int));
        }
    }
    (needed, Ghost(user), Ghost(slot))
}

/// The steps that render a scene at one tick: one for each node that the
/// root needs and no other, each after the steps of the node's children,
/// the root's last. A node that several nodes work on is rendered once.
pub fn render_plan(scene: &Scene, bounds: &Vec<Bound>, frames: &Vec<InputFrame>) -> (plan: Vec<
    RenderStep,
>)
    requires
        scene.wf(),
        bounds.len() == scene@.nodes.len(),
    ensures
        is_plan(scene, bound_views(bounds@), frame_views(frames@), plan@),
{
    proof {
        scene.lemma_positions();
    }
    let n = scene.len();
    let root = scene.root();
    let (needed, Ghost(user), Ghost(slot)) = mark_needed(scene);
    let ghost views = bound_views(bounds@);

    let mut plan: Vec<RenderStep> = Vec::new();
    let mut step_of: Vec<usize> = Vec::new();
    let mut i: usize = 0;
    while i < n
        invariant
            i <= n,
            step_of.len() == i,
        decreases n - i,
    {
        step_of.push(0);
        i += 1;
    }
    let mut i: usize = 0;
    while i <= root
        invariant
            scene.wf(),
            n == scene@.nodes.len(),
            root == scene.spec_root(),
            i <= root + 1,
            bounds.len() == n,
            views == bound_views(bounds@),
            marks_needed(scene, needed@, user, slot, 0),
            step_of.len() == n,
            forall|s: int| 0 <= s < plan.len() ==> (#[trigger] plan[s]).node < i && needed[plan[s].node as int],
            forall|a: int, b: int|
                0 <= a < b < plan.len() ==> (#[trigger] plan[a]).node < (#[trigger] plan[b]).node,
            forall|j: int|
                0 <= j < i && needed[j] ==> (#[trigger] step_of[j]) < plan.len()
                    && plan[step_of[j] as int].node == j,
            forall|s: int| 0 <= s < plan.len() ==> #[trigger] step_ok(scene, views, frame_views(frames@), plan@, s),
        decreases root + 1 - i,
    {
        if needed[i] {
            proof {
                scene.lemma_positions();
            }
            let children = scene.children(i);
            let mut inputs: Vec<usize> = Vec::new();
            let mut k: usize = 0;
            assert(children_needed(scene, needed@, i as int));
            while k < children.len()
                invariant
                    scene.wf(),
                    n == scene@.nodes.len(),
                    i < n,
                    needed.len() == n,
                    step_of.len() == n,
                    children_needed(scene, needed@, i as int),
                    children@ == scene.spec_children(i as int),
                    k <= children.len(),
                    inputs.len() == k,
                    forall|j: int|
                        0 <= j < i && needed[j] ==> (#[trigger] step_of[j]) < plan.len()
                            && plan[step_of[j] as int].node == j,
                    forall|m: int|
                        0 <= m < k ==> (#[trigger] inputs[m]) < plan.len()
                            && plan[inputs[m] as int].node == children[m],
                decreases children.len() - k,
            {
                proof {
                    scene.lemma_positions();
                }
                let c = children[k];
                assert(c == scene.spec_children(i as int)[k as int]);
                assert(c < i);
                assert(needed[c as int]);
                inputs.push(step_of[c]);
                k += 1;
            }
            let node = scene.node(i);
            let (op, error) = evaluate(node, &bounds[i], frames);
            let at = plan.len();
            let ghost before = plan@;
            plan.push(RenderStep { node: i, op, inputs, resolution: node.resolution, error });
            step_of.set(i, at);
            proof {
                assert(views[i as int] == bounds[i as int]@);
                assert forall|s: int| 0 <= s < plan.len() implies #[trigger] step_ok(
                    scene,
                    views,
                    frame_views(frames@),
                    plan@,
                    s,
                ) by {
                    if s < at {
                        assert(step_ok(scene, views, frame_views(frames@), before, s));
                        assert(plan@[s] == before[s]);
                        assert forall|k: int| 0 <= k < plan@[s].inputs.len() implies (
                        #[trigger] plan@[s].inputs[k]) < s && plan@[plan@[s].inputs[k] as int].node
                            == scene.spec_children(plan@[s].node as int)[k] by {
                            assert(before[before[s].inputs[k] as int] == plan@[plan@[s].inputs[k] as int]);
                        }
                    }
                }
            }
        }
        i += 1;
    }
    proof {
        let last = plan.len() - 1;
        let s = step_of[root as int] as int;
        assert(plan[s].node == root);
        if s < last {
            assert(plan[s].node < plan[last].node);
        }
        assert forall|a: int| 0 <= a < plan.len() - 1 implies #[trigger] is_used(plan@, a) by {
            let j = plan[a].node as int;
            assert(plan[a].node < plan[last].node);
            assert(has_user(scene, needed@, user, slot, j));
            let u = user[j];
            let b = step_of[u] as int;
            assert(step_ok(scene, views, frame_views(frames@), plan@, b));
            let x = plan[b].inputs[slot[j]] as int;
            assert(plan[x].node == j);
            if x < a {
                assert(plan[x].node < plan[a].node);
            }
            if a < x {
                assert(plan[a].node < plan[x].node);
            }
            assert(plan[b].inputs[slot[j]] == a);
        }
    }
    plan
}

} // verus!
