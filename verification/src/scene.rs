//! Scenes: graphs of nodes, as requests describe them and as outputs
//! render them.

use crate::error::ValidationError;
use crate::text::{clone_texts, same_text, texts};
use crate::topology::{edges_in_range, is_order, ranked, topological_order};
use crate::web_renderer::Resolution;
use vstd::prelude::*;

verus! {

/// What a node does to produce its texture.
#[derive(Debug)]
pub enum NodeKind {
    /// Lays its children out in a grid.
    Tiles { padding: u32, background_color_rgba: u32 },
    /// Runs a registered shader on the textures of its children.
    Shader { shader_id: String },
    /// Shows a registered image.
    Image { image_id: String },
    /// Shows the current frame of a registered input.
    InputStream { input_id: String },
    /// Shows a web page through a registered web renderer.
    WebRenderer { instance_id: String },
    /// A kind that this build does not know.
    Unknown,
}

/// Mathematical value of a [`NodeKind`].
pub enum NodeKindView {
    Tiles { padding: u32, background_color_rgba: u32 },
    Shader { shader_id: Seq<char> },
    Image { image_id: Seq<char> },
    InputStream { input_id: Seq<char> },
    WebRenderer { instance_id: Seq<char> },
    Unknown,
}

impl View for NodeKind {
    type V = NodeKindView;

    open spec fn view(&self) -> NodeKindView {
        match self {
            NodeKind::Tiles { padding, background_color_rgba } => NodeKindView::Tiles {
                padding: *padding,
                background_color_rgba: *background_color_rgba,
            },
            NodeKind::Shader { shader_id } => NodeKindView::Shader { shader_id: shader_id@ },
            NodeKind::Image { image_id } => NodeKindView::Image { image_id: image_id@ },
            NodeKind::InputStream { input_id } => NodeKindView::InputStream {
                input_id: input_id@,
            },
            NodeKind::WebRenderer { instance_id } => NodeKindView::WebRenderer {
                instance_id: instance_id@,
            },
            NodeKind::Unknown => NodeKindView::Unknown,
        }
    }
}

/// One node of a scene as a request describes it.
#[derive(Debug)]
pub struct NodeDef {
    pub id: String,
    pub kind: NodeKind,
    /// The ids of the nodes whose textures this node works on, in order.
    pub children: Vec<String>,
    pub resolution: Resolution,
}

/// Mathematical value of a [`NodeDef`].
pub struct NodeView {
    pub id: Seq<char>,
    pub kind: NodeKindView,
    pub children: Seq<Seq<char>>,
    pub resolution: Resolution,
}

impl View for NodeDef {
    type V = NodeView;

    open spec fn view(&self) -> NodeView {
        NodeView {
            id: self.id@,
            kind: self.kind@,
            children: Seq::new(self.children.len() as nat, |k: int| self.children[k]@),
            resolution: self.resolution,
        }
    }
}

/// A scene as a request describes it: its nodes and which of them is the
/// root.
#[derive(Debug)]
pub struct SceneDef {
    pub root: String,
    pub nodes: Vec<NodeDef>,
}

/// Mathematical value of a scene.
pub struct SceneView {
    pub root: Seq<char>,
    pub nodes: Seq<NodeView>,
}

/// The views of a list of nodes, one for one.
pub open spec fn node_views(nodes: Seq<NodeDef>) -> Seq<NodeView> {
    Seq::new(nodes.len(), |i: int| nodes[i]@)
}

impl View for SceneDef {
    type V = SceneView;

    open spec fn view(&self) -> SceneView {
        SceneView { root: self.root@, nodes: node_views(self.nodes@) }
    }
}

/// Whether a node with the given id is among `nodes`.
pub open spec fn has_node(nodes: Seq<NodeView>, id: Seq<char>) -> bool {
    exists|j: int| 0 <= j < nodes.len() && (#[trigger] nodes[j]).id == id
}

/// Whether no two nodes share an id.
pub open spec fn ids_unique(nodes: Seq<NodeView>) -> bool {
    forall|i: int, j: int|
        0 <= i < j < nodes.len() ==> (#[trigger] nodes[i]).id != (#[trigger] nodes[j]).id
}

/// Whether every child that a node names is a node of the scene.
pub open spec fn children_defined(nodes: Seq<NodeView>) -> bool {
    forall|i: int, k: int|
        0 <= i < nodes.len() && 0 <= k < nodes[i].children.len() ==> has_node(
            nodes,
            #[trigger] nodes[i].children[k],
        )
}

/// Whether the kind of every node is known.
pub open spec fn kinds_known(nodes: Seq<NodeView>) -> bool {
    forall|i: int| 0 <= i < nodes.len() ==> !((#[trigger] nodes[i]).kind is Unknown)
}

/// Whether `rank` gives every node a larger number than each of its
/// children.
pub open spec fn ranks_descend(nodes: Seq<NodeView>, rank: Seq<nat>) -> bool {
    &&& rank.len() == nodes.len()
    &&& forall|i: int, k: int, j: int|
        0 <= i < nodes.len() && 0 <= k < nodes[i].children.len() && 0 <= j < nodes.len()
            && #[trigger] nodes[j].id == #[trigger] nodes[i].children[k] ==> rank[j] < rank[i]
}

/// Whether no node is its own descendant.
pub open spec fn no_cycle(nodes: Seq<NodeView>) -> bool {
    exists|rank: Seq<nat>| ranks_descend(nodes, rank)
}

/// Whether a scene is a graph that can be rendered: the root is one of
/// its nodes, ids are unique, every child is a node of the scene, every
/// kind is known and no node is its own descendant.
pub open spec fn valid_graph(scene: SceneView) -> bool {
    &&& has_node(scene.nodes, scene.root)
    &&& ids_unique(scene.nodes)
    &&& children_defined(scene.nodes)
    &&& kinds_known(scene.nodes)
    &&& no_cycle(scene.nodes)
}

/// Whether the `k`-th child of the node at `i` stands before it.
pub open spec fn child_before(nodes: Seq<NodeView>, i: int, k: int) -> bool {
    exists|j: int| 0 <= j < i && (#[trigger] nodes[j]).id == nodes[i].children[k]
}

/// Whether every child of a node stands before the node.
pub open spec fn children_first(nodes: Seq<NodeView>) -> bool {
    forall|i: int, k: int|
        0 <= i < nodes.len() && 0 <= k < nodes[i].children.len() ==> #[trigger] child_before(
            nodes,
            i,
            k,
        )
}

/// Whether two lists hold the same nodes, in whatever order.
pub open spec fn same_nodes(a: Seq<NodeView>, b: Seq<NodeView>) -> bool {
    &&& a.len() == b.len()
    &&& forall|i: int| 0 <= i < a.len() ==> b.contains(#[trigger] a[i])
    &&& forall|i: int| 0 <= i < b.len() ==> a.contains(#[trigger] b[i])
}


impl Clone for NodeKind {
    fn clone(&self) -> (res: Self)
        ensures
            res@ == self@,
    {
        match self {
            NodeKind::Tiles { padding, background_color_rgba } => NodeKind::Tiles {
                padding: *padding,
                background_color_rgba: *background_color_rgba,
            },
            NodeKind::Shader { shader_id } => NodeKind::Shader { shader_id: shader_id.clone() },
            NodeKind::Image { image_id } => NodeKind::Image { image_id: image_id.clone() },
            NodeKind::InputStream { input_id } => NodeKind::InputStream {
                input_id: input_id.clone(),
            },
            NodeKind::WebRenderer { instance_id } => NodeKind::WebRenderer {
                instance_id: instance_id.clone(),
            },
            NodeKind::Unknown => NodeKind::Unknown,
        }
    }
}

impl Clone for NodeDef {
    fn clone(&self) -> (res: Self)
        ensures
            res@ == self@,
    {
        let res = NodeDef {
            id: self.id.clone(),
            kind: self.kind.clone(),
            children: clone_texts(&self.children),
            resolution: self.resolution,
        };
        assert(res@.children =~= texts(res.children@));
        assert(self@.children =~= texts(self.children@));
        res
    }
}

/// A scene that was found to be a valid graph. Its nodes stand in an order
/// in which every node comes after its children.
#[derive(Debug)]
pub struct Scene {
    nodes: Vec<NodeDef>,
    /// For each node, where its children stand.
    children: Vec<Vec<usize>>,
    root: usize,
}

impl View for Scene {
    type V = SceneView;

    closed spec fn view(&self) -> SceneView {
        SceneView { root: self.nodes[self.root as int].id@, nodes: node_views(self.nodes@) }
    }
}

fn find_node(nodes: &Vec<NodeDef>, id: &String) -> (res: Option<usize>)
    ensures
        match res {
            Some(j) => j < nodes.len() && nodes[j as int].id@ == id@,
            None => !has_node(node_views(nodes@), id@),
        },
{
    let mut j: usize = 0;
    while j < nodes.len()
        invariant
            j <= nodes.len(),
            forall|m: int| 0 <= m < j ==> (#[trigger] node_views(nodes@)[m]).id != id@,
        decreases nodes.len() - j,
    {
        if same_text(&nodes[j].id, id) {
            return Some(j);
        }
        assert(node_views(nodes@)[j as int].id == nodes[j as int].id@);
        j += 1;
    }
    None
}

impl Scene {
    /// The nodes stand children first, the recorded positions of the
    /// children are right, ids are unique and every kind is known.
    pub closed spec fn wf(&self) -> bool {
        &&& self.children.len() == self.nodes.len()
        &&& self.root < self.nodes.len()
        &&& forall|i: int, k: int|
            0 <= i < self.nodes.len() && 0 <= k < self.children[i].len() ==> (
            #[trigger] self.children[i][k]) < i
        &&& forall|i: int|
            0 <= i < self.nodes.len() ==> (#[trigger] self.children[i]).len()
                == self.nodes[i].children.len()
        &&& forall|i: int, k: int|
            0 <= i < self.nodes.len() && 0 <= k < self.children[i].len()
                ==> self.nodes[(#[trigger] self.children[i][k]) as int].id@
                == self.nodes[i].children[k]@
        &&& ids_unique(node_views(self.nodes@))
        &&& kinds_known(node_views(self.nodes@))
    }

    /// How many nodes the scene has.
    pub fn len(&self) -> (n: usize)
        ensures
            n == self@.nodes.len(),
    {
        self.nodes.len()
    }

    /// The node at a position.
    pub fn node(&self, at: usize) -> (node: &NodeDef)
        requires
            at < self@.nodes.len(),
        ensures
            node@ == self@.nodes[at as int],
    {
        &self.nodes[at]
    }

    /// The positions of the children of the node at a position.
    pub closed spec fn spec_children(&self, at: int) -> Seq<usize> {
        self.children[at]@
    }

    /// The position of the root.
    pub closed spec fn spec_root(&self) -> usize {
        self.root
    }

    /// The positions of the children of the node at a position.
    pub fn children(&self, at: usize) -> (res: &Vec<usize>)
        requires
            self.wf(),
            at < self@.nodes.len(),
        ensures
            res@ == self.spec_children(at as int),
    {
        &self.children[at]
    }

    /// The position of the root.
    pub fn root(&self) -> (res: usize)
        requires
            self.wf(),
        ensures
            res == self.spec_root(),
    {
        self.root
    }

    /// What the recorded positions say of a well-formed scene: each child
    /// of a node stands before it and bears the id that the node names, and
    /// the root stands where the root's id is.
    pub proof fn lemma_positions(&self)
        requires
            self.wf(),
        ensures
            self.spec_root() < self@.nodes.len(),
            self@.nodes[self.spec_root() as int].id == self@.root,
            forall|i: int|
                0 <= i < self@.nodes.len() ==> (#[trigger] self.spec_children(i)).len()
                    == self@.nodes[i].children.len(),
            forall|i: int, k: int|
                0 <= i < self@.nodes.len() && 0 <= k < self.spec_children(i).len() ==> (
                #[trigger] self.spec_children(i)[k]) < i && self@.nodes[self.spec_children(
                    i,
                )[k] as int].id == self@.nodes[i].children[k],
            ids_unique(self@.nodes),
            kinds_known(self@.nodes),
    {
        assert forall|i: int, k: int|
            0 <= i < self@.nodes.len() && 0 <= k < self.spec_children(i).len() implies (
        #[trigger] self.spec_children(i)[k]) < i && self@.nodes[self.spec_children(i)[k] as int].id
            == self@.nodes[i].children[k] by {
            assert(self.children[i][k] < i);
            assert(self.nodes[self.children[i][k] as int].id@ == self.nodes[i].children[k]@);
        }
    }

    /// A well-formed scene is a valid graph whose nodes stand children
    /// first.
    pub proof fn lemma_wf_is_valid(&self)
        requires
            self.wf(),
        ensures
            valid_graph(self@),
            children_first(self@.nodes),
    {
        self.lemma_positions();
        let nodes = self@.nodes;
        assert(nodes[self.root as int].id == self@.root);
        assert forall|i: int, k: int|
            0 <= i < nodes.len() && 0 <= k < nodes[i].children.len() implies #[trigger] child_before(
            nodes,
            i,
            k,
        ) by {
            let j = self.spec_children(i)[k] as int;
            assert(nodes[j].id == nodes[i].children[k]);
        }
        assert forall|i: int, k: int|
            0 <= i < nodes.len() && 0 <= k < nodes[i].children.len() implies has_node(
            nodes,
            #[trigger] nodes[i].children[k],
        ) by {
            let j = self.spec_children(i)[k] as int;
            assert(nodes[j].id == nodes[i].children[k]);
        }
        let rank = Seq::new(nodes.len(), |i: int| i as nat);
        assert forall|i: int, k: int, j: int|
            0 <= i < nodes.len() && 0 <= k < nodes[i].children.len() && 0 <= j < nodes.len()
                && #[trigger] nodes[j].id == #[trigger] nodes[i].children[k] implies rank[j]
            < rank[i] by {
            let c = self.spec_children(i)[k] as int;
            assert(nodes[c].id == nodes[j].id);
            if c != j {
                if c < j {
                    assert(nodes[c].id != nodes[j].id);
                } else {
                    assert(nodes[j].id != nodes[c].id);
                }
            }
        }
        assert(ranks_descend(nodes, rank));
    }
}


/// A ranking of the nodes by their ids is one of the graph of their
/// positions, and the other way round, where ids are unique and `graph`
/// holds the position of every child.
proof fn lemma_ranks_agree(nodes: Seq<NodeView>, graph: Seq<Vec<usize>>, rank: Seq<nat>)
    requires
        ids_unique(nodes),
        graph.len() == nodes.len(),
        rank.len() == nodes.len(),
        forall|i: int| 0 <= i < nodes.len() ==> (#[trigger] graph[i]).len() == nodes[i].children.len(),
        forall|i: int, k: int|
            0 <= i < nodes.len() && 0 <= k < graph[i].len() ==> (#[trigger] graph[i][k])
                < nodes.len() && nodes[graph[i][k] as int].id == nodes[i].children[k],
    ensures
        ranked(graph, rank) == ranks_descend(nodes, rank),
{
    if ranked(graph, rank) {
        assert forall|i: int, k: int, j: int|
            0 <= i < nodes.len() && 0 <= k < nodes[i].children.len() && 0 <= j < nodes.len()
                && #[trigger] nodes[j].id == #[trigger] nodes[i].children[k] implies rank[j]
            < rank[i] by {
            let c = graph[i][k] as int;
            assert(nodes[c].id == nodes[j].id);
            if c < j {
                assert(nodes[c].id != nodes[j].id);
            }
            if j < c {
                assert(nodes[j].id != nodes[c].id);
            }
        }
    }
    if ranks_descend(nodes, rank) {
        assert forall|i: int, k: int|
            0 <= i < graph.len() && 0 <= k < graph[i].len() implies rank[(
        #[trigger] graph[i][k]) as int] < rank[i] by {
            let j = graph[i][k] as int;
            assert(nodes[j].id == nodes[i].children[k]);
        }
    }
}

impl Scene {
    /// Checks that `def` is a valid graph and, if it is, puts its nodes in
    /// an order in which they can be rendered one after the other.
    pub fn build(def: &SceneDef) -> (res: Result<Scene, ValidationError>)
        ensures
            res is Ok == valid_graph(def@),
            res matches Ok(scene) ==> scene.wf() && scene@.root == def@.root && same_nodes(
                scene@.nodes,
                def@.nodes,
            ),
            res matches Err(e) ==> e == ValidationError::InvalidGraph,
    {
        let nodes = &def.nodes;
        let n = nodes.len();
        let ghost views = node_views(nodes@);
        let mut i: usize = 0;
        while i < n
            invariant
                i <= n,
                n == nodes.len(),
                views == node_views(nodes@),
                views == def@.nodes,
                forall|a: int| 0 <= a < i ==> !((#[trigger] views[a]).kind is Unknown),
                forall|a: int, b: int|
                    0 <= a < b < i ==> (#[trigger] views[a]).id != (#[trigger] views[b]).id,
            decreases n - i,
        {
            let unknown = match &nodes[i].kind {
                NodeKind::Unknown => true,
                _ => false,
            };
            if unknown {
                assert(views[i as int].kind is Unknown);
                return Err(ValidationError::InvalidGraph);
            }
            let mut j: usize = 0;
            while j < i
                invariant
                    j <= i,
                    i < n,
                    n == nodes.len(),
                    views == node_views(nodes@),
                    views == def@.nodes,
                    forall|a: int| 0 <= a < j ==> (#[trigger] views[a]).id != views[i as int].id,
                decreases i - j,
            {
                if same_text(&nodes[j].id, &nodes[i].id) {
                    assert(views[j as int].id == views[i as int].id);
                    return Err(ValidationError::InvalidGraph);
                }
                j += 1;
            }
            i += 1;
        }
        assert(ids_unique(views));
        assert(kinds_known(views));
        let mut graph: Vec<Vec<usize>> = Vec::new();
        let mut i: usize = 0;
        while i < n
            invariant
                i <= n,
                n == nodes.len(),
                views == node_views(nodes@),
                views == def@.nodes,
                graph.len() == i,
                forall|a: int|
                    0 <= a < i ==> (#[trigger] graph[a]).len() == views[a].children.len(),
                forall|a: int, k: int|
                    0 <= a < i && 0 <= k < graph[a].len() ==> (#[trigger] graph[a][k]) < n
                        && views[graph[a][k] as int].id == views[a].children[k],
            decreases n - i,
        {
            let mut targets: Vec<usize> = Vec::new();
            let mut k: usize = 0;
            while k < nodes[i].children.len()
                invariant
                    k <= nodes[i as int].children.len(),
                    i < n,
                    n == nodes.len(),
                    views == node_views(nodes@),
                    views == def@.nodes,
                    targets.len() == k,
                    forall|m: int|
                        0 <= m < k ==> (#[trigger] targets[m]) < n && views[targets[m] as int].id
                            == views[i as int].children[m],
                decreases nodes[i as int].children.len() - k,
            {
                match find_node(nodes, &nodes[i].children[k]) {
                    Some(j) => {
                        targets.push(j);
                    },
                    None => {
                        assert(!has_node(views, views[i as int].children[k as int]));
                        return Err(ValidationError::InvalidGraph);
                    },
                }
                k += 1;
            }
            graph.push(targets);
            i += 1;
        }
        assert(children_defined(views)) by {
            assert forall|a: int, k: int|
                0 <= a < views.len() && 0 <= k < views[a].children.len() implies has_node(
                views,
                #[trigger] views[a].children[k],
            ) by {
                assert(views[graph[a][k] as int].id == views[a].children[k]);
            }
        }
        let root = match find_node(nodes, &def.root) {
            Some(root) => root,
            None => {
                return Err(ValidationError::InvalidGraph);
            },
        };
        assert(has_node(views, def@.root)) by {
            assert(views[root as int].id == def@.root);
        }
        assert(edges_in_range(graph@));
        match topological_order(&graph) {
            None => {
                proof {
                    assert forall|rank: Seq<nat>| !ranks_descend(views, rank) by {
                        if rank.len() == views.len() {
                            lemma_ranks_agree(views, graph@, rank);
                        }
                    }
                }
                Err(ValidationError::InvalidGraph)
            },
            Some((order, position)) => {
                proof {
                    let rank = Seq::new(n as nat, |i: int| position[i] as nat);
                    assert(ranked(graph@, rank));
                    lemma_ranks_agree(views, graph@, rank);
                }
                let mut sorted: Vec<NodeDef> = Vec::new();
                let mut links: Vec<Vec<usize>> = Vec::new();
                let mut p: usize = 0;
                while p < n
                    invariant
                        p <= n,
                        n == nodes.len(),
                        views == node_views(nodes@),
                        graph.len() == n,
                        edges_in_range(graph@),
                        is_order(graph@, order@, position@),
                        sorted.len() == p,
                        links.len() == p,
                        forall|q: int| 0 <= q < p ==> (#[trigger] sorted[q])@ == views[order[q] as int],
                        forall|q: int|
                            0 <= q < p ==> (#[trigger] links[q]).len() == graph[order[q] as int].len(),
                        forall|q: int, k: int|
                            0 <= q < p && 0 <= k < links[q].len() ==> (#[trigger] links[q][k])
                                == position[graph[order[q] as int][k] as int],
                    decreases n - p,
                {
                    let at = order[p];
                    sorted.push(nodes[at].clone());
                    let mut targets: Vec<usize> = Vec::new();
                    let mut k: usize = 0;
                    while k < graph[at].len()
                        invariant
                            k <= graph[at as int].len(),
                            at < n,
                            graph.len() == n,
                            position.len() == n,
                            edges_in_range(graph@),
                            is_order(graph@, order@, position@),
                            targets.len() == k,
                            forall|m: int|
                                0 <= m < k ==> (#[trigger] targets[m]) == position[graph[at as int][m] as int],
                        decreases graph[at as int].len() - k,
                    {
                        assert(graph[at as int][k as int] < n);
                        targets.push(position[graph[at][k]]);
                        k += 1;
                    }
                    links.push(targets);
                    p += 1;
                }
                let scene = Scene { nodes: sorted, children: links, root: position[root] };
                proof {
                    let placed = node_views(scene.nodes@);
                    assert forall|q: int| 0 <= q < n implies #[trigger] placed[q] == views[order[q] as int] by {
                        assert(placed[q] == scene.nodes[q]@);
                    }
                    assert forall|a: int, b: int| 0 <= a < b < placed.len() implies (
                    #[trigger] placed[a]).id != (#[trigger] placed[b]).id by {
                        let x = order[a] as int;
                        let y = order[b] as int;
                        assert(position[x] == a && position[y] == b);
                        if x < y {
                            assert(views[x].id != views[y].id);
                        } else {
                            assert(views[y].id != views[x].id);
                        }
                    }
                    assert forall|q: int| 0 <= q < placed.len() implies !((
                    #[trigger] placed[q]).kind is Unknown) by {
                        assert(!(views[order[q] as int].kind is Unknown));
                    }
                    assert forall|i: int, k: int|
                        0 <= i < scene.nodes.len() && 0 <= k < scene.children[i].len() implies (
                    #[trigger] scene.children[i][k]) < i && scene.nodes[scene.children[i][k] as int].id@
                        == scene.nodes[i].children[k]@ by {
                        let x = order[i] as int;
                        let c = graph[x][k] as int;
                        assert(scene.children[i][k] == position[c]);
                        assert(position[c] < position[x]);
                        assert(order[position[c] as int] == c);
                        assert(placed[position[c] as int] == views[c]);
                        assert(placed[i] == views[x]);
                        assert(views[c].id == views[x].children[k]);
                        assert(scene.nodes[i]@.children[k] == scene.nodes[i].children[k]@);
                    }
                    assert forall|i: int| 0 <= i < scene.nodes.len() implies (
                    #[trigger] scene.children[i]).len() == scene.nodes[i].children.len() by {
                        assert(placed[i] == views[order[i] as int]);
                        assert(scene.nodes[i]@.children.len() == scene.nodes[i].children.len());
                    }
                    assert(placed[position[root as int] as int] == views[root as int]);
                    assert forall|i: int| 0 <= i < placed.len() implies views.contains(
                        #[trigger] placed[i],
                    ) by {
                        assert(views[order[i] as int] == placed[i]);
                    }
                    assert forall|i: int| 0 <= i < views.len() implies placed.contains(
                        #[trigger] views[i],
                    ) by {
                        assert(order[position[i] as int] == i);
                        assert(placed[position[i] as int] == views[i]);
                    }
                }
                Ok(scene)
            },
        }
    }
}

} // verus!
