//! The scene the viewer shows: a lunar terrain carrying a fleet of
//! helicopters, each made of a body with a door, a main rotor and a tail
//! rotor linked below it.

use vstd::prelude::*;
use crate::scene::{
    NodeView, SceneGraph, NO_GEOMETRY, links_forward, is_acyclic, lemma_forward_links_acyclic,
};

verus! {

/// How many helicopters fly over the terrain.
pub const HELICOPTER_COUNT: usize = 5;

/// The geometry of one mesh once uploaded: its vertex array object and the
/// number of indices to draw from it.
#[derive(Clone, Copy)]
pub struct Geometry {
    pub vao_id: u32,
    pub index_count: i32,
}

/// A childless node that draws `geo`.
pub open spec fn leaf_of(geo: Geometry) -> NodeView {
    NodeView { vao_id: geo.vao_id, index_count: geo.index_count, children: Seq::empty() }
}

/// The index of the body of the `i`-th helicopter; its door, main rotor and
/// tail rotor follow it.
pub open spec fn body_index(i: int) -> int {
    2 + 4 * i
}

/// The helicopter whose body is node `b` of `g`: the body draws `body`
/// and has the door, main rotor and tail rotor as its children, in that
/// order, which are the three nodes after it.
pub open spec fn helicopter_at(
    g: Seq<NodeView>,
    b: int,
    body: Geometry,
    door: Geometry,
    main_rotor: Geometry,
    tail_rotor: Geometry,
) -> bool {
    &&& g[b] == NodeView {
        vao_id: body.vao_id,
        index_count: body.index_count,
        children: seq![(b + 1) as usize, (b + 2) as usize, (b + 3) as usize],
    }
    &&& g[b + 1] == leaf_of(door)
    &&& g[b + 2] == leaf_of(main_rotor)
    &&& g[b + 3] == leaf_of(tail_rotor)
}

/// The bodies of the first `count` helicopters.
pub open spec fn bodies(count: nat) -> Seq<usize> {
    Seq::new(count, |i: int| body_index(i) as usize)
}

/// The nodes of one helicopter that a frame animates.
#[derive(Clone, Copy)]
pub struct HelicopterParts {
    pub body: usize,
    pub main_rotor: usize,
    pub tail_rotor: usize,
}

/// Every child of `terrain` in `g` has at least three children: door, main
/// rotor and tail rotor.
pub open spec fn carries_helicopters(g: Seq<NodeView>, terrain: int) -> bool {
    forall|i: int|
        0 <= i < g[terrain].children.len() ==> #[trigger] g[g[terrain].children[i] as int].children.len() >= 3
}

/// Builds the scene: an empty root (node 0) holding the terrain (node 1),
/// which holds `count` helicopters. Returns the graph, its root and the
/// terrain node.
pub fn build_scene(
    terrain: Geometry,
    body: Geometry,
    door: Geometry,
    main_rotor: Geometry,
    tail_rotor: Geometry,
    count: usize,
) -> (res: (SceneGraph, usize, usize))
    requires
        2 + 4 * count <= usize::MAX,
    ensures
        res.0.wf(),
        res.1 == 0,
        res.2 == 1,
        res.0@.len() == 2 + 4 * count,
        res.0@[0] == (NodeView { vao_id: 0, index_count: NO_GEOMETRY, children: seq![1usize] }),
        res.0@[1] == (NodeView {
            vao_id: terrain.vao_id,
            index_count: terrain.index_count,
            children: bodies(count as nat),
        }),
        forall|i: int|
            0 <= i < count ==> #[trigger] helicopter_at(
                res.0@,
                body_index(i),
                body,
                door,
                main_rotor,
                tail_rotor,
            ),
        links_forward(res.0@),
        is_acyclic(res.0@),
        carries_helicopters(res.0@, 1),
{
    let mut g = SceneGraph::new();
    let root = g.add_empty_node();
    let terrain_node = g.add_node(terrain.vao_id, terrain.index_count);
    let mut i: usize = 0;
    assert(bodies(0) =~= Seq::<usize>::empty());
    while i < count
        invariant
            2 + 4 * count <= usize::MAX,
            i <= count,
            g.wf(),
            root == 0,
            terrain_node == 1,
            g@.len() == 2 + 4 * i,
            g@[0] == (NodeView { vao_id: 0, index_count: NO_GEOMETRY, children: Seq::<usize>::empty() }),
            g@[1] == (NodeView {
                vao_id: terrain.vao_id,
                index_count: terrain.index_count,
                children: bodies(i as nat),
            }),
            forall|j: int|
                0 <= j < i ==> #[trigger] helicopter_at(g@, body_index(j), body, door, main_rotor, tail_rotor),
            links_forward(g@),
        decreases count - i,
    {
        let ghost g0 = g@;
        let b = g.add_node(body.vao_id, body.index_count);
        let d = g.add_node(door.vao_id, door.index_count);
        let m = g.add_node(main_rotor.vao_id, main_rotor.index_count);
        let t = g.add_node(tail_rotor.vao_id, tail_rotor.index_count);
        g.add_child(b, d);
        g.add_child(b, m);
        g.add_child(b, t);
        g.add_child(terrain_node, b);
        proof {
            assert(b == body_index(i as int));
            assert(g@.len() == g0.len() + 4);
            assert forall|k: int| 0 <= k < g0.len() && k != 1 implies g@[k] == g0[k] by {}
            assert(g@[b as int].children =~= seq![d, m, t]);
            assert(g@[1].children =~= bodies((i + 1) as nat));
            assert(helicopter_at(g@, body_index(i as int), body, door, main_rotor, tail_rotor));
            assert forall|j: int|
                0 <= j < i + 1 implies #[trigger] helicopter_at(
                g@,
                body_index(j),
                body,
                door,
                main_rotor,
                tail_rotor,
            ) by {
                if j < i {
                    assert(helicopter_at(g0, body_index(j), body, door, main_rotor, tail_rotor));
                    assert(body_index(j) + 3 < g0.len());
                }
            }
            assert forall|p: int, q: int|
                0 <= p < g@.len() && 0 <= q < g@[p].children.len() implies p < #[trigger] g@[p].children[q] by {
                if p == 1 {
                    assert(g@[1].children[q] == body_index(q));
                } else if p < g0.len() {
                    assert(g@[p] == g0[p]);
                    assert(p < g0[p].children[q]);
                } else if p == b {
                } else {
                    assert(g@[p].children.len() == 0);
                }
            }
        }
        i = i + 1;
    }
    let ghost g0 = g@;
    g.add_child(root, terrain_node);
    proof {
        assert(g@[0].children =~= seq![1usize]);
        assert forall|j: int|
            0 <= j < count implies #[trigger] helicopter_at(g@, body_index(j), body, door, main_rotor, tail_rotor) by {
            assert(helicopter_at(g0, body_index(j), body, door, main_rotor, tail_rotor));
        }
        assert forall|p: int, q: int|
            0 <= p < g@.len() && 0 <= q < g@[p].children.len() implies p < #[trigger] g@[p].children[q] by {
            if p != 0 {
                assert(g@[p] == g0[p]);
            }
        }
        lemma_forward_links_acyclic(g@);
        assert forall|i: int| 0 <= i < g@[1].children.len() implies #[trigger] g@[g@[1].children[i] as int].children.len()
            >= 3 by {
            assert(g@[1].children[i] == body_index(i));
            assert(helicopter_at(g@, body_index(i), body, door, main_rotor, tail_rotor));
        }
    }
    (g, root, terrain_node)
}

/// The helicopters linked below `terrain`, in order: each body with its
/// second child, the main rotor, and its third, the tail rotor.
pub fn helicopter_parts(g: &SceneGraph, terrain: usize) -> (parts: Vec<HelicopterParts>)
    requires
        g.wf(),
        terrain < g@.len(),
        carries_helicopters(g@, terrain as int),
    ensures
        parts@.len() == g@[terrain as int].children.len(),
        forall|i: int|
            0 <= i < parts@.len() ==> {
                let b = g@[terrain as int].children[i];
                &&& (#[trigger] parts@[i]).body == b
                &&& parts@[i].main_rotor == g@[b as int].children[1]
                &&& parts@[i].tail_rotor == g@[b as int].children[2]
            },
{
    let mut parts: Vec<HelicopterParts> = Vec::new();
    let n = g.n_children(terrain);
    let mut i: usize = 0;
    while i < n
        invariant
            g.wf(),
            terrain < g@.len(),
            carries_helicopters(g@, terrain as int),
            n == g@[terrain as int].children.len(),
            i <= n,
            parts@.len() == i,
            forall|j: int|
                0 <= j < i ==> {
                    let b = g@[terrain as int].children[j];
                    &&& (#[trigger] parts@[j]).body == b
                    &&& parts@[j].main_rotor == g@[b as int].children[1]
                    &&& parts@[j].tail_rotor == g@[b as int].children[2]
                },
        decreases n - i,
    {
        let body = g.get_child(terrain, i);
        assert(g@[g@[terrain as int].children[i as int] as int].children.len() >= 3);
        let main_rotor = g.get_child(body, 1);
        let tail_rotor = g.get_child(body, 2);
        parts.push(HelicopterParts { body, main_rotor, tail_rotor });
        i = i + 1;
    }
    parts
}

} // verus!
