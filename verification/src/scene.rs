//! The scene graph: nodes that name a vertex array object and an index
//! count, joined by parent-to-child links, and the order in which they are
//! drawn. Nodes live in an arena and are named by their index in it; a node
//! may be linked under several parents, as a node may be pointed to from
//! several places.

use vstd::prelude::*;

verus! {

/// The index count of a node that holds no geometry of its own.
pub const NO_GEOMETRY: i32 = -1;

/// One node of the graph: the vertex array object to draw, how many indices
/// to draw from it, and the nodes linked below it, in the order of linking.
pub struct SceneNode {
    pub vao_id: u32,
    pub index_count: i32,
    pub children: Vec<usize>,
}

/// A node as the contracts see it.
pub struct NodeView {
    pub vao_id: u32,
    pub index_count: i32,
    pub children: Seq<usize>,
}

impl View for SceneNode {
    type V = NodeView;

    open spec fn view(&self) -> NodeView {
        NodeView { vao_id: self.vao_id, index_count: self.index_count, children: self.children@ }
    }
}

/// A node is drawn exactly when it holds geometry.
pub open spec fn is_drawable(n: NodeView) -> bool {
    n.index_count != NO_GEOMETRY
}

/// The arena of nodes.
pub struct SceneGraph {
    nodes: Vec<SceneNode>,
}

/// Every link of `g` leads to a node of `g`.
pub open spec fn links_in_range(g: Seq<NodeView>) -> bool {
    forall|p: int, j: int|
        0 <= p < g.len() && 0 <= j < g[p].children.len() ==> #[trigger] g[p].children[j] < g.len()
}

/// `rank` strictly decreases along every link of `g`.
pub open spec fn ranked_by(g: Seq<NodeView>, rank: spec_fn(int) -> nat) -> bool {
    forall|p: int, j: int|
        0 <= p < g.len() && 0 <= j < g[p].children.len() ==> rank(#[trigger] g[p].children[j] as int)
            < rank(p)
}

/// No node of `g` can be reached from itself by following links.
pub open spec fn is_acyclic(g: Seq<NodeView>) -> bool {
    exists|rank: spec_fn(int) -> nat| #[trigger] ranked_by(g, rank)
}

/// Every link of `g` leads from a node to a node added after it.
pub open spec fn links_forward(g: Seq<NodeView>) -> bool {
    forall|p: int, j: int|
        0 <= p < g.len() && 0 <= j < g[p].children.len() ==> p < #[trigger] g[p].children[j]
}

/// One draw that a traversal issues: the node drawn, the vertex array object
/// and index count it draws with, and the chain of nodes whose own
/// transformations, multiplied in this order onto the transformation given
/// at the root, place it.
pub struct DrawCall {
    pub node: usize,
    pub vao_id: u32,
    pub index_count: i32,
    pub chain: Vec<usize>,
}

/// A draw as the contracts see it.
pub struct PlannedDraw {
    pub node: usize,
    pub vao_id: u32,
    pub index_count: i32,
    pub chain: Seq<usize>,
}

impl View for DrawCall {
    type V = PlannedDraw;

    open spec fn view(&self) -> PlannedDraw {
        PlannedDraw {
            node: self.node,
            vao_id: self.vao_id,
            index_count: self.index_count,
            chain: self.chain@,
        }
    }
}

/// The views of a list of draws.
pub open spec fn draw_views(s: Seq<DrawCall>) -> Seq<PlannedDraw> {
    s.map_values(|d: DrawCall| d@)
}

/// The transformation chain below node `n`, reached with `chain`: a node that
/// holds geometry adds its own transformation, one that holds none leaves
/// the chain as it is.
pub open spec fn chain_below(g: Seq<NodeView>, n: int, chain: Seq<usize>) -> Seq<usize> {
    if is_drawable(g[n]) {
        chain.push(n as usize)
    } else {
        chain
    }
}

/// The draws of a depth-first, parent-before-children walk from node `n`,
/// reached with the transformation chain `chain`. `rank` decreases along
/// the links followed; a link along which it does not is not followed.
pub open spec fn draws_from(g: Seq<NodeView>, rank: spec_fn(int) -> nat, n: int, chain: Seq<usize>) -> Seq<
    PlannedDraw,
>
    decreases rank(n) + 1, 0int,
{
    if !(0 <= n < g.len()) {
        Seq::empty()
    } else {
        let below = chain_below(g, n, chain);
        let own = if is_drawable(g[n]) {
            seq![
                PlannedDraw {
                    node: n as usize,
                    vao_id: g[n].vao_id,
                    index_count: g[n].index_count,
                    chain: below,
                },
            ]
        } else {
            Seq::empty()
        };
        own + draws_of_children(g, rank, n, g[n].children.len() as int, below)
    }
}

/// The draws of the walks from the first `k` children of node `n`, in
/// order, each reached with `chain`.
pub open spec fn draws_of_children(
    g: Seq<NodeView>,
    rank: spec_fn(int) -> nat,
    n: int,
    k: int,
    chain: Seq<usize>,
) -> Seq<PlannedDraw>
    decreases rank(n), k,
{
    if k <= 0 || !(0 <= n < g.len()) || k > g[n].children.len() {
        Seq::empty()
    } else {
        let c = g[n].children[k - 1] as int;
        let earlier = draws_of_children(g, rank, n, k - 1, chain);
        if rank(c) < rank(n) {
            earlier + draws_from(g, rank, c, chain)
        } else {
            earlier
        }
    }
}

/// The draws that drawing the scene from `root` issues, in order.
pub open spec fn scene_draws(g: Seq<NodeView>, root: int) -> Seq<PlannedDraw> {
    draws_from(g, choose|rank: spec_fn(int) -> nat| ranked_by(g, rank), root, Seq::empty())
}

/// Every node of `chain` is a node of `g` that holds geometry.
pub open spec fn chain_holds_geometry(g: Seq<NodeView>, chain: Seq<usize>) -> bool {
    forall|k: int| 0 <= k < chain.len() ==> #[trigger] chain[k] < g.len() && is_drawable(g[chain[k] as int])
}

/// A draw is of a node of `g` that holds geometry, with that node's vertex
/// array object and index count, and its transformation chain ends with that
/// node and passes through nodes that hold geometry only.
pub open spec fn draw_fits(g: Seq<NodeView>, d: PlannedDraw) -> bool {
    &&& d.node < g.len()
    &&& is_drawable(g[d.node as int])
    &&& d.vao_id == g[d.node as int].vao_id
    &&& d.index_count == g[d.node as int].index_count
    &&& d.chain.len() > 0
    &&& d.chain.last() == d.node
    &&& chain_holds_geometry(g, d.chain)
}

/// Every draw of a walk from `n` reached with a chain of nodes that hold
/// geometry fits the graph.
pub proof fn lemma_draws_from_fit(g: Seq<NodeView>, rank: spec_fn(int) -> nat, n: int, chain: Seq<usize>)
    requires
        g.len() <= usize::MAX,
        chain_holds_geometry(g, chain),
    ensures
        forall|i: int|
            0 <= i < draws_from(g, rank, n, chain).len() ==> draw_fits(g, #[trigger] draws_from(g, rank, n, chain)[i]),
    decreases rank(n) + 1, 0int,
{
    if 0 <= n < g.len() {
        let below = chain_below(g, n, chain);
        assert(chain_holds_geometry(g, below)) by {
            assert forall|k: int| 0 <= k < below.len() implies #[trigger] below[k] < g.len() && is_drawable(
                g[below[k] as int],
            ) by {
                if k < chain.len() {
                    assert(below[k] == chain[k]);
                }
            }
        }
        let rest = draws_of_children(g, rank, n, g[n].children.len() as int, below);
        lemma_draws_of_children_fit(g, rank, n, g[n].children.len() as int, below);
        let all = draws_from(g, rank, n, chain);
        assert forall|i: int| 0 <= i < all.len() implies draw_fits(g, #[trigger] all[i]) by {
            if is_drawable(g[n]) {
                if i > 0 {
                    assert(all[i] == rest[i - 1]);
                }
            } else {
                assert(all[i] == rest[i]);
            }
        }
    }
}

/// Every draw of the walks from the first `k` children of `n`, reached with
/// a chain of nodes that hold geometry, fits the graph.
pub proof fn lemma_draws_of_children_fit(
    g: Seq<NodeView>,
    rank: spec_fn(int) -> nat,
    n: int,
    k: int,
    chain: Seq<usize>,
)
    requires
        g.len() <= usize::MAX,
        chain_holds_geometry(g, chain),
    ensures
        forall|i: int|
            0 <= i < draws_of_children(g, rank, n, k, chain).len() ==> draw_fits(
                g,
                #[trigger] draws_of_children(g, rank, n, k, chain)[i],
            ),
    decreases rank(n), k,
{
    if !(k <= 0 || !(0 <= n < g.len()) || k > g[n].children.len()) {
        let c = g[n].children[k - 1] as int;
        lemma_draws_of_children_fit(g, rank, n, k - 1, chain);
        let earlier = draws_of_children(g, rank, n, k - 1, chain);
        let all = draws_of_children(g, rank, n, k, chain);
        if rank(c) < rank(n) {
            lemma_draws_from_fit(g, rank, c, chain);
            let later = draws_from(g, rank, c, chain);
            assert forall|i: int| 0 <= i < all.len() implies draw_fits(g, #[trigger] all[i]) by {
                if i < earlier.len() {
                    assert(all[i] == earlier[i]);
                } else {
                    assert(all[i] == later[i - earlier.len()]);
                }
            }
        }
    }
}

/// Drawing a scene draws only nodes that hold geometry, each with its own
/// vertex array object and index count, and places each by a chain of nodes
/// that hold geometry ending with the node itself: a node without geometry
/// is never drawn and adds no transformation.
pub proof fn lemma_scene_draws_fit(g: Seq<NodeView>, root: int)
    requires
        g.len() <= usize::MAX,
    ensures
        forall|i: int| 0 <= i < scene_draws(g, root).len() ==> draw_fits(g, #[trigger] scene_draws(g, root)[i]),
{
    let rank = choose|rank: spec_fn(int) -> nat| ranked_by(g, rank);
    lemma_draws_from_fit(g, rank, root, Seq::empty());
}

/// Along path `p`, the link from its `i`-th node to the next one exists.
pub open spec fn link_at(g: Seq<NodeView>, p: Seq<usize>, i: int) -> bool {
    g[p[i] as int].children.contains(p[i + 1])
}

/// `p` is a path in `g`: a non-empty sequence of nodes of `g`, each linked
/// below the one before it.
pub open spec fn is_path(g: Seq<NodeView>, p: Seq<usize>) -> bool {
    &&& p.len() > 0
    &&& forall|i: int| 0 <= i < p.len() ==> #[trigger] p[i] < g.len()
    &&& forall|i: int| 0 <= i < p.len() - 1 ==> #[trigger] link_at(g, p, i)
}

/// The nodes of `p` that hold geometry, in the order of `p`.
pub open spec fn drawable_on(g: Seq<NodeView>, p: Seq<usize>) -> Seq<usize>
    decreases p.len(),
{
    if p.len() == 0 {
        Seq::empty()
    } else {
        let earlier = drawable_on(g, p.drop_last());
        if is_drawable(g[p.last() as int]) {
            earlier.push(p.last())
        } else {
            earlier
        }
    }
}

/// Draw `d` is reached from node `from` along path `p`, and its chain is
/// `prefix` followed by the nodes of `p` that hold geometry.
pub open spec fn placed_along(
    g: Seq<NodeView>,
    from: usize,
    prefix: Seq<usize>,
    d: PlannedDraw,
    p: Seq<usize>,
) -> bool {
    &&& is_path(g, p)
    &&& p[0] == from
    &&& p.last() == d.node
    &&& d.chain == prefix + drawable_on(g, p)
}

/// The nodes that hold geometry on a path that starts with `x` are `x`, if
/// it holds geometry, followed by those on the rest of the path.
proof fn lemma_drawable_on_prepend(g: Seq<NodeView>, x: usize, p: Seq<usize>)
    ensures
        drawable_on(g, seq![x] + p) == drawable_on(g, seq![x]) + drawable_on(g, p),
    decreases p.len(),
{
    let one = seq![x];
    assert(one.drop_last() =~= Seq::<usize>::empty());
    if p.len() == 0 {
        assert(one + p =~= one);
    } else {
        let q = one + p;
        assert(q.drop_last() =~= one + p.drop_last());
        assert(q.last() == p.last());
        lemma_drawable_on_prepend(g, x, p.drop_last());
        if is_drawable(g[p.last() as int]) {
            assert(drawable_on(g, q) =~= drawable_on(g, one) + drawable_on(g, p));
        } else {
            assert(drawable_on(g, q) =~= drawable_on(g, one) + drawable_on(g, p));
        }
    }
}

/// Draw `d` is reached from node `from` along some path of `g`, and its
/// chain is `prefix` followed by the nodes of that path that hold geometry.
pub open spec fn reached_along_path(g: Seq<NodeView>, from: usize, prefix: Seq<usize>, d: PlannedDraw) -> bool {
    exists|p: Seq<usize>| #[trigger] placed_along(g, from, prefix, d, p)
}

/// Draw `d` is reached, as `reached_along_path` says, from one of the first
/// `k` children of node `n`.
pub open spec fn reached_from_child(g: Seq<NodeView>, n: int, k: int, prefix: Seq<usize>, d: PlannedDraw) -> bool {
    exists|j: int| 0 <= j < k && #[trigger] reached_along_path(g, g[n].children[j], prefix, d)
}

/// Each draw of the walk from `n` reached with `chain` lies on a path from
/// `n`, and its chain is `chain` followed by the nodes of that path that
/// hold geometry.
proof fn lemma_draws_from_follow_paths(g: Seq<NodeView>, rank: spec_fn(int) -> nat, n: int, chain: Seq<usize>)
    requires
        g.len() <= usize::MAX,
        links_in_range(g),
    ensures
        forall|i: int|
            0 <= i < draws_from(g, rank, n, chain).len() ==> reached_along_path(
                g,
                n as usize,
                chain,
                #[trigger] draws_from(g, rank, n, chain)[i],
            ),
    decreases rank(n) + 1, 0int,
{
    if 0 <= n < g.len() {
        let below = chain_below(g, n, chain);
        let k = g[n].children.len() as int;
        let rest = draws_of_children(g, rank, n, k, below);
        lemma_draws_of_children_follow_paths(g, rank, n, k, below);
        let all = draws_from(g, rank, n, chain);
        let one = seq![n as usize];
        assert(one.drop_last() =~= Seq::<usize>::empty());
        assert(drawable_on(g, one.drop_last()) == Seq::<usize>::empty());
        assert(one.last() == n as usize);
        assert(below =~= chain + drawable_on(g, one));
        assert forall|i: int| 0 <= i < all.len() implies reached_along_path(g, n as usize, chain, #[trigger] all[i]) by {
            let off: int = if is_drawable(g[n]) { 1 } else { 0 };
            if i < off {
                assert(is_path(g, one));
                assert(placed_along(g, n as usize, chain, all[i], one));
            } else {
                assert(all[i] == rest[i - off]);
                let d = rest[i - off];
                assert(reached_from_child(g, n, k, below, d));
                let j = choose|j: int| 0 <= j < k && #[trigger] reached_along_path(g, g[n].children[j], below, d);
                let p = choose|p: Seq<usize>| #[trigger] placed_along(g, g[n].children[j], below, d, p);
                let q = one + p;
                lemma_drawable_on_prepend(g, n as usize, p);
                assert(q[0] == n as usize);
                assert(q.last() == p.last());
                assert forall|t: int| 0 <= t < q.len() implies #[trigger] q[t] < g.len() by {
                    if t > 0 {
                        assert(q[t] == p[t - 1]);
                    }
                }
                assert forall|t: int| 0 <= t < q.len() - 1 implies #[trigger] link_at(g, q, t) by {
                    if t == 0 {
                        assert(g[n].children[j] == q[1]);
                    } else {
                        assert(link_at(g, p, t - 1));
                        assert(q[t] == p[t - 1]);
                        assert(q[t + 1] == p[t]);
                    }
                }
                assert(is_path(g, q));
                assert(d.chain =~= chain + drawable_on(g, q));
                assert(placed_along(g, n as usize, chain, all[i], q));
            }
        }
    }
}

/// Each draw of the walks from the first `k` children of `n`, reached with
/// `chain`, lies on a path from one of those children, and its chain is
/// `chain` followed by the nodes of that path that hold geometry.
proof fn lemma_draws_of_children_follow_paths(
    g: Seq<NodeView>,
    rank: spec_fn(int) -> nat,
    n: int,
    k: int,
    chain: Seq<usize>,
)
    requires
        g.len() <= usize::MAX,
        links_in_range(g),
        0 <= n < g.len(),
        k <= g[n].children.len(),
    ensures
        forall|i: int|
            0 <= i < draws_of_children(g, rank, n, k, chain).len() ==> reached_from_child(
                g,
                n,
                k,
                chain,
                #[trigger] draws_of_children(g, rank, n, k, chain)[i],
            ),
    decreases rank(n), k,
{
    if k > 0 {
        let c = g[n].children[k - 1] as int;
        lemma_draws_of_children_follow_paths(g, rank, n, k - 1, chain);
        let earlier = draws_of_children(g, rank, n, k - 1, chain);
        let all = draws_of_children(g, rank, n, k, chain);
        assert forall|i: int| 0 <= i < all.len() implies reached_from_child(g, n, k, chain, #[trigger] all[i]) by {
            if i < earlier.len() {
                assert(all[i] == earlier[i]);
                assert(reached_from_child(g, n, k - 1, chain, earlier[i]));
                let j = choose|j: int| 0 <= j < k - 1 && #[trigger] reached_along_path(g, g[n].children[j], chain, earlier[i]);
                assert(reached_along_path(g, g[n].children[j], chain, all[i]));
            } else {
                assert(rank(c) < rank(n));
                lemma_draws_from_follow_paths(g, rank, c, chain);
                let later = draws_from(g, rank, c, chain);
                assert(all[i] == later[i - earlier.len()]);
                assert(reached_along_path(g, c as usize, chain, later[i - earlier.len()]));
                assert(g[n].children[k - 1] == c as usize);
                assert(reached_along_path(g, g[n].children[k - 1], chain, all[i]));
            }
        }
    }
}

/// Every draw of a scene lies on a path from the root to the drawn node,
/// and the chain that places it is exactly the nodes of that path that hold
/// geometry, in path order: a node without geometry passes on the chain it
/// was reached with, and every ancestor with geometry stays in it.
pub proof fn lemma_scene_draws_follow_paths(g: Seq<NodeView>, root: int)
    requires
        g.len() <= usize::MAX,
        links_in_range(g),
    ensures
        forall|i: int|
            0 <= i < scene_draws(g, root).len() ==> reached_along_path(
                g,
                root as usize,
                Seq::empty(),
                #[trigger] scene_draws(g, root)[i],
            ),
        forall|i: int, p: Seq<usize>|
            0 <= i < scene_draws(g, root).len() && #[trigger] placed_along(
                g,
                root as usize,
                Seq::empty(),
                scene_draws(g, root)[i],
                p,
            ) ==> {
                &&& is_path(g, p)
                &&& p[0] == root
                &&& p.last() == scene_draws(g, root)[i].node
                &&& scene_draws(g, root)[i].chain == drawable_on(g, p)
            },
{
    let rank = choose|rank: spec_fn(int) -> nat| ranked_by(g, rank);
    lemma_draws_from_follow_paths(g, rank, root, Seq::empty());
    assert forall|i: int, p: Seq<usize>|
        0 <= i < scene_draws(g, root).len() && #[trigger] placed_along(
            g,
            root as usize,
            Seq::empty(),
            scene_draws(g, root)[i],
            p,
        ) implies scene_draws(g, root)[i].chain == drawable_on(g, p) by {
        assert(Seq::<usize>::empty() + drawable_on(g, p) =~= drawable_on(g, p));
    }
}

/// A root that holds geometry is drawn first, placed by itself alone.
pub proof fn lemma_root_drawn_first(g: Seq<NodeView>, root: int)
    requires
        0 <= root < g.len(),
        is_drawable(g[root]),
    ensures
        scene_draws(g, root).len() > 0,
        scene_draws(g, root)[0] == (PlannedDraw {
            node: root as usize,
            vao_id: g[root].vao_id,
            index_count: g[root].index_count,
            chain: seq![root as usize],
        }),
{
    let rank = choose|rank: spec_fn(int) -> nat| ranked_by(g, rank);
    let below = chain_below(g, root, Seq::empty());
    assert(below =~= seq![root as usize]);
    let rest = draws_of_children(g, rank, root, g[root].children.len() as int, below);
    assert(scene_draws(g, root) == seq![
        PlannedDraw { node: root as usize, vao_id: g[root].vao_id, index_count: g[root].index_count, chain: below },
    ] + rest);
}

/// The walk from `n` issues the same draws whichever rank function of an
/// acyclic graph guides it.
pub proof fn lemma_draws_from_rank_free(
    g: Seq<NodeView>,
    r1: spec_fn(int) -> nat,
    r2: spec_fn(int) -> nat,
    n: int,
    chain: Seq<usize>,
)
    requires
        ranked_by(g, r1),
        ranked_by(g, r2),
    ensures
        draws_from(g, r1, n, chain) == draws_from(g, r2, n, chain),
    decreases r1(n) + 1, 0int,
{
    if 0 <= n < g.len() {
        lemma_draws_of_children_rank_free(g, r1, r2, n, g[n].children.len() as int, chain_below(g, n, chain));
    }
}

/// The walks from the first `k` children of `n` issue the same draws
/// whichever rank function of an acyclic graph guides them.
pub proof fn lemma_draws_of_children_rank_free(
    g: Seq<NodeView>,
    r1: spec_fn(int) -> nat,
    r2: spec_fn(int) -> nat,
    n: int,
    k: int,
    chain: Seq<usize>,
)
    requires
        ranked_by(g, r1),
        ranked_by(g, r2),
    ensures
        draws_of_children(g, r1, n, k, chain) == draws_of_children(g, r2, n, k, chain),
    decreases r1(n), k,
{
    if !(k <= 0 || !(0 <= n < g.len()) || k > g[n].children.len()) {
        let c = g[n].children[k - 1] as int;
        assert(r1(c) < r1(n));
        assert(r2(c) < r2(n));
        lemma_draws_of_children_rank_free(g, r1, r2, n, k - 1, chain);
        lemma_draws_from_rank_free(g, r1, r2, c, chain);
    }
}

/// In an acyclic graph the draws of a scene are those of the walk guided by
/// any rank function that decreases along its links.
pub proof fn lemma_scene_draws_rank_free(g: Seq<NodeView>, root: int, rank: spec_fn(int) -> nat)
    requires
        ranked_by(g, rank),
    ensures
        scene_draws(g, root) == draws_from(g, rank, root, Seq::empty()),
{
    let chosen = choose|r: spec_fn(int) -> nat| ranked_by(g, r);
    assert(ranked_by(g, chosen));
    lemma_draws_from_rank_free(g, chosen, rank, root, Seq::empty());
}

/// A graph whose links all lead from a node to a later one is acyclic.
pub proof fn lemma_forward_links_acyclic(g: Seq<NodeView>)
    requires
        links_forward(g),
    ensures
        is_acyclic(g),
{
    let rank = |i: int| if 0 <= i < g.len() { (g.len() - i) as nat } else { 0nat };
    assert forall|p: int, j: int|
        0 <= p < g.len() && 0 <= j < g[p].children.len() implies rank(#[trigger] g[p].children[j] as int) < rank(p) by {
        assert(p < g[p].children[j]);
    }
    assert(ranked_by(g, rank));
}

impl View for SceneGraph {
    type V = Seq<NodeView>;

    closed spec fn view(&self) -> Seq<NodeView> {
        self.nodes@.map_values(|n: SceneNode| n@)
    }
}

impl SceneGraph {
    /// The graph is well formed: every link leads to a node of the graph.
    pub open spec fn wf(&self) -> bool {
        links_in_range(self@)
    }

    /// An empty graph.
    pub fn new() -> (g: SceneGraph)
        ensures
            g.wf(),
            g@ == Seq::<NodeView>::empty(),
    {
        let g = SceneGraph { nodes: Vec::new() };
        assert(g@ =~= Seq::<NodeView>::empty());
        g
    }

    /// The number of nodes.
    pub fn len(&self) -> (n: usize)
        ensures
            n == self@.len(),
    {
        self.nodes.len()
    }

    /// Adds a node that draws `index_count` indices of the vertex array
    /// object `vao_id`, with no children, and returns its index.
    pub fn add_node(&mut self, vao_id: u32, index_count: i32) -> (id: usize)
        requires
            old(self).wf(),
        ensures
            final(self).wf(),
            id == old(self)@.len(),
            final(self)@ == old(self)@.push(
                NodeView { vao_id, index_count, children: Seq::empty() },
            ),
    {
        let id = self.nodes.len();
        let node = SceneNode { vao_id, index_count, children: Vec::new() };
        assert(node@.children =~= Seq::<usize>::empty());
        self.nodes.push(node);
        assert(self@ =~= old(self)@.push(node@));
        id
    }

    /// Adds a node that holds no geometry (vertex array object 0, index
    /// count [`NO_GEOMETRY`]) and serves to group its children.
    pub fn add_empty_node(&mut self) -> (id: usize)
        requires
            old(self).wf(),
        ensures
            final(self).wf(),
            id == old(self)@.len(),
            final(self)@ == old(self)@.push(
                NodeView { vao_id: 0, index_count: NO_GEOMETRY, children: Seq::empty() },
            ),
    {
        self.add_node(0, NO_GEOMETRY)
    }

    /// Links `child` below `parent`, after the children it already has.
    pub fn add_child(&mut self, parent: usize, child: usize)
        requires
            old(self).wf(),
            parent < old(self)@.len(),
            child < old(self)@.len(),
        ensures
            final(self).wf(),
            final(self)@ == old(self)@.update(
                parent as int,
                NodeView { children: old(self)@[parent as int].children.push(child), ..old(self)@[parent as int] },
            ),
    {
        self.nodes[parent].children.push(child);
        let ghost want = old(self)@.update(
            parent as int,
            NodeView { children: old(self)@[parent as int].children.push(child), ..old(self)@[parent as int] },
        );
        assert(self@ =~= want) by {
            assert forall|i: int| 0 <= i < want.len() implies self@[i] == want[i] by {
                if i < parent {
                } else if i == parent {
                } else {
                }
            }
        }
        assert(links_in_range(self@)) by {
            assert forall|p: int, j: int|
                0 <= p < self@.len() && 0 <= j < self@[p].children.len() implies #[trigger] self@[p].children[j]
                < self@.len() by {
                if p == parent && j == old(self)@[p].children.len() {
                } else {
                    assert(old(self)@[p].children[j] == self@[p].children[j]);
                }
            }
        }
    }

    /// The node at `id`.
    pub fn node(&self, id: usize) -> (n: &SceneNode)
        requires
            id < self@.len(),
        ensures
            n@ == self@[id as int],
    {
        &self.nodes[id]
    }

    /// How many children are linked below `id`.
    pub fn n_children(&self, id: usize) -> (n: usize)
        requires
            id < self@.len(),
        ensures
            n == self@[id as int].children.len(),
    {
        self.nodes[id].children.len()
    }

    /// The `i`-th child linked below `id`.
    pub fn get_child(&self, id: usize, i: usize) -> (c: usize)
        requires
            id < self@.len(),
            i < self@[id as int].children.len(),
        ensures
            c == self@[id as int].children[i as int],
    {
        self.nodes[id].children[i]
    }

    /// Appends to `out` the draws of the walk from `n` reached with `chain`.
    fn collect_draws(
        &self,
        n: usize,
        chain: &Vec<usize>,
        out: &mut Vec<DrawCall>,
        Ghost(rank): Ghost<spec_fn(int) -> nat>,
    )
        requires
            self.wf(),
            n < self@.len(),
            ranked_by(self@, rank),
        ensures
            draw_views(final(out)@) == draw_views(old(out)@) + draws_from(self@, rank, n as int, chain@),
        decreases rank(n as int),
    {
        let ghost g = self@;
        let ghost start = draw_views(out@);
        let node = &self.nodes[n];
        assert(node@ == g[n as int]);
        let mut below = chain.clone();
        if node.index_count != NO_GEOMETRY {
            below.push(n);
            let call = DrawCall {
                node: n,
                vao_id: node.vao_id,
                index_count: node.index_count,
                chain: below.clone(),
            };
            out.push(call);
        }
        assert(below@ == chain_below(g, n as int, chain@));
        let ghost own = draw_views(out@).skip(start.len() as int);
        assert(draw_views(out@) =~= start + own);
        let len = node.children.len();
        let mut i: usize = 0;
        while i < len
            invariant
                self.wf(),
                g == self@,
                n < g.len(),
                node@ == g[n as int],
                ranked_by(g, rank),
                len == g[n as int].children.len(),
                i <= len,
                below@ == chain_below(g, n as int, chain@),
                draw_views(out@) == start + own + draws_of_children(g, rank, n as int, i as int, below@),
            decreases len - i,
        {
            let c = node.children[i];
            assert(c == g[n as int].children[i as int]);
            assert(c < g.len());
            assert(rank(c as int) < rank(n as int));
            let ghost before = draw_views(out@);
            self.collect_draws(c, &below, out, Ghost(rank));
            i = i + 1;
            assert(draw_views(out@) =~= start + own + draws_of_children(g, rank, n as int, i as int, below@));
        }
        assert(draws_from(g, rank, n as int, chain@) =~= own + draws_of_children(g, rank, n as int, len as int, below@));
    }

    /// The draws that drawing the scene from `root` issues, in the order the
    /// walk issues them: a node before the nodes linked below it, children
    /// in the order they were linked.
    pub fn draw_list(&self, root: usize) -> (draws: Vec<DrawCall>)
        requires
            self.wf(),
            root < self@.len(),
            is_acyclic(self@),
        ensures
            draw_views(draws@) == scene_draws(self@, root as int),
            forall|i: int| 0 <= i < draws@.len() ==> draw_fits(self@, #[trigger] draws@[i]@),
    {
        let ghost rank = choose|rank: spec_fn(int) -> nat| ranked_by(self@, rank);
        let mut out: Vec<DrawCall> = Vec::new();
        let empty: Vec<usize> = Vec::new();
        assert(draw_views(out@) =~= Seq::<PlannedDraw>::empty());
        self.collect_draws(root, &empty, &mut out, Ghost(rank));
        assert(empty@ =~= Seq::<usize>::empty());
        assert(draw_views(out@) =~= scene_draws(self@, root as int));
        let count = self.nodes.len();
        proof {
            assert(self@.len() == count);
            lemma_scene_draws_fit(self@, root as int);
            assert forall|i: int| 0 <= i < out@.len() implies draw_fits(self@, #[trigger] out@[i]@) by {
                assert(out@[i]@ == draw_views(out@)[i]);
            }
        }
        out
    }
}

} // verus!
