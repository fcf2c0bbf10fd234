use vstd::prelude::*;
use crate::constants::{displacement, lemma_displacement_is_heading, COORDINATE_LIMIT};
use crate::game::player::Player;

verus! {

/// A point of a trail, in position units.
#[derive(Debug, PartialEq, Eq, Clone, Copy, Structural)]
pub struct Node(pub i64, pub i64);

/// Whether `v` is a coordinate that the geometry can work on.
pub open spec fn within_limit(v: int) -> bool {
    -COORDINATE_LIMIT <= v <= COORDINATE_LIMIT
}

impl Node {
    /// Both coordinates are within the coordinate limit.
    pub open spec fn wf(&self) -> bool {
        within_limit(self.0 as int) && within_limit(self.1 as int)
    }
}

/// The common denominator of the two line parameters at which the line
/// through `a` and `b` meets the line through `c` and `d`.
pub open spec fn denominator(a: Node, b: Node, c: Node, d: Node) -> int {
    (a.0 - b.0) * (c.1 - d.1) - (a.1 - b.1) * (c.0 - d.0)
}

/// Numerator of the parameter `t`, which runs from zero at `a` to one at `b`.
pub open spec fn t_numerator(a: Node, b: Node, c: Node, d: Node) -> int {
    (a.0 - c.0) * (c.1 - d.1) - (a.1 - c.1) * (c.0 - d.0)
}

/// Numerator of the parameter `u`, which runs from zero at `c` to one at `d`.
pub open spec fn u_numerator(a: Node, b: Node, c: Node, d: Node) -> int {
    -((a.0 - b.0) * (a.1 - c.1) - (a.1 - b.1) * (a.0 - c.0))
}

/// Whether the fraction `numerator / denominator` lies strictly between
/// zero and one. A zero denominator gives `false`.
pub open spec fn strictly_inside(numerator: int, denominator: int) -> bool {
    if denominator > 0 {
        0 < numerator < denominator
    } else {
        denominator < numerator < 0
    }
}

/// Whether the segments from `a` to `b` and from `c` to `d` cross in a point
/// that is an end of neither: `0 < t < 1` and `0 < u < 1`. Parallel and
/// collinear segments never do.
pub open spec fn segments_intersect(a: Node, b: Node, c: Node, d: Node) -> bool {
    &&& denominator(a, b, c, d) != 0
    &&& strictly_inside(t_numerator(a, b, c, d), denominator(a, b, c, d))
    &&& strictly_inside(u_numerator(a, b, c, d), denominator(a, b, c, d))
}

/// The step that brought `player` to where it stands: from its position one
/// tick ago, had it not turned since, to its position now.
pub open spec fn motion_segment(player: Player) -> (Node, Node) {
    (
        Node(
            (player.x - displacement(player.angle_unit_vector_x as int)) as i64,
            (player.y - displacement(player.angle_unit_vector_y as int)) as i64,
        ),
        Node(player.x, player.y),
    )
}

/// Both ends of the player's last step are within the coordinate limit.
pub open spec fn motion_within_limit(player: Player) -> bool {
    &&& within_limit(player.x as int)
    &&& within_limit(player.y as int)
    &&& within_limit(player.x - player.angle_unit_vector_x)
    &&& within_limit(player.y - player.angle_unit_vector_y)
}

/// Whether the player's last step crosses the piece of trail that starts at
/// node `i`.
pub open spec fn crosses_at(nodes: Seq<Node>, i: int, player: Player) -> bool {
    segments_intersect(nodes[i], nodes[i + 1], motion_segment(player).0, motion_segment(player).1)
}

/// Whether the player's last step crosses any piece of the trail `nodes`.
pub open spec fn collides(nodes: Seq<Node>, player: Player) -> bool {
    exists|i: int| 0 <= i < nodes.len() - 1 && #[trigger] crosses_at(nodes, i, player)
}

/// Every node of the trail is within the coordinate limit.
pub open spec fn nodes_wf(nodes: Seq<Node>) -> bool {
    forall|i: int| 0 <= i < nodes.len() ==> (#[trigger] nodes[i]).wf()
}

/// The trail that one player leaves behind during a round.
#[derive(Debug, PartialEq, Eq)]
pub struct Path {
    pub nodes: Vec<Node>,
}

impl View for Path {
    type V = Seq<Node>;

    open spec fn view(&self) -> Seq<Node> {
        self.nodes@
    }
}

/// The product of two differences of coordinates within the limit stays far
/// inside the range of 128-bit arithmetic.
proof fn lemma_product_bound(a: int, b: int)
    requires
        -2_199_023_255_552 <= a <= 2_199_023_255_552,
        -2_199_023_255_552 <= b <= 2_199_023_255_552,
    ensures
        -4_835_703_278_458_516_698_824_704 <= a * b <= 4_835_703_278_458_516_698_824_704,
{
    assert(-4_835_703_278_458_516_698_824_704 <= a * b <= 4_835_703_278_458_516_698_824_704)
        by (nonlinear_arith)
        requires
            -2_199_023_255_552 <= a <= 2_199_023_255_552,
            -2_199_023_255_552 <= b <= 2_199_023_255_552,
    ;
}

impl Path {
    /// Every node is within the coordinate limit.
    pub open spec fn wf(&self) -> bool {
        nodes_wf(self@)
    }

    /// A trail without nodes.
    pub fn new() -> (path: Path)
        ensures
            path@ == Seq::<Node>::empty(),
    {
        Path { nodes: Vec::new() }
    }

    /// Adds `node` at the end of the trail.
    pub fn push(&mut self, node: Node)
        ensures
            final(self)@ == old(self)@.push(node),
    {
        self.nodes.push(node);
    }

    /// Whether the player's last step crosses this trail. A trail of fewer
    /// than two nodes has no piece to cross.
    pub fn check_collision(&self, player: &Player) -> (hit: bool)
        requires
            self.wf(),
            motion_within_limit(*player),
        ensures
            hit == collides(self@, *player),
    {
        if self.nodes.len() < 2 {
            return false;
        }
        proof {
            lemma_displacement_is_heading(player.angle_unit_vector_x as int);
            lemma_displacement_is_heading(player.angle_unit_vector_y as int);
        }
        let player_nodes = (
            Node(player.x - player.angle_unit_vector_x as i64, player.y - player.angle_unit_vector_y as i64),
            Node(player.x, player.y),
        );
        assert(player_nodes == motion_segment(*player));
        let last: usize = self.nodes.len() - 1;
        let mut i: usize = 0;
        while i < last
            invariant
                i <= last,
                last == self.nodes.len() - 1,
                self.wf(),
                player_nodes == motion_segment(*player),
                player_nodes.0.wf(),
                player_nodes.1.wf(),
                forall|j: int| 0 <= j < i ==> !#[trigger] crosses_at(self@, j, *player),
            decreases last - i,
        {
            let path_nodes = (self.nodes[i], self.nodes[i + 1]);
            if Self::check_if_line_segments_intersect(&path_nodes, &player_nodes) {
                assert(crosses_at(self@, i as int, *player));
                return true;
            }
            i += 1;
        }
        false
    }

    /// Whether the piece of trail `path_nodes` and the step `player_nodes`
    /// cross in a point that is an end of neither.
    pub fn check_if_line_segments_intersect(
        path_nodes: &(Node, Node),
        player_nodes: &(Node, Node),
    ) -> (hit: bool)
        requires
            path_nodes.0.wf(),
            path_nodes.1.wf(),
            player_nodes.0.wf(),
            player_nodes.1.wf(),
        ensures
            hit == segments_intersect(path_nodes.0, path_nodes.1, player_nodes.0, player_nodes.1),
    {
        let x1: i128 = path_nodes.0.0 as i128;
        let y1: i128 = path_nodes.0.1 as i128;
        let x2: i128 = path_nodes.1.0 as i128;
        let y2: i128 = path_nodes.1.1 as i128;

        let x3: i128 = player_nodes.0.0 as i128;
        let y3: i128 = player_nodes.0.1 as i128;
        let x4: i128 = player_nodes.1.0 as i128;
        let y4: i128 = player_nodes.1.1 as i128;

        proof {
            lemma_product_bound(x1 - x2, y3 - y4);
            lemma_product_bound(y1 - y2, x3 - x4);
            lemma_product_bound(x1 - x3, y3 - y4);
            lemma_product_bound(y1 - y3, x3 - x4);
            lemma_product_bound(x1 - x2, y1 - y3);
            lemma_product_bound(y1 - y2, x1 - x3);
        }
        let denominator: i128 = (x1 - x2) * (y3 - y4) - (y1 - y2) * (x3 - x4);

        // Parallel lines meet nowhere, or everywhere.
        if denominator == 0 {
            return false;
        }
        let t: i128 = (x1 - x3) * (y3 - y4) - (y1 - y3) * (x3 - x4);
        let u: i128 = -((x1 - x2) * (y1 - y3) - (y1 - y2) * (x1 - x3));

        if denominator > 0 {
            0 < t && t < denominator && 0 < u && u < denominator
        } else {
            denominator < t && t < 0 && denominator < u && u < 0
        }
    }
}

impl Clone for Path {
    fn clone(&self) -> (copy: Path)
        ensures
            copy@ == self@,
    {
        Path { nodes: self.nodes.clone() }
    }
}

/// Exchanging the two segments does not change whether they cross.
pub proof fn lemma_intersection_commutes(a: Node, b: Node, c: Node, d: Node)
    ensures
        segments_intersect(a, b, c, d) == segments_intersect(c, d, a, b),
{
    let (ax, ay, bx, by) = (a.0 as int, a.1 as int, b.0 as int, b.1 as int);
    let (cx, cy, dx, dy) = (c.0 as int, c.1 as int, d.0 as int, d.1 as int);
    assert((cx - dx) * (ay - by) - (cy - dy) * (ax - bx) == -((ax - bx) * (cy - dy) - (ay - by) * (
    cx - dx))) by (nonlinear_arith);
    assert((cx - ax) * (ay - by) - (cy - ay) * (ax - bx) == (ax - bx) * (ay - cy) - (ay - by) * (ax
        - cx)) by (nonlinear_arith);
    assert(-((cx - dx) * (cy - ay) - (cy - dy) * (cx - ax)) == -((ax - cx) * (cy - dy) - (ay - cy)
        * (cx - dx))) by (nonlinear_arith);
    assert(denominator(c, d, a, b) == -denominator(a, b, c, d));
    assert(t_numerator(c, d, a, b) == -u_numerator(a, b, c, d));
    assert(u_numerator(c, d, a, b) == -t_numerator(a, b, c, d));
}

/// A segment does not cross itself.
pub proof fn lemma_no_self_intersection(a: Node, b: Node)
    ensures
        !segments_intersect(a, b, a, b),
{
    let (ax, ay, bx, by) = (a.0 as int, a.1 as int, b.0 as int, b.1 as int);
    assert((ax - bx) * (ay - by) - (ay - by) * (ax - bx) == 0) by (nonlinear_arith);
}

/// A trail that a step crosses is still crossed by it after a node has been
/// added to the trail.
pub proof fn lemma_collision_survives_push(nodes: Seq<Node>, node: Node, player: Player)
    requires
        collides(nodes, player),
    ensures
        collides(nodes.push(node), player),
{
    let i = choose|i: int| 0 <= i < nodes.len() - 1 && #[trigger] crosses_at(nodes, i, player);
    let longer = nodes.push(node);
    assert(longer[i] == nodes[i] && longer[i + 1] == nodes[i + 1]);
    assert(crosses_at(longer, i, player));
}

/// A trail of fewer than two nodes is crossed by no step.
pub proof fn lemma_short_trail_is_harmless(nodes: Seq<Node>, player: Player)
    requires
        nodes.len() < 2,
    ensures
        !collides(nodes, player),
{
}

} // verus!
