use vstd::prelude::*;
use crate::arith::{lemma_portion_bounded, portion};
use crate::coord::{Coord, WorldPosition, CELL_SIZE};

verus! {

/// Progress of a traveller that has reached the end of the path.
pub const FULL_PROGRESS: u64 = 1_000_000;

/// Why a list of nodes is no path.
#[derive(Clone, Copy, Debug, PartialEq, Eq, Structural)]
pub enum PathError {
    /// A path has two nodes at least.
    TooFewNodes,
    /// The segments together are longer than `i32::MAX` cells.
    TooLong,
}

/// Length of the segment from node `i` to node `i + 1`, in cells.
pub open spec fn segment_length(nodes: Seq<Coord>, i: int) -> int {
    nodes[i].manhattan(nodes[i + 1])
}

/// Length of the first `n` segments together, in cells.
pub open spec fn length_through(nodes: Seq<Coord>, n: int) -> int
    decreases n,
{
    if n <= 0 {
        0
    } else {
        length_through(nodes, n - 1) + segment_length(nodes, n - 1)
    }
}

/// Length of all segments together, in cells.
pub open spec fn total_length(nodes: Seq<Coord>) -> int {
    length_through(nodes, nodes.len() - 1)
}

/// The nodes make a path: there are two of them at least, and the length
/// of the whole fits an `i32`.
pub open spec fn valid_nodes(nodes: Seq<Coord>) -> bool {
    nodes.len() >= 2 && total_length(nodes) <= i32::MAX
}

/// Distance from the start of the path at which a traveller with the given
/// progress is found, rounded down.
pub open spec fn travelled(nodes: Seq<Coord>, progress: int) -> int {
    total_length(nodes) * CELL_SIZE * progress / (FULL_PROGRESS as int)
}

/// A traveller at `distance` from the start is on segment `i`: the first
/// segment that ends at `distance` or beyond it.
pub open spec fn on_segment(nodes: Seq<Coord>, distance: int, i: int) -> bool {
    &&& 0 <= i < nodes.len() - 1
    &&& distance <= length_through(nodes, i + 1) * CELL_SIZE
    &&& i > 0 ==> distance > length_through(nodes, i) * CELL_SIZE
}

/// The segment on which a traveller at `distance` from the start is found.
pub open spec fn segment_at(nodes: Seq<Coord>, distance: int) -> int {
    choose|i: int| on_segment(nodes, distance, i)
}

/// The point at distance `along` from the start of segment `i`, on the
/// straight line to its end. On a segment without length it is the start.
pub open spec fn point_on_segment(nodes: Seq<Coord>, i: int, along: int) -> WorldPosition {
    let start = nodes[i];
    let end = nodes[i + 1];
    let cells = segment_length(nodes, i);
    if cells == 0 {
        start.world_spec()
    } else {
        WorldPosition {
            x: (start.x * CELL_SIZE + portion(end.x - start.x, along, cells)) as i64,
            y: (start.y * CELL_SIZE + portion(end.y - start.y, along, cells)) as i64,
        }
    }
}

/// Where a traveller with the given progress is found. Progress beyond
/// `FULL_PROGRESS` is off the path and is answered with the origin.
pub open spec fn lerp_spec(nodes: Seq<Coord>, progress: int) -> WorldPosition {
    if progress > FULL_PROGRESS {
        WorldPosition { x: 0, y: 0 }
    } else {
        let distance = travelled(nodes, progress);
        let i = segment_at(nodes, distance);
        point_on_segment(nodes, i, distance - length_through(nodes, i) * CELL_SIZE)
    }
}

/// The lengths of the segments never take anything off the path.
pub proof fn lemma_length_grows(nodes: Seq<Coord>, m: int, n: int)
    requires
        m <= n,
    ensures
        0 <= length_through(nodes, m) <= length_through(nodes, n),
    decreases n - m, n,
{
    if m < n {
        lemma_length_grows(nodes, m, n - 1);
    } else if m > 0 {
        lemma_length_grows(nodes, m - 1, n - 1);
    }
}

/// A traveller is on one segment only.
pub proof fn lemma_segment_unique(nodes: Seq<Coord>, distance: int, i: int, k: int)
    requires
        on_segment(nodes, distance, i),
        on_segment(nodes, distance, k),
    ensures
        i == k,
{
    if i < k {
        lemma_length_grows(nodes, i + 1, k);
    } else if k < i {
        lemma_length_grows(nodes, k + 1, i);
    }
}

/// Every distance on the path is on a segment: on the one that is
/// returned, which is `from` or comes after it.
pub proof fn lemma_segment_exists(nodes: Seq<Coord>, distance: int, from: int) -> (i: int)
    requires
        0 <= from < nodes.len() - 1,
        from > 0 ==> distance > length_through(nodes, from) * CELL_SIZE,
        0 <= distance <= total_length(nodes) * CELL_SIZE,
    ensures
        from <= i,
        on_segment(nodes, distance, i),
        segment_at(nodes, distance) == i,
    decreases nodes.len() - from,
{
    lemma_length_grows(nodes, 0, from + 1);
    let i = if distance <= length_through(nodes, from + 1) * CELL_SIZE {
        from
    } else {
        lemma_segment_exists(nodes, distance, from + 1)
    };
    assert(on_segment(nodes, distance, i));
    lemma_segment_unique(nodes, distance, i, segment_at(nodes, distance));
    i
}

/// Nodes with no length between them are one and the same cell.
pub proof fn lemma_no_length_one_cell(nodes: Seq<Coord>, m: int, n: int)
    requires
        0 <= m <= n < nodes.len(),
        length_through(nodes, m) == length_through(nodes, n),
    ensures
        nodes[m] == nodes[n],
    decreases n - m,
{
    if m < n {
        lemma_length_grows(nodes, m, n - 1);
        lemma_no_length_one_cell(nodes, m, n - 1);
    }
}

/// The whole of a span is the span.
proof fn lemma_portion_whole(span: int, cells: int)
    requires
        0 < cells,
    ensures
        portion(span, cells * CELL_SIZE, cells) == span * CELL_SIZE,
{
    let magnitude = if span >= 0 {
        span
    } else {
        -span
    };
    assert(magnitude * (cells * CELL_SIZE) == cells * (magnitude * CELL_SIZE))
        by (nonlinear_arith);
    vstd::arithmetic::div_mod::lemma_div_multiples_vanish(magnitude * CELL_SIZE, cells);
}

/// A traveller without progress stands on the first node.
pub proof fn lemma_lerp_start(nodes: Seq<Coord>)
    requires
        valid_nodes(nodes),
    ensures
        lerp_spec(nodes, 0) == nodes[0].world_spec(),
{
    assert(total_length(nodes) * CELL_SIZE * 0 == 0);
    lemma_length_grows(nodes, 0, nodes.len() - 1);
    let i = lemma_segment_exists(nodes, 0, 0);
    lemma_length_grows(nodes, 0, 1);
    lemma_segment_unique(nodes, 0, i, 0);
    let cells = segment_length(nodes, 0);
    if cells != 0 {
        assert((nodes[1].x - nodes[0].x) * 0 == 0);
        assert((nodes[1].y - nodes[0].y) * 0 == 0);
        assert((-(nodes[1].x - nodes[0].x)) * 0 == 0);
        assert((-(nodes[1].y - nodes[0].y)) * 0 == 0);
        assert(0int / cells == 0);
    }
}

/// A traveller with full progress stands on the last node.
pub proof fn lemma_lerp_end(nodes: Seq<Coord>)
    requires
        valid_nodes(nodes),
    ensures
        lerp_spec(nodes, FULL_PROGRESS as int) == nodes.last().world_spec(),
{
    let whole = total_length(nodes) * CELL_SIZE;
    lemma_length_grows(nodes, 0, nodes.len() - 1);
    assert(whole * FULL_PROGRESS == FULL_PROGRESS * whole) by (nonlinear_arith);
    vstd::arithmetic::div_mod::lemma_div_multiples_vanish(whole, FULL_PROGRESS as int);
    assert(travelled(nodes, FULL_PROGRESS as int) == whole);
    let i = lemma_segment_exists(nodes, whole, 0);
    lemma_length_grows(nodes, i + 1, nodes.len() - 1);
    lemma_no_length_one_cell(nodes, i + 1, nodes.len() - 1);
    let cells = segment_length(nodes, i);
    let along = whole - length_through(nodes, i) * CELL_SIZE;
    assert(along == cells * CELL_SIZE);
    if cells != 0 {
        lemma_portion_whole(nodes[i + 1].x - nodes[i].x, cells);
        lemma_portion_whole(nodes[i + 1].y - nodes[i].y, cells);
    }
}

/// The polyline that the enemies walk: a list of grid cells, each joined
/// to the next by a straight segment.
pub struct Path {
    nodes: Vec<Coord>,
    segment_lengths: Vec<i32>,
}

impl View for Path {
    type V = Seq<Coord>;

    /// The nodes of the path.
    closed spec fn view(&self) -> Seq<Coord> {
        self.nodes@
    }
}

/// Measures the segments between `nodes`; `None` if together they are
/// longer than `i32::MAX` cells.
fn measure(nodes: &Vec<Coord>) -> (lengths: Option<Vec<i32>>)
    requires
        nodes.len() >= 2,
    ensures
        lengths.is_some() <==> total_length(nodes@) <= i32::MAX,
        lengths matches Some(l) ==> l.len() == nodes.len() - 1 && forall|i: int|
            0 <= i < l.len() ==> l[i] == segment_length(nodes@, i),
{
    let mut lengths: Vec<i32> = Vec::new();
    let mut total: i64 = 0;
    let mut i: usize = 0;
    while i < nodes.len() - 1
        invariant
            nodes.len() >= 2,
            i <= nodes.len() - 1,
            lengths.len() == i,
            total == length_through(nodes@, i as int),
            0 <= total <= i32::MAX,
            forall|k: int| 0 <= k < i ==> lengths[k] == segment_length(nodes@, k),
        decreases nodes.len() - i,
    {
        let dx: i64 = nodes[i + 1].x as i64 - nodes[i].x as i64;
        let dy: i64 = nodes[i + 1].y as i64 - nodes[i].y as i64;
        let length: i64 = (if dx < 0 {
            -dx
        } else {
            dx
        }) + (if dy < 0 {
            -dy
        } else {
            dy
        });
        total = total + length;
        if total > i32::MAX as i64 {
            proof {
                lemma_length_grows(nodes@, i + 1, nodes.len() - 1);
            }
            return None;
        }
        lengths.push(length as i32);
        i += 1;
    }
    Some(lengths)
}

/// One coordinate of the point at distance `along` from the start of a
/// segment of `cells` cells that leads from cell `from` to cell `to`.
fn along_axis(from: i32, to: i32, along: u128, cells: i32) -> (v: i64)
    requires
        0 < cells,
        -cells <= to - from <= cells,
        along <= cells * CELL_SIZE,
    ensures
        v == from * CELL_SIZE + portion(to - from, along as int, cells as int),
{
    let span: i128 = to as i128 - from as i128;
    proof {
        let magnitude = if span >= 0 {
            span as int
        } else {
            -span as int
        };
        lemma_portion_bounded(magnitude, along as int, cells as int);
        assert(cells * along <= 0x8000_0000 * 0x1_0000_0000_0000_0000) by (nonlinear_arith)
            requires
                0 < cells <= 0x8000_0000,
                along <= 0x1_0000_0000_0000_0000,
        ;
        assert((-span) * along == -(span * along)) by (nonlinear_arith);
    }
    let part: i128 = span * (along as i128) / (cells as i128);
    (from as i128 * CELL_SIZE as i128 + part) as i64
}

impl Path {
    #[verifier::type_invariant]
    spec fn well_formed(self) -> bool {
        &&& valid_nodes(self.nodes@)
        &&& self.segment_lengths.len() == self.nodes.len() - 1
        &&& forall|i: int|
            0 <= i < self.segment_lengths.len() ==> self.segment_lengths[i] == segment_length(
                self.nodes@,
                i,
            )
    }

    /// The path through `nodes`.
    pub fn new(nodes: Vec<Coord>) -> (path: Path)
        requires
            valid_nodes(nodes@),
        ensures
            path@ == nodes@,
    {
        match measure(&nodes) {
            Some(segment_lengths) => Path { nodes, segment_lengths },
            None => vstd::pervasive::unreached(),
        }
    }

    /// The path through `nodes`, or the reason why they make none.
    pub fn try_new(nodes: Vec<Coord>) -> (r: Result<Path, PathError>)
        ensures
            r matches Ok(path) ==> valid_nodes(nodes@) && path@ == nodes@,
            r matches Err(e) ==> !valid_nodes(nodes@) && (e == PathError::TooFewNodes
                <==> nodes.len() < 2),
    {
        if nodes.len() < 2 {
            return Err(PathError::TooFewNodes);
        }
        match measure(&nodes) {
            Some(segment_lengths) => Ok(Path { nodes, segment_lengths }),
            None => Err(PathError::TooLong),
        }
    }

    /// The node on which the path starts.
    pub fn start(&self) -> (cell: Coord)
        ensures
            cell == self@[0],
            valid_nodes(self@),
    {
        proof {
            use_type_invariant(self);
        }
        self.nodes[0]
    }

    /// The node on which the path ends.
    pub fn end(&self) -> (cell: Coord)
        ensures
            cell == self@.last(),
            valid_nodes(self@),
    {
        proof {
            use_type_invariant(self);
        }
        self.nodes[self.nodes.len() - 1]
    }

    /// Length of the path, in cells: the Manhattan distances between
    /// neighbouring nodes, added up.
    pub fn length(&self) -> (cells: i32)
        ensures
            cells == total_length(self@),
            valid_nodes(self@),
    {
        proof {
            use_type_invariant(self);
        }
        let mut total: i32 = 0;
        let mut i: usize = 0;
        while i < self.segment_lengths.len()
            invariant
                i <= self.segment_lengths.len(),
                self.segment_lengths.len() == self.nodes.len() - 1,
                valid_nodes(self.nodes@),
                forall|k: int|
                    0 <= k < self.segment_lengths.len() ==> self.segment_lengths[k]
                        == segment_length(self.nodes@, k),
                total == length_through(self.nodes@, i as int),
            decreases self.segment_lengths.len() - i,
        {
            proof {
                lemma_length_grows(self.nodes@, i + 1, self.nodes.len() - 1);
                lemma_length_grows(self.nodes@, 0, i as int);
            }
            total = total + self.segment_lengths[i];
            i += 1;
        }
        total
    }
    /// Where a traveller with the given progress is found: the way that
    /// the progress stands for is walked off segment by segment, and the
    /// rest of it is laid along the segment on which it ends. Progress
    /// beyond `FULL_PROGRESS` is answered with the origin.
    pub fn lerp(&self, progress: u64) -> (p: WorldPosition)
        ensures
            p == lerp_spec(self@, progress as int),
            valid_nodes(self@),
            progress == 0 ==> p == self@[0].world_spec(),
            progress == FULL_PROGRESS ==> p == self@.last().world_spec(),
    {
        proof {
            use_type_invariant(self);
        }
        if progress > FULL_PROGRESS {
            return WorldPosition { x: 0, y: 0 };
        }
        let cells = self.length();
        let ghost distance = travelled(self.nodes@, progress as int);
        proof {
            lemma_length_grows(self.nodes@, 0, self.nodes.len() - 1);
            let whole = cells * CELL_SIZE;
            vstd::arithmetic::mul::lemma_mul_inequality(
                progress as int,
                FULL_PROGRESS as int,
                whole,
            );
            vstd::arithmetic::mul::lemma_mul_nonnegative(whole, progress as int);
            assert(whole * progress == progress * whole) by (nonlinear_arith);
            assert(whole * FULL_PROGRESS == FULL_PROGRESS * whole) by (nonlinear_arith);
            vstd::arithmetic::div_mod::lemma_div_is_ordered(
                whole * progress,
                whole * FULL_PROGRESS,
                FULL_PROGRESS as int,
            );
            vstd::arithmetic::div_mod::lemma_div_multiples_vanish(whole, FULL_PROGRESS as int);
            vstd::arithmetic::div_mod::lemma_div_pos_is_pos(whole * progress, FULL_PROGRESS as int);
        }
        let whole: u128 = cells as u128 * (CELL_SIZE as u128);
        let mut remaining: u128 = whole * (progress as u128) / (FULL_PROGRESS as u128);
        let mut i: usize = 0;
        while i < self.segment_lengths.len()
            invariant
                i <= self.segment_lengths.len(),
                self.segment_lengths.len() == self.nodes.len() - 1,
                valid_nodes(self.nodes@),
                forall|k: int|
                    0 <= k < self.segment_lengths.len() ==> self.segment_lengths[k]
                        == segment_length(self.nodes@, k),
                progress <= FULL_PROGRESS,
                distance == travelled(self.nodes@, progress as int),
                0 <= distance <= total_length(self.nodes@) * CELL_SIZE,
                remaining == distance - length_through(self.nodes@, i as int) * CELL_SIZE,
                i > 0 ==> distance > length_through(self.nodes@, i as int) * CELL_SIZE,
            decreases self.segment_lengths.len() - i,
        {
            let cells = self.segment_lengths[i];
            proof {
                lemma_length_grows(self.nodes@, i + 1, self.nodes.len() - 1);
                lemma_length_grows(self.nodes@, 0, i as int);
            }
            let segment: u128 = cells as u128 * (CELL_SIZE as u128);
            if remaining <= segment {
                proof {
                    lemma_lerp_start(self.nodes@);
                    lemma_lerp_end(self.nodes@);
                    assert(on_segment(self.nodes@, distance, i as int));
                    lemma_segment_unique(
                        self.nodes@,
                        distance,
                        i as int,
                        segment_at(self.nodes@, distance),
                    );
                }
                let start = self.nodes[i];
                let end = self.nodes[i + 1];
                if cells == 0 {
                    return start.world();
                }
                return WorldPosition {
                    x: along_axis(start.x, end.x, remaining, cells),
                    y: along_axis(start.y, end.y, remaining, cells),
                };
            }
            remaining = remaining - segment;
            i += 1;
        }
        WorldPosition { x: 0, y: 0 }
    }
}

} // verus!
