//! Tag-tree decoding for packet headers.
//!
//! A tag tree represents a two-dimensional array of non-negative integers as
//! a pyramid of levels; every node of a level holds the minimum of its (up to
//! four) children in the level below. Decoding proceeds top-down: bits raise
//! a per-node threshold until a 1-bit fixes the node's value. A node's state
//! survives across packets of the same precinct, so later reads resume from
//! the stored partial threshold.
//!
//! Each node is in one of three states: still deferring to its parent, known
//! to be at least some bound, or fixed at its final value. States only ever
//! advance: bounds never decrease, and a fixed value is never touched again.

use vstd::prelude::*;

use crate::bit_reader::BitReader;
use crate::shared::I2;
use crate::shared::TruncatedInput;

verus! {

/// Decoding state of one tag-tree node.
#[derive(Debug, Clone, Copy, PartialEq, Eq, Structural)]
pub enum TagTreeNode {
    /// Nothing is known beyond what the parent node says.
    SeeParent,
    /// The node's value is at least the stored bound.
    AtLeast(u32),
    /// The node's value is fully decoded; terminal and sticky.
    Value(u32),
}

/// One pyramid level: a grid of nodes, stored as rows of equal width.
struct TagTreeLevel {
    width: usize,
    height: usize,
    rows: Vec<Vec<TagTreeNode>>,
}

/// `a` can evolve into `b`: bounds only grow, values are sticky.
pub open spec fn node_le(a: TagTreeNode, b: TagTreeNode) -> bool {
    match (a, b) {
        (TagTreeNode::SeeParent, _) => true,
        (TagTreeNode::AtLeast(v), TagTreeNode::AtLeast(w)) => v <= w,
        (TagTreeNode::AtLeast(v), TagTreeNode::Value(w)) => v <= w,
        (TagTreeNode::Value(v), TagTreeNode::Value(w)) => v == w,
        _ => false,
    }
}

/// The bound or value a node carries; 0 while it defers to its parent.
pub open spec fn node_value(n: TagTreeNode) -> u32 {
    match n {
        TagTreeNode::SeeParent => 0,
        TagTreeNode::AtLeast(v) => v,
        TagTreeNode::Value(v) => v,
    }
}

/// The number of ceiling-halvings taking a `w` x `h` array down to a
/// single node: the depth of its tag tree.
pub open spec fn spec_tree_depth(w: int, h: int) -> int
    decreases w + h,
{
    if w <= 1 && h <= 1 {
        0
    } else if w >= 1 && h >= 1 {
        1 + spec_tree_depth((w + 1) / 2, (h + 1) / 2)
    } else {
        0
    }
}

/// The threshold-increment coding of one node: starting from the lower
/// bound `partial`, each 0-bit raises the threshold by one and a 1-bit
/// fixes the value, until the threshold exceeds `bound`; the input running
/// out (or the threshold leaving the representable range) fails the read.
#[verifier::opaque]
pub open spec fn spec_run_threshold(bits: Seq<u8>, pos: int, partial: int, bound: int) -> Option<
    (TagTreeNode, int),
>
    decreases bits.len() * 8 - pos,
{
    if partial > bound {
        Some((TagTreeNode::AtLeast(partial as u32), pos))
    } else if pos < 0 || pos >= bits.len() * 8 {
        None
    } else if crate::bit_reader::bit_of(bits, pos) {
        Some((TagTreeNode::Value(partial as u32), pos + 1))
    } else if partial == u32::MAX {
        None
    } else {
        spec_run_threshold(bits, pos + 1, partial + 1, bound)
    }
}

/// `node_le` is transitive.
pub proof fn lemma_node_le_trans(a: TagTreeNode, b: TagTreeNode, c: TagTreeNode)
    requires
        node_le(a, b),
        node_le(b, c),
    ensures
        node_le(a, c),
{
}

/// A decoder from tag-tree bits to the numbers of the represented 2-D array.
///
/// Level 0 holds the single root node; level `max_depth` has one node per
/// leaf of the represented array.
pub struct TagTreeDecoder {
    /// Number of levels below the root.
    pub max_depth: usize,
    levels: Vec<TagTreeLevel>,
}

impl TagTreeDecoder {
    /// Width of the pyramid level `l`.
    pub closed spec fn level_width(self, l: int) -> int {
        self.levels@[l].width as int
    }

    /// Height of the pyramid level `l`.
    pub closed spec fn level_height(self, l: int) -> int {
        self.levels@[l].height as int
    }

    /// Node state at level `l`, column `x`, row `y`.
    pub closed spec fn node_at(self, l: int, x: int, y: int) -> TagTreeNode {
        self.levels@[l].rows@[y]@[x]
    }

    /// Number of levels (one more than `max_depth`).
    pub closed spec fn num_levels(self) -> int {
        self.levels@.len() as int
    }

    /// The depth: the number of levels below the root, as a specification
    /// view of the `max_depth` field.
    pub closed spec fn depth(self) -> int {
        self.max_depth as int
    }

    /// Width of the represented array (leaf level width).
    pub closed spec fn leaf_width(self) -> int {
        self.level_width(self.max_depth as int)
    }

    /// Height of the represented array (leaf level height).
    pub closed spec fn leaf_height(self) -> int {
        self.level_height(self.max_depth as int)
    }

    /// `(x, y)` addresses a leaf of the represented array.
    pub open spec fn leaf_in_bounds(self, x: int, y: int) -> bool {
        0 <= x < self.leaf_width() && 0 <= y < self.leaf_height()
    }

    /// Structural well-formedness: the root level is a single node, each
    /// level's grid is the ceiling-halved size of the one below, every row
    /// has the level's width, and node values are consistent along parent
    /// chains.
    pub closed spec fn wf(self) -> bool {
        &&& self.levels@.len() == self.max_depth + 1
        &&& self.levels@[0].width == 1
        &&& self.levels@[0].height == 1
        &&& !(self.node_at(0, 0, 0) is SeeParent)
        &&& forall|l: int|
            0 <= l < self.levels@.len() ==> {
                &&& 1 <= (#[trigger] self.levels@[l]).width <= 0x8000
                &&& 1 <= self.levels@[l].height <= 0x8000
                &&& self.levels@[l].rows@.len() == self.levels@[l].height
            }
        &&& forall|l: int, y: int|
            0 <= l < self.levels@.len() && 0 <= y < self.levels@[l].rows@.len()
                ==> (#[trigger] self.levels@[l].rows@[y])@.len() == self.levels@[l].width
        &&& forall|l: int|
            1 <= l < self.levels@.len() ==> {
                &&& ((#[trigger] self.levels@[l]).width + 1) / 2 == self.levels@[l - 1].width
                &&& (self.levels@[l].height + 1) / 2 == self.levels@[l - 1].height
            }
        &&& self.parents_resolved()
    }

    /// The node at `(x, y)` of level `l >= 1` is consistent with its parent:
    /// it leaves `SeeParent` only once the parent's value is fixed, and its
    /// own bound never drops below that value.
    pub closed spec fn parent_link_ok(self, l: int, x: int, y: int) -> bool {
        !(self.node_at(l, x, y) is SeeParent) ==> match (self.node_at(l - 1, x / 2, y / 2), self.node_at(
            l,
            x,
            y,
        )) {
            (TagTreeNode::Value(p), TagTreeNode::AtLeast(v)) => p <= v,
            (TagTreeNode::Value(p), TagTreeNode::Value(v)) => p <= v,
            _ => false,
        }
    }

    /// Every node below the root is consistent with its parent.
    #[verifier::opaque]
    pub closed spec fn parents_resolved(self) -> bool {
        forall|l: int, x: int, y: int|
            1 <= l < self.levels@.len() && 0 <= x < self.level_width(l) && 0 <= y
                < self.level_height(l) ==> #[trigger] self.parent_link_ok(l, x, y)
    }

    /// What is currently known about the node at `(x, y)` of level `l`:
    /// its own state, or the nearest decoded ancestor's value as a lower
    /// bound while the node still defers to its parent.
    pub open spec fn resolved(self, l: int, x: int, y: int) -> TagTreeNode
        decreases l,
    {
        let n = self.node_at(l, x, y);
        if l <= 0 {
            n
        } else if n is SeeParent {
            match self.resolved(l - 1, x / 2, y / 2) {
                TagTreeNode::Value(v) => TagTreeNode::AtLeast(v),
                other => other,
            }
        } else {
            n
        }
    }

    /// What is currently known about leaf `(x, y)` of the represented array.
    pub open spec fn resolved_leaf(self, x: int, y: int) -> TagTreeNode {
        self.resolved(self.depth(), x, y)
    }

    /// What a bounded read of the node at `(x, y)` of level `l` decodes
    /// from `bits` starting at bit `pos`, as a function of the current tree
    /// and the input alone: a fixed value already stored is answered
    /// without bits; a deferring node first resolves its parent, inheriting
    /// an ancestor bound that already exceeds `bound` outright; and the
    /// node's own threshold coding then runs from the inherited or stored
    /// lower bound. `None` is a failed read.
    #[verifier::opaque]
    pub open spec fn spec_read_node(
        self,
        bits: Seq<u8>,
        pos: int,
        x: int,
        y: int,
        bound: int,
        l: int,
    ) -> Option<(TagTreeNode, int)>
        decreases l,
    {
        let n = self.node_at(l, x, y);
        match n {
            TagTreeNode::Value(_) => Some((n, pos)),
            TagTreeNode::AtLeast(v) => spec_run_threshold(bits, pos, v as int, bound),
            TagTreeNode::SeeParent => {
                if l <= 0 {
                    None
                } else {
                    match self.spec_read_node(bits, pos, x / 2, y / 2, bound, l - 1) {
                        None => None,
                        Some((parent, p2)) => match parent {
                            TagTreeNode::AtLeast(_) => Some((parent, p2)),
                            TagTreeNode::Value(v) => spec_run_threshold(bits, p2, v as int, bound),
                            TagTreeNode::SeeParent => None,
                        },
                    }
                }
            },
        }
    }

    /// Trees `a` and `b` have the same pyramid dimensions.
    pub closed spec fn same_shape(a: TagTreeDecoder, b: TagTreeDecoder) -> bool {
        &&& a.max_depth == b.max_depth
        &&& a.num_levels() == b.num_levels()
        &&& forall|l: int|
            0 <= l < a.num_levels() ==> #[trigger] a.level_width(l) == b.level_width(l)
                && a.level_height(l) == b.level_height(l)
    }

    /// Trees `a` and `b` have the same shape and every node of `b` is an
    /// evolution of the corresponding node of `a`.
    #[verifier::opaque]
    pub closed spec fn evolves_to(a: TagTreeDecoder, b: TagTreeDecoder) -> bool {
        &&& TagTreeDecoder::same_shape(a, b)
        &&& forall|l: int, x: int, y: int|
            0 <= l < a.num_levels() && 0 <= x < a.level_width(l) && 0 <= y < a.level_height(l)
                ==> node_le(#[trigger] a.node_at(l, x, y), b.node_at(l, x, y))
    }

    /// Every tree is an evolution of itself.
    pub proof fn lemma_evolves_refl(a: TagTreeDecoder)
        ensures
            TagTreeDecoder::evolves_to(a, a),
    {
        reveal(TagTreeDecoder::evolves_to);
    }

    /// `evolves_to` is transitive: a tree only ever advances.
    pub proof fn lemma_evolves_trans(a: TagTreeDecoder, b: TagTreeDecoder, c: TagTreeDecoder)
        requires
            TagTreeDecoder::evolves_to(a, b),
            TagTreeDecoder::evolves_to(b, c),
        ensures
            TagTreeDecoder::evolves_to(a, c),
    {
        reveal(TagTreeDecoder::evolves_to);
        assert forall|l: int, x: int, y: int|
            0 <= l < a.num_levels() && 0 <= x < a.level_width(l) && 0 <= y < a.level_height(l)
                implies node_le(#[trigger] a.node_at(l, x, y), c.node_at(l, x, y)) by {
            lemma_node_le_trans(a.node_at(l, x, y), b.node_at(l, x, y), c.node_at(l, x, y));
        }
    }

    /// Under well-formedness, following parents always ends at a decoded
    /// bound: `resolved` never answers `SeeParent`.
    proof fn lemma_resolved_not_seeparent(self, l: int, x: int, y: int)
        requires
            self.wf(),
            0 <= l < self.num_levels(),
            0 <= x < self.level_width(l),
            0 <= y < self.level_height(l),
        ensures
            !(self.resolved(l, x, y) is SeeParent),
        decreases l,
    {
        if l > 0 && self.node_at(l, x, y) is SeeParent {
            self.lemma_resolved_not_seeparent(l - 1, x / 2, y / 2);
        }
    }

    /// A resolved state that is a final value comes from the node itself:
    /// deferring nodes only ever inherit lower bounds.
    proof fn lemma_resolved_value_is_node(self, l: int, x: int, y: int)
        requires
            self.wf(),
            0 <= l < self.num_levels(),
            0 <= x < self.level_width(l),
            0 <= y < self.level_height(l),
            self.resolved(l, x, y) is Value,
        ensures
            self.node_at(l, x, y) == self.resolved(l, x, y),
    {
        if self.node_at(l, x, y) is SeeParent {
            assert(l > 0);
        }
    }

    /// In a fresh tree (root at bound 0, everything else deferring), every
    /// node resolves to the trivial lower bound 0.
    proof fn lemma_fresh_resolved(self, l: int, x: int, y: int)
        requires
            self.wf(),
            0 <= l < self.num_levels(),
            0 <= x < self.level_width(l),
            0 <= y < self.level_height(l),
            self.node_at(0, 0, 0) == TagTreeNode::AtLeast(0u32),
            forall|l2: int, x2: int, y2: int|
                1 <= l2 < self.num_levels() && 0 <= x2 < self.level_width(l2) && 0 <= y2
                    < self.level_height(l2) ==> #[trigger] self.node_at(l2, x2, y2) is SeeParent,
        ensures
            self.resolved(l, x, y) == TagTreeNode::AtLeast(0u32),
        decreases l,
    {
        if l > 0 {
            self.lemma_fresh_resolved(l - 1, x / 2, y / 2);
        }
    }

    /// Builds a fresh decoder for a `width` x `height` array: every node
    /// defers to its parent, and the root records the trivial bound 0.
    #[verifier::rlimit(100)]
    #[verifier::spinoff_prover]
    pub fn new(width: usize, height: usize) -> (r: TagTreeDecoder)
        requires
            1 <= width <= 0x8000,
            1 <= height <= 0x8000,
        ensures
            r.wf(),
            r.leaf_width() == width,
            r.leaf_height() == height,
            r.depth() == spec_tree_depth(width as int, height as int),
            r.num_levels() == r.depth() + 1,
            r.node_at(0, 0, 0) == TagTreeNode::AtLeast(0u32),
            forall|l: int, x: int, y: int|
                1 <= l < r.num_levels() && 0 <= x < r.level_width(l) && 0 <= y < r.level_height(l)
                    ==> #[trigger] r.node_at(l, x, y) is SeeParent,
            forall|l: int, x: int, y: int|
                0 <= l < r.num_levels() && 0 <= x < r.level_width(l) && 0 <= y < r.level_height(l)
                    ==> #[trigger] r.resolved(l, x, y) == TagTreeNode::AtLeast(0u32),
    {
        // Leaf-to-root grid sizes, halving with ceiling rounding.
        let mut dims: Vec<(usize, usize)> = Vec::new();
        let mut mw = width;
        let mut mh = height;
        while mw > 1 || mh > 1
            invariant
                1 <= mw <= 0x8000,
                1 <= mh <= 0x8000,
                spec_tree_depth(mw as int, mh as int) + dims@.len() == spec_tree_depth(
                    width as int,
                    height as int,
                ),
                dims@.len() > 0 ==> dims@[0] == (width, height),
                dims@.len() == 0 ==> mw == width && mh == height,
                forall|i: int|
                    0 <= i < dims@.len() ==> {
                        &&& 1 <= (#[trigger] dims@[i]).0 <= 0x8000
                        &&& 1 <= dims@[i].1 <= 0x8000
                    },
                forall|i: int|
                    0 < i < dims@.len() ==> (#[trigger] dims@[i]).0 == (dims@[i - 1].0 + 1) / 2
                        && dims@[i].1 == (dims@[i - 1].1 + 1) / 2,
                dims@.len() > 0 ==> mw == (dims@[dims@.len() - 1].0 + 1) / 2 && mh == (dims@[
                    dims@.len() - 1].1 + 1) / 2,
            decreases mw + mh,
        {
            dims.push((mw, mh));
            mw = (mw + 1) / 2;
            mh = (mh + 1) / 2;
        }
        dims.push((mw, mh));
        let max_depth = dims.len() - 1;

        // Build the levels from the root down; the root alone starts with a
        // known lower bound.
        let mut levels: Vec<TagTreeLevel> = Vec::new();
        let mut l: usize = 0;
        while l < dims.len()
            invariant
                levels@.len() == l,
                l <= dims@.len(),
                dims@.len() == max_depth + 1,
                dims@[0] == (width, height),
                forall|i: int|
                    0 <= i < dims@.len() ==> {
                        &&& 1 <= (#[trigger] dims@[i]).0 <= 0x8000
                        &&& 1 <= dims@[i].1 <= 0x8000
                    },
                forall|i: int|
                    0 < i < dims@.len() ==> (#[trigger] dims@[i]).0 == (dims@[i - 1].0 + 1) / 2
                        && dims@[i].1 == (dims@[i - 1].1 + 1) / 2,
                dims@[dims@.len() - 1].0 == 1 && dims@[dims@.len() - 1].1 == 1,
                forall|j: int|
                    0 <= j < l ==> {
                        &&& (#[trigger] levels@[j]).width == dims@[dims@.len() - 1 - j].0
                        &&& levels@[j].height == dims@[dims@.len() - 1 - j].1
                        &&& levels@[j].rows@.len() == levels@[j].height
                    },
                forall|j: int, y: int|
                    0 <= j < l && 0 <= y < levels@[j].rows@.len() ==> (#[trigger] levels@[j].rows@[y])@.len()
                        == levels@[j].width,
                forall|j: int, y: int, x: int|
                    0 <= j < l && 0 <= y < levels@[j].rows@.len() && 0 <= x
                        < levels@[j].rows@[y]@.len() ==> #[trigger] levels@[j].rows@[y]@[x] == (
                    if j == 0 {
                        TagTreeNode::AtLeast(0u32)
                    } else {
                        TagTreeNode::SeeParent
                    }),
            decreases dims@.len() - l,
        {
            let (w, h) = dims[dims.len() - 1 - l];
            let fill = if l == 0 {
                TagTreeNode::AtLeast(0)
            } else {
                TagTreeNode::SeeParent
            };
            let mut rows: Vec<Vec<TagTreeNode>> = Vec::new();
            let mut y: usize = 0;
            while y < h
                invariant
                    rows@.len() == y,
                    y <= h,
                    forall|j: int| 0 <= j < y ==> (#[trigger] rows@[j])@.len() == w,
                    forall|j: int, x: int|
                        0 <= j < y && 0 <= x < rows@[j]@.len() ==> #[trigger] rows@[j]@[x] == fill,
                decreases h - y,
            {
                let row: Vec<TagTreeNode> = vec![fill; w];
                rows.push(row);
                y = y + 1;
            }
            levels.push(TagTreeLevel { width: w, height: h, rows });
            l = l + 1;
        }

        let r = TagTreeDecoder { max_depth, levels };
        proof {
            assert forall|li: int|
                1 <= li < r.levels@.len() implies ((#[trigger] r.levels@[li]).width + 1) / 2
                == r.levels@[li - 1].width && (r.levels@[li].height + 1) / 2 == r.levels@[li
                - 1].height by {
                let di: int = dims@.len() as int - 1 - li;
                assert(dims@[di + 1].0 == (dims@[di].0 + 1) / 2);
                assert(dims@[di + 1].1 == (dims@[di].1 + 1) / 2);
            }
            assert(r.parents_resolved()) by {
                reveal(TagTreeDecoder::parents_resolved);
                assert forall|l2: int, x: int, y: int|
                    1 <= l2 < r.levels@.len() && 0 <= x < r.level_width(l2) && 0 <= y
                        < r.level_height(l2) implies #[trigger] r.parent_link_ok(l2, x, y) by {
                    assert(r.node_at(l2, x, y) is SeeParent);
                }
            }
            assert forall|l2: int, x: int, y: int|
                0 <= l2 < r.num_levels() && 0 <= x < r.level_width(l2) && 0 <= y
                    < r.level_height(l2) implies #[trigger] r.resolved(l2, x, y)
                == TagTreeNode::AtLeast(0u32) by {
                r.lemma_fresh_resolved(l2, x, y);
            }
        }
        r
    }

    /// The node state at `(x, y)` of level `level`.
    fn get_node(&self, level: usize, x: usize, y: usize) -> (n: TagTreeNode)
        requires
            self.wf(),
            level < self.num_levels(),
            x < self.level_width(level as int),
            y < self.level_height(level as int),
        ensures
            n == self.node_at(level as int, x as int, y as int),
    {
        self.levels[level].rows[y][x]
    }

    /// Overwrites the node state at `(x, y)` of level `level`, leaving every
    /// other node and the pyramid shape untouched.
    fn set_node(&mut self, level: usize, x: usize, y: usize, n: TagTreeNode)
        requires
            old(self).wf(),
            level < old(self).num_levels(),
            x < old(self).level_width(level as int),
            y < old(self).level_height(level as int),
        ensures
            TagTreeDecoder::same_shape(*old(self), *final(self)),
            final(self).max_depth == old(self).max_depth,
            final(self).node_at(level as int, x as int, y as int) == n,
            forall|l: int, x2: int, y2: int|
                0 <= l < old(self).num_levels() && 0 <= x2 < old(self).level_width(l) && 0 <= y2
                    < old(self).level_height(l) && !(l == level && x2 == x && y2 == y)
                    ==> #[trigger] final(self).node_at(l, x2, y2) == old(self).node_at(l, x2, y2),
            forall|l: int|
                0 <= l < old(self).num_levels() ==> (#[trigger] final(self).levels@[l]).rows@.len()
                    == old(self).levels@[l].rows@.len(),
            forall|l: int, y2: int|
                0 <= l < old(self).num_levels() && 0 <= y2 < old(self).levels@[l].rows@.len()
                    ==> (#[trigger] final(self).levels@[l].rows@[y2])@.len() == old(
                    self,
                ).levels@[l].rows@[y2]@.len(),
    {
        let level_ref = &mut self.levels[level];
        let row_ref = &mut level_ref.rows[y];
        row_ref[x] = n;
    }

    /// Writing a decoded bound into a node whose parent is already fixed at
    /// a value no larger keeps the tree well formed.
    proof fn lemma_wf_after_update(
        a: TagTreeDecoder,
        b: TagTreeDecoder,
        level: int,
        x: int,
        y: int,
        n: TagTreeNode,
    )
        requires
            a.wf(),
            TagTreeDecoder::same_shape(a, b),
            0 <= level < a.num_levels(),
            0 <= x < a.level_width(level),
            0 <= y < a.level_height(level),
            b.node_at(level, x, y) == n,
            forall|l: int, x2: int, y2: int|
                0 <= l < a.num_levels() && 0 <= x2 < a.level_width(l) && 0 <= y2 < a.level_height(
                    l,
                ) && !(l == level && x2 == x && y2 == y) ==> #[trigger] b.node_at(l, x2, y2)
                    == a.node_at(l, x2, y2),
            forall|l: int|
                0 <= l < a.num_levels() ==> (#[trigger] b.levels@[l]).rows@.len()
                    == a.levels@[l].rows@.len(),
            forall|l: int, y2: int|
                0 <= l < a.num_levels() && 0 <= y2 < a.levels@[l].rows@.len()
                    ==> (#[trigger] b.levels@[l].rows@[y2])@.len() == a.levels@[l].rows@[y2]@.len(),
            !(a.node_at(level, x, y) is Value),
            n is AtLeast || n is Value,
            level > 0 ==> (a.node_at(level - 1, x / 2, y / 2) matches TagTreeNode::Value(p) && p
                <= node_value(n)),
        ensures
            b.wf(),
    {
        Self::lemma_parents_resolved_after_update(a, b, level, x, y, n);
        assert(b.levels@.len() == b.max_depth + 1);
        assert(b.level_width(0) == 1 && b.level_height(0) == 1);
        if level == 0 && x == 0 && y == 0 {
            assert(!(b.node_at(0, 0, 0) is SeeParent));
        } else {
            assert(b.node_at(0, 0, 0) == a.node_at(0, 0, 0));
        }
        assert forall|l: int| 0 <= l < b.levels@.len() implies {
            &&& 1 <= (#[trigger] b.levels@[l]).width <= 0x8000
            &&& 1 <= b.levels@[l].height <= 0x8000
            &&& b.levels@[l].rows@.len() == b.levels@[l].height
        } by {
            assert(a.level_width(l) == b.level_width(l));
            assert(a.level_height(l) == b.level_height(l));
        }
        assert forall|l: int, y2: int|
            0 <= l < b.levels@.len() && 0 <= y2 < b.levels@[l].rows@.len()
                implies (#[trigger] b.levels@[l].rows@[y2])@.len() == b.levels@[l].width by {
            assert(a.level_width(l) == b.level_width(l));
            assert(b.levels@[l].rows@[y2]@.len() == a.levels@[l].rows@[y2]@.len());
        }
        assert forall|l: int| 1 <= l < b.levels@.len() implies {
            &&& ((#[trigger] b.levels@[l]).width + 1) / 2 == b.levels@[l - 1].width
            &&& (b.levels@[l].height + 1) / 2 == b.levels@[l - 1].height
        } by {
            assert(a.level_width(l) == b.level_width(l));
            assert(a.level_height(l) == b.level_height(l));
            assert(a.level_width(l - 1) == b.level_width(l - 1));
            assert(a.level_height(l - 1) == b.level_height(l - 1));
        }
    }

    /// The parent-chain consistency part of `lemma_wf_after_update`.
    #[verifier::rlimit(100)]
    #[verifier::spinoff_prover]
    proof fn lemma_parents_resolved_after_update(
        a: TagTreeDecoder,
        b: TagTreeDecoder,
        level: int,
        x: int,
        y: int,
        n: TagTreeNode,
    )
        requires
            a.parents_resolved(),
            TagTreeDecoder::same_shape(a, b),
            forall|l: int|
                1 <= l < a.num_levels() ==> ((#[trigger] a.level_width(l)) + 1) / 2
                    == a.level_width(l - 1) && (a.level_height(l) + 1) / 2 == a.level_height(l - 1),
            0 <= level < a.num_levels(),
            0 <= x < a.level_width(level),
            0 <= y < a.level_height(level),
            b.node_at(level, x, y) == n,
            forall|l: int, x2: int, y2: int|
                0 <= l < a.num_levels() && 0 <= x2 < a.level_width(l) && 0 <= y2 < a.level_height(
                    l,
                ) && !(l == level && x2 == x && y2 == y) ==> #[trigger] b.node_at(l, x2, y2)
                    == a.node_at(l, x2, y2),
            !(a.node_at(level, x, y) is Value),
            n is AtLeast || n is Value,
            level > 0 ==> (a.node_at(level - 1, x / 2, y / 2) matches TagTreeNode::Value(p) && p
                <= node_value(n)),
        ensures
            b.parents_resolved(),
    {
        reveal(TagTreeDecoder::parents_resolved);
        assert forall|l: int, x2: int, y2: int|
            1 <= l < b.levels@.len() && 0 <= x2 < b.level_width(l) && 0 <= y2 < b.level_height(l)
                implies #[trigger] b.parent_link_ok(l, x2, y2) by {
            assert(a.parent_link_ok(l, x2, y2));
            assert(0 <= x2 / 2 < a.level_width(l - 1) && 0 <= y2 / 2 < a.level_height(l - 1));
            if !(b.node_at(l, x2, y2) is SeeParent) {
                if l == level && x2 == x && y2 == y {
                    // The written node: its parent was already fixed below it.
                    assert(b.node_at(l - 1, x2 / 2, y2 / 2) == a.node_at(l - 1, x2 / 2, y2 / 2));
                } else {
                    // An untouched node; the written node cannot be its
                    // parent, because a child that has left `SeeParent`
                    // needs a parent already fixed at a value, and the
                    // overwritten node carried none.
                    assert(b.node_at(l, x2, y2) == a.node_at(l, x2, y2));
                    if l - 1 == level && x2 / 2 == x && y2 / 2 == y {
                        assert(!(a.node_at(l, x2, y2) is SeeParent));
                        assert(false);
                    } else {
                        assert(b.node_at(l - 1, x2 / 2, y2 / 2) == a.node_at(l - 1, x2 / 2, y2 / 2));
                    }
                }
            }
        }
    }

    /// Reads just enough bits to decide whether the value at `dim_idx` of
    /// level `level` exceeds `bound`: the answer is either a final value at
    /// most `bound` (or one fixed earlier), or a lower bound above `bound`.
    ///
    /// Node states only ever advance, a node whose value is already fixed
    /// consumes no further bits, and levels below `level` are untouched.
    #[verifier::rlimit(100)]
    #[verifier::spinoff_prover]
    pub fn read_until_bound(
        &mut self,
        dim_idx: I2,
        bound: u32,
        level: usize,
        br: &mut BitReader,
    ) -> (r: Result<TagTreeNode, TruncatedInput>)
        requires
            old(self).wf(),
            old(br).wf(),
            level < old(self).num_levels(),
            dim_idx.x < old(self).level_width(level as int),
            dim_idx.y < old(self).level_height(level as int),
        ensures
            final(self).wf(),
            final(br).wf(),
            final(br).bytes() == old(br).bytes(),
            old(br).bits_consumed() <= final(br).bits_consumed(),
            TagTreeDecoder::same_shape(*old(self), *final(self)),
            final(self).depth() == old(self).depth(),
            final(self).num_levels() == old(self).num_levels(),
            final(self).leaf_width() == old(self).leaf_width(),
            final(self).leaf_height() == old(self).leaf_height(),
            TagTreeDecoder::evolves_to(*old(self), *final(self)),
            forall|l: int, x2: int, y2: int|
                level < l < old(self).num_levels() && 0 <= x2 < old(self).level_width(l) && 0 <= y2
                    < old(self).level_height(l) ==> #[trigger] final(self).node_at(l, x2, y2)
                    == old(self).node_at(l, x2, y2),
            match r {
                Ok(node) => {
                    &&& node == final(self).resolved(
                        level as int,
                        dim_idx.x as int,
                        dim_idx.y as int,
                    )
                    &&& old(self).spec_read_node(
                        old(br).bytes(),
                        old(br).bits_consumed() as int,
                        dim_idx.x as int,
                        dim_idx.y as int,
                        bound as int,
                        level as int,
                    ) == Some((node, final(br).bits_consumed() as int))
                    &&& (node matches TagTreeNode::AtLeast(v) ==> v > bound)
                    &&& (node matches TagTreeNode::Value(v) ==> v <= bound || old(self).node_at(
                        level as int,
                        dim_idx.x as int,
                        dim_idx.y as int,
                    ) == node)
                    &&& !(node is SeeParent)
                    &&& (old(self).node_at(level as int, dim_idx.x as int, dim_idx.y as int)
                        is Value ==> *final(self) == *old(self) && final(br).bits_consumed() == old(
                        br,
                    ).bits_consumed())
                },
                Err(_) => {
                    &&& old(self).spec_read_node(
                        old(br).bytes(),
                        old(br).bits_consumed() as int,
                        dim_idx.x as int,
                        dim_idx.y as int,
                        bound as int,
                        level as int,
                    ) is None
                    &&& (final(br).bits_consumed() == final(br).bytes().len() * 8 || exists|
                        l: int,
                        x2: int,
                        y2: int,
                    |
                        0 <= l < final(self).num_levels() && 0 <= x2 < final(self).level_width(l)
                            && 0 <= y2 < final(self).level_height(l) && final(self).node_at(
                            l,
                            x2,
                            y2,
                        ) == TagTreeNode::AtLeast(u32::MAX))
                },
            },
        decreases level,
    {
        let x = dim_idx.x as usize;
        let y = dim_idx.y as usize;
        let ghost target = old(self).spec_read_node(
            old(br).bytes(),
            old(br).bits_consumed() as int,
            dim_idx.x as int,
            dim_idx.y as int,
            bound as int,
            level as int,
        );
        let current = self.get_node(level, x, y);
        let mut partial: u32;
        match current {
            TagTreeNode::Value(_) => {
                proof {
                    Self::lemma_evolves_refl(*self);
                    assert(target == Some((current, br.bits_consumed() as int))) by {
                        reveal(TagTreeDecoder::spec_read_node);
                    }
                }
                return Ok(current);
            },
            TagTreeNode::SeeParent => {
                // The root always carries a bound, so a deferring node has a
                // parent level to consult.
                assert(level > 0);
                let parent_idx = I2 { x: dim_idx.x / 2, y: dim_idx.y / 2 };
                let parent = match self.read_until_bound(parent_idx, bound, level - 1, br) {
                    Ok(p) => p,
                    Err(e) => {
                        proof {
                            assert(target is None) by {
                                reveal(TagTreeDecoder::spec_read_node);
                            }
                            assert(self.leaf_width() == old(self).leaf_width());
                            assert(self.leaf_height() == old(self).leaf_height());
                            assert(self.num_levels() == old(self).num_levels());
                            assert(self.depth() == old(self).depth());
                            assert(br.bits_consumed() == br.bytes().len() * 8 || exists|
                                l: int,
                                x2: int,
                                y2: int,
                            |
                                0 <= l < self.num_levels() && 0 <= x2 < self.level_width(l) && 0
                                    <= y2 < self.level_height(l) && self.node_at(l, x2, y2)
                                    == TagTreeNode::AtLeast(u32::MAX));
                        }
                        return Err(e);
                    },
                };
                proof {
                    // This node sits below the parent level, so the
                    // recursive call left it untouched.
                    assert(self.node_at(level as int, x as int, y as int) == old(self).node_at(
                        level as int,
                        x as int,
                        y as int,
                    ));
                }
                match parent {
                    TagTreeNode::AtLeast(_) => {
                        // The ancestor bound already exceeds `bound`; this
                        // node inherits it without consuming bits.
                        proof {
                            assert(target == Some((parent, br.bits_consumed() as int))) by {
                                reveal(TagTreeDecoder::spec_read_node);
                            }
                        }
                        return Ok(parent);
                    },
                    TagTreeNode::Value(v) => {
                        proof {
                            self.lemma_resolved_value_is_node(
                                level as int - 1,
                                dim_idx.x as int / 2,
                                dim_idx.y as int / 2,
                            );
                            assert(target == spec_run_threshold(
                                old(br).bytes(),
                                br.bits_consumed() as int,
                                v as int,
                                bound as int,
                            )) by {
                                reveal(TagTreeDecoder::spec_read_node);
                            }
                        }
                        partial = v;
                    },
                    TagTreeNode::SeeParent => {
                        proof {
                            assert(false);
                        }
                        return Err(TruncatedInput);
                    },
                }
            },
            TagTreeNode::AtLeast(v) => {
                proof {
                    Self::lemma_evolves_refl(*self);
                    reveal(TagTreeDecoder::parents_resolved);
                    if level > 0 {
                        assert(self.parent_link_ok(level as int, x as int, y as int));
                    }
                    assert(target == spec_run_threshold(
                        old(br).bytes(),
                        br.bits_consumed() as int,
                        v as int,
                        bound as int,
                    )) by {
                        reveal(TagTreeDecoder::spec_read_node);
                    }
                }
                partial = v;
            },
        }
        while partial <= bound
            invariant
                self.wf(),
                br.wf(),
                br.bytes() == old(br).bytes(),
                old(br).bits_consumed() <= br.bits_consumed(),
                TagTreeDecoder::same_shape(*old(self), *self),
                TagTreeDecoder::evolves_to(*old(self), *self),
                level < self.num_levels(),
                x == dim_idx.x as usize,
                y == dim_idx.y as usize,
                dim_idx.x < self.level_width(level as int),
                dim_idx.y < self.level_height(level as int),
                self.node_at(level as int, dim_idx.x as int, dim_idx.y as int) == old(self).node_at(
                    level as int,
                    dim_idx.x as int,
                    dim_idx.y as int,
                ),
                !(self.node_at(level as int, dim_idx.x as int, dim_idx.y as int) is Value),
                node_le(
                    old(self).node_at(level as int, dim_idx.x as int, dim_idx.y as int),
                    TagTreeNode::AtLeast(partial),
                ),
                level > 0 ==> (self.node_at(
                    level as int - 1,
                    dim_idx.x as int / 2,
                    dim_idx.y as int / 2,
                ) matches TagTreeNode::Value(p) && p <= partial),
                target == spec_run_threshold(
                    old(br).bytes(),
                    br.bits_consumed() as int,
                    partial as int,
                    bound as int,
                ),
                target == old(self).spec_read_node(
                    old(br).bytes(),
                    old(br).bits_consumed() as int,
                    dim_idx.x as int,
                    dim_idx.y as int,
                    bound as int,
                    level as int,
                ),
                self.leaf_width() == old(self).leaf_width(),
                self.leaf_height() == old(self).leaf_height(),
                self.depth() == old(self).depth(),
                self.num_levels() == old(self).num_levels(),
                forall|l: int, x2: int, y2: int|
                    level < l < old(self).num_levels() && 0 <= x2 < old(self).level_width(l) && 0
                        <= y2 < old(self).level_height(l) ==> #[trigger] self.node_at(l, x2, y2)
                        == old(self).node_at(l, x2, y2),
            decreases br.bytes().len() * 8 - br.bits_consumed(),
        {
            let ghost pre_bits = br.bits_consumed() as int;
            let bit = match br.next_bit() {
                Ok(b) => b,
                Err(e) => {
                    proof {
                        assert(target is None) by {
                            reveal(spec_run_threshold);
                        }
                    }
                    return Err(e);
                },
            };
            proof {
                assert(target == (if bit {
                    Some((TagTreeNode::Value(partial), pre_bits + 1))
                } else if partial == u32::MAX {
                    None
                } else {
                    spec_run_threshold(
                        old(br).bytes(),
                        pre_bits + 1,
                        partial as int + 1,
                        bound as int,
                    )
                })) by {
                    reveal(spec_run_threshold);
                }
            }
            if bit {
                let n = TagTreeNode::Value(partial);
                let ghost pre = *self;
                self.set_node(level, x, y, n);
                proof {
                    Self::lemma_wf_after_update(pre, *self, level as int, x as int, y as int, n);
                    assert(TagTreeDecoder::evolves_to(pre, *self)) by {
                        reveal(TagTreeDecoder::evolves_to);
                    }
                    Self::lemma_evolves_trans(*old(self), pre, *self);
                    assert forall|l: int, x2: int, y2: int|
                        level < l < old(self).num_levels() && 0 <= x2 < old(self).level_width(l)
                            && 0 <= y2 < old(self).level_height(l) implies #[trigger] self.node_at(
                        l,
                        x2,
                        y2,
                    ) == old(self).node_at(l, x2, y2) by {
                        assert(pre.node_at(l, x2, y2) == old(self).node_at(l, x2, y2));
                    }
                }
                return Ok(n);
            }
            if partial == u32::MAX {
                // A threshold beyond the representable range cannot arise
                // from well-formed input; record the saturated bound and
                // treat the read as truncated.
                let n = TagTreeNode::AtLeast(partial);
                let ghost pre = *self;
                self.set_node(level, x, y, n);
                proof {
                    Self::lemma_wf_after_update(pre, *self, level as int, x as int, y as int, n);
                    assert(TagTreeDecoder::evolves_to(pre, *self)) by {
                        reveal(TagTreeDecoder::evolves_to);
                    }
                    Self::lemma_evolves_trans(*old(self), pre, *self);
                    assert(self.node_at(level as int, x as int, y as int) == TagTreeNode::AtLeast(
                        u32::MAX,
                    ));
                }
                return Err(TruncatedInput);
            }
            partial = partial + 1;
        }
        let n = TagTreeNode::AtLeast(partial);
        proof {
            assert(target == Some((TagTreeNode::AtLeast(partial), br.bits_consumed() as int)))
                by {
                reveal(spec_run_threshold);
            }
        }
        let ghost pre = *self;
        self.set_node(level, x, y, n);
        proof {
            Self::lemma_wf_after_update(pre, *self, level as int, x as int, y as int, n);
            assert(TagTreeDecoder::evolves_to(pre, *self)) by {
                reveal(TagTreeDecoder::evolves_to);
            }
            Self::lemma_evolves_trans(*old(self), pre, *self);
            assert forall|l: int, x2: int, y2: int|
                level < l < old(self).num_levels() && 0 <= x2 < old(self).level_width(l) && 0 <= y2
                    < old(self).level_height(l) implies #[trigger] self.node_at(l, x2, y2) == old(
                self,
            ).node_at(l, x2, y2) by {
                assert(pre.node_at(l, x2, y2) == old(self).node_at(l, x2, y2));
            }
        }
        Ok(n)
    }

    /// Fully decodes the value of leaf `dim_idx`, resuming from whatever was
    /// learned by earlier reads. A leaf whose value is already fixed is
    /// answered without consuming bits.
    pub fn read(&mut self, dim_idx: I2, br: &mut BitReader) -> (r: Result<u32, TruncatedInput>)
        requires
            old(self).wf(),
            old(br).wf(),
            old(self).leaf_in_bounds(dim_idx.x as int, dim_idx.y as int),
        ensures
            final(self).wf(),
            final(br).wf(),
            final(br).bytes() == old(br).bytes(),
            old(br).bits_consumed() <= final(br).bits_consumed(),
            TagTreeDecoder::same_shape(*old(self), *final(self)),
            final(self).depth() == old(self).depth(),
            final(self).num_levels() == old(self).num_levels(),
            final(self).leaf_width() == old(self).leaf_width(),
            final(self).leaf_height() == old(self).leaf_height(),
            TagTreeDecoder::evolves_to(*old(self), *final(self)),
            match r {
                Ok(v) => {
                    &&& final(self).resolved_leaf(dim_idx.x as int, dim_idx.y as int)
                        == TagTreeNode::Value(v)
                    &&& old(self).spec_read_node(
                        old(br).bytes(),
                        old(br).bits_consumed() as int,
                        dim_idx.x as int,
                        dim_idx.y as int,
                        u32::MAX as int,
                        old(self).depth(),
                    ) == Some((TagTreeNode::Value(v), final(br).bits_consumed() as int))
                    &&& (old(self).resolved_leaf(dim_idx.x as int, dim_idx.y as int) is Value
                        ==> *final(self) == *old(self) && final(br).bits_consumed() == old(
                        br,
                    ).bits_consumed())
                },
                Err(_) => old(self).spec_read_node(
                    old(br).bytes(),
                    old(br).bits_consumed() as int,
                    dim_idx.x as int,
                    dim_idx.y as int,
                    u32::MAX as int,
                    old(self).depth(),
                ) is None && (final(br).bits_consumed() == final(br).bytes().len() * 8 || exists|
                    l: int,
                    x2: int,
                    y2: int,
                |
                    0 <= l < final(self).num_levels() && 0 <= x2 < final(self).level_width(l) && 0
                        <= y2 < final(self).level_height(l) && final(self).node_at(l, x2, y2)
                        == TagTreeNode::AtLeast(u32::MAX)),
            },
    {
        proof {
            if old(self).resolved_leaf(dim_idx.x as int, dim_idx.y as int) is Value {
                old(self).lemma_resolved_value_is_node(
                    old(self).max_depth as int,
                    dim_idx.x as int,
                    dim_idx.y as int,
                );
            }
        }
        let depth = self.max_depth;
        match self.read_until_bound(dim_idx, u32::MAX, depth, br) {
            Ok(TagTreeNode::Value(v)) => Ok(v),
            Ok(_) => {
                // A lower bound above `u32::MAX` cannot exist.
                proof {
                    assert(false);
                }
                Err(TruncatedInput)
            },
            Err(e) => Err(e),
        }
    }

    /// Resolves what is known about the node at `dim_idx` of `level` without
    /// consuming input, following parents while the node defers to them.
    pub fn query_recursize(&self, dim_idx: I2, level: usize) -> (n: TagTreeNode)
        requires
            self.wf(),
            level < self.num_levels(),
            dim_idx.x < self.level_width(level as int),
            dim_idx.y < self.level_height(level as int),
        ensures
            n == self.resolved(level as int, dim_idx.x as int, dim_idx.y as int),
        decreases level,
    {
        let node = self.get_node(level, dim_idx.x as usize, dim_idx.y as usize);
        match node {
            TagTreeNode::SeeParent => {
                assert(level > 0);
                let parent_idx = I2 { x: dim_idx.x / 2, y: dim_idx.y / 2 };
                match self.query_recursize(parent_idx, level - 1) {
                    TagTreeNode::Value(v) => TagTreeNode::AtLeast(v),
                    TagTreeNode::AtLeast(v) => TagTreeNode::AtLeast(v),
                    TagTreeNode::SeeParent => {
                        proof {
                            self.lemma_resolved_not_seeparent(
                                level as int - 1,
                                dim_idx.x as int / 2,
                                dim_idx.y as int / 2,
                            );
                            assert(false);
                        }
                        TagTreeNode::SeeParent
                    },
                }
            },
            other => other,
        }
    }

    /// Resolves what is known about leaf `dim_idx`.
    pub fn query_i2(&self, dim_idx: I2) -> (n: TagTreeNode)
        requires
            self.wf(),
            self.leaf_in_bounds(dim_idx.x as int, dim_idx.y as int),
        ensures
            n == self.resolved_leaf(dim_idx.x as int, dim_idx.y as int),
    {
        self.query_recursize(dim_idx, self.max_depth)
    }

    /// The stored state of the node at `(column, row)` of level `depth`,
    /// without following parents.
    pub fn query_exact(&self, depth: usize, column: usize, row: usize) -> (n: TagTreeNode)
        requires
            self.wf(),
            depth < self.num_levels(),
            column < self.level_width(depth as int),
            row < self.level_height(depth as int),
        ensures
            n == self.node_at(depth as int, column as int, row as int),
    {
        self.get_node(depth, column, row)
    }

    /// Resolves a leaf addressed by its raster-order index.
    pub fn query_raster(&self, raster_index: usize) -> (n: TagTreeNode)
        requires
            self.wf(),
            raster_index < self.leaf_width() * self.leaf_height(),
            self.leaf_width() * self.leaf_height() <= usize::MAX,
        ensures
            n == self.resolved_leaf(
                raster_index as int % self.leaf_width(),
                raster_index as int / self.leaf_width(),
            ),
    {
        let w = self.levels[self.max_depth].width;
        let x = raster_index % w;
        let y = raster_index / w;
        proof {
            vstd::arithmetic::div_mod::lemma_fundamental_div_mod(raster_index as int, w as int);
            assert(y < self.leaf_height()) by (nonlinear_arith)
                requires
                    raster_index < self.leaf_width() * self.leaf_height(),
                    w == self.leaf_width(),
                    w >= 1,
                    y == raster_index as int / w as int,
                    self.leaf_height() >= 1,
            ;
        }
        let idx = I2 { x: x as u32, y: y as u32 };
        self.query_recursize(idx, self.max_depth)
    }

    /// Whether the leaf's value is already known to lie strictly below
    /// `bound`, without consuming input.
    pub fn query_inclusion(&self, dim_idx: I2, bound: u32) -> (r: bool)
        requires
            self.wf(),
            self.leaf_in_bounds(dim_idx.x as int, dim_idx.y as int),
        ensures
            r == (self.resolved_leaf(dim_idx.x as int, dim_idx.y as int)
                matches TagTreeNode::Value(v) && v < bound),
    {
        match self.query_i2(dim_idx) {
            TagTreeNode::Value(v) => v < bound,
            _ => false,
        }
    }

    /// Across any evolution of a tree (any sequence of reads), what is known
    /// about each node only advances: a decoded lower bound never decreases,
    /// and a value, once fixed, never changes.
    pub proof fn lemma_resolved_monotone(
        a: TagTreeDecoder,
        b: TagTreeDecoder,
        l: int,
        x: int,
        y: int,
    )
        requires
            a.wf(),
            b.wf(),
            TagTreeDecoder::evolves_to(a, b),
            0 <= l < a.num_levels(),
            0 <= x < a.level_width(l),
            0 <= y < a.level_height(l),
        ensures
            node_le(a.resolved(l, x, y), b.resolved(l, x, y)),
        decreases l,
    {
        reveal(TagTreeDecoder::evolves_to);
        let na = a.node_at(l, x, y);
        let nb = b.node_at(l, x, y);
        assert(node_le(na, nb));
        if na is SeeParent && l > 0 {
            let px = x / 2;
            let py = y / 2;
            Self::lemma_resolved_monotone(a, b, l - 1, px, py);
            a.lemma_resolved_not_seeparent(l - 1, px, py);
            b.lemma_resolved_not_seeparent(l - 1, px, py);
            if !(nb is SeeParent) {
                // The node left `SeeParent` while evolving; its bound sits
                // above its parent's fixed value, which in turn bounds
                // whatever `a` had resolved for this node.
                reveal(TagTreeDecoder::parents_resolved);
                assert(b.parent_link_ok(l, x, y));
                b.lemma_resolved_value_is_node(l - 1, px, py);
            }
        }
    }
}

/// Decodes the number of missing (all-zero) most-significant bit-planes of a
/// code-block, announced once at the code-block's first inclusion.
pub struct ZeroPlaneTagTree {
    tag_tree: TagTreeDecoder,
}

impl ZeroPlaneTagTree {
    /// The underlying tag tree.
    pub closed spec fn tree(self) -> TagTreeDecoder {
        self.tag_tree
    }

    /// Builds a fresh tree for a `width` x `height` code-block grid.
    pub fn new(width: usize, height: usize) -> (r: ZeroPlaneTagTree)
        requires
            1 <= width <= 0x8000,
            1 <= height <= 0x8000,
        ensures
            r.tree().wf(),
            r.tree().leaf_width() == width,
            r.tree().leaf_height() == height,
            r.tree().num_levels() == r.tree().depth() + 1,
            forall|x: int, y: int|
                r.tree().leaf_in_bounds(x, y) ==> #[trigger] r.tree().resolved_leaf(x, y)
                    == TagTreeNode::AtLeast(0u32),
    {
        ZeroPlaneTagTree { tag_tree: TagTreeDecoder::new(width, height) }
    }

    /// Reads enough bits to fully decode the leaf's value; a value fixed by
    /// an earlier read is returned without consuming bits.
    pub fn read(&mut self, dim_idx: I2, br: &mut BitReader) -> (r: Result<u32, TruncatedInput>)
        requires
            old(self).tree().wf(),
            old(br).wf(),
            old(self).tree().leaf_in_bounds(dim_idx.x as int, dim_idx.y as int),
        ensures
            final(self).tree().wf(),
            final(br).wf(),
            final(br).bytes() == old(br).bytes(),
            old(br).bits_consumed() <= final(br).bits_consumed(),
            TagTreeDecoder::same_shape(old(self).tree(), final(self).tree()),
            final(self).tree().depth() == old(self).tree().depth(),
            final(self).tree().num_levels() == old(self).tree().num_levels(),
            final(self).tree().leaf_width() == old(self).tree().leaf_width(),
            final(self).tree().leaf_height() == old(self).tree().leaf_height(),
            TagTreeDecoder::evolves_to(old(self).tree(), final(self).tree()),
            match r {
                Ok(v) => {
                    &&& final(self).tree().resolved_leaf(dim_idx.x as int, dim_idx.y as int)
                        == TagTreeNode::Value(v)
                    &&& (old(self).tree().resolved_leaf(dim_idx.x as int, dim_idx.y as int)
                        is Value ==> final(self).tree() == old(self).tree()
                        && final(br).bits_consumed() == old(br).bits_consumed())
                },
                Err(_) => final(br).bits_consumed() == final(br).bytes().len() * 8 || exists|
                    l: int,
                    x2: int,
                    y2: int,
                |
                    0 <= l < final(self).tree().num_levels() && 0 <= x2 < final(self).tree().level_width(l) && 0 <= y2 < final(self).tree().level_height(l)
                        && final(self).tree().node_at(l, x2, y2) == TagTreeNode::AtLeast(u32::MAX),
            },
    {
        self.tag_tree.read(dim_idx, br)
    }
}

/// Decodes, per code-block, the first quality layer in which the code-block
/// contributes: the packet header asks layer by layer whether the stored
/// value lies below the current layer index.
pub struct InclusionTagTree {
    tag_tree: TagTreeDecoder,
}

impl InclusionTagTree {
    /// The underlying tag tree.
    pub closed spec fn tree(self) -> TagTreeDecoder {
        self.tag_tree
    }

    /// Builds a fresh tree for a `width` x `height` code-block grid.
    pub fn new(width: usize, height: usize) -> (r: InclusionTagTree)
        requires
            1 <= width <= 0x8000,
            1 <= height <= 0x8000,
        ensures
            r.tree().wf(),
            r.tree().leaf_width() == width,
            r.tree().leaf_height() == height,
            r.tree().num_levels() == r.tree().depth() + 1,
            // Before any read, no code-block is known to be included at
            // any layer bound.
            forall|x: int, y: int|
                r.tree().leaf_in_bounds(x, y) ==> #[trigger] r.tree().resolved_leaf(x, y)
                    == TagTreeNode::AtLeast(0u32),
    {
        InclusionTagTree { tag_tree: TagTreeDecoder::new(width, height) }
    }

    /// Whether the code-block at `dim_idx` is already known to be included
    /// before layer `bound`, without consuming input.
    pub fn query_inclusion(&self, dim_idx: I2, bound: u32) -> (r: bool)
        requires
            self.tree().wf(),
            self.tree().leaf_in_bounds(dim_idx.x as int, dim_idx.y as int),
        ensures
            r == (self.tree().resolved_leaf(dim_idx.x as int, dim_idx.y as int)
                matches TagTreeNode::Value(v) && v < bound),
    {
        self.tag_tree.query_inclusion(dim_idx, bound)
    }

    /// Reads just enough bits to decide whether the code-block is included
    /// at layer `bound`: the answer is `true` exactly when the leaf's value
    /// is now fixed at `bound` or below.
    ///
    /// A leaf whose value was already fixed above `bound` would have been
    /// queried at an earlier layer; such calls are outside the protocol.
    pub fn read_for_inclusion(&mut self, dim_idx: I2, bound: u32, br: &mut BitReader) -> (r: Result<
        bool,
        TruncatedInput,
    >)
        requires
            old(self).tree().wf(),
            old(br).wf(),
            old(self).tree().leaf_in_bounds(dim_idx.x as int, dim_idx.y as int),
            !(old(self).tree().resolved_leaf(dim_idx.x as int, dim_idx.y as int)
                matches TagTreeNode::Value(v) && v > bound),
        ensures
            final(self).tree().wf(),
            final(br).wf(),
            final(br).bytes() == old(br).bytes(),
            old(br).bits_consumed() <= final(br).bits_consumed(),
            TagTreeDecoder::same_shape(old(self).tree(), final(self).tree()),
            final(self).tree().depth() == old(self).tree().depth(),
            final(self).tree().num_levels() == old(self).tree().num_levels(),
            final(self).tree().leaf_width() == old(self).tree().leaf_width(),
            final(self).tree().leaf_height() == old(self).tree().leaf_height(),
            TagTreeDecoder::evolves_to(old(self).tree(), final(self).tree()),
            match r {
                Ok(included) => {
                    &&& included == (final(self).tree().resolved_leaf(
                        dim_idx.x as int,
                        dim_idx.y as int,
                    ) matches TagTreeNode::Value(v) && v <= bound)
                    &&& (old(self).tree().resolved_leaf(dim_idx.x as int, dim_idx.y as int)
                        is Value ==> final(self).tree() == old(self).tree()
                        && final(br).bits_consumed() == old(br).bits_consumed())
                },
                Err(_) => final(br).bits_consumed() == final(br).bytes().len() * 8 || exists|
                    l: int,
                    x2: int,
                    y2: int,
                |
                    0 <= l < final(self).tree().num_levels() && 0 <= x2 < final(self).tree().level_width(l) && 0 <= y2 < final(self).tree().level_height(l)
                        && final(self).tree().node_at(l, x2, y2) == TagTreeNode::AtLeast(u32::MAX),
            },
    {
        proof {
            if old(self).tree().resolved_leaf(dim_idx.x as int, dim_idx.y as int) is Value {
                old(self).tree().lemma_resolved_value_is_node(
                    old(self).tree().max_depth as int,
                    dim_idx.x as int,
                    dim_idx.y as int,
                );
            }
        }
        let depth = self.tag_tree.max_depth;
        let node = match self.tag_tree.read_until_bound(dim_idx, bound, depth, br) {
            Ok(n) => n,
            Err(e) => {
                return Err(e);
            },
        };
        match node {
            TagTreeNode::AtLeast(_) => Ok(false),
            TagTreeNode::Value(_) => Ok(true),
            TagTreeNode::SeeParent => {
                proof {
                    assert(false);
                }
                Err(TruncatedInput)
            },
        }
    }
}

} // verus!
