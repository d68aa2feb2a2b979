//! Tagged nodes and the validated chain of cubic segments.
//!
//! A flat node sequence is a well-formed chain when its length is `3k + 1`
//! and every segment of four consecutive nodes (each sharing one anchor
//! with the previous segment) is tagged anchor, control, control, anchor.

use vstd::prelude::*;

use crate::BevError;
use crate::rat::Q;
use crate::rat::Rat;

verus! {

/// A node of a flat chain: an on-curve anchor (`Point`) or an off-curve
/// control (`Control`), each carrying a planar position.
#[derive(Debug, Clone, Copy, PartialEq, Eq, Structural)]
pub enum BezNode {
    Point { x: Rat, y: Rat },
    Control { x: Rat, y: Rat },
}

pub open spec fn node_is_point(n: BezNode) -> bool {
    n matches BezNode::Point { .. }
}

pub open spec fn node_x(n: BezNode) -> Q {
    match n {
        BezNode::Point { x, .. } => x@,
        BezNode::Control { x, .. } => x@,
    }
}

pub open spec fn node_y(n: BezNode) -> Q {
    match n {
        BezNode::Point { y, .. } => y@,
        BezNode::Control { y, .. } => y@,
    }
}

impl BezNode {
    pub fn new_point(x: Rat, y: Rat) -> (r: BezNode)
        ensures
            r == (BezNode::Point { x, y }),
    {
        BezNode::Point { x, y }
    }

    pub fn new_control(x: Rat, y: Rat) -> (r: BezNode)
        ensures
            r == (BezNode::Control { x, y }),
    {
        BezNode::Control { x, y }
    }

    pub fn x(self) -> (r: Rat)
        ensures
            r@ == node_x(self),
    {
        match self {
            BezNode::Point { x, .. } => x,
            BezNode::Control { x, .. } => x,
        }
    }

    pub fn y(self) -> (r: Rat)
        ensures
            r@ == node_y(self),
    {
        match self {
            BezNode::Point { y, .. } => y,
            BezNode::Control { y, .. } => y,
        }
    }

    pub fn is_point(self) -> (r: bool)
        ensures
            r == node_is_point(self),
    {
        match self {
            BezNode::Point { .. } => true,
            BezNode::Control { .. } => false,
        }
    }

    pub fn is_control(self) -> (r: bool)
        ensures
            r == !node_is_point(self),
    {
        match self {
            BezNode::Point { .. } => false,
            BezNode::Control { .. } => true,
        }
    }
}

/// Segment `i` of the sequence is tagged anchor, control, control, anchor.
pub open spec fn seg_ok(s: Seq<BezNode>, i: int) -> bool {
    &&& node_is_point(s[3 * i])
    &&& !node_is_point(s[3 * i + 1])
    &&& !node_is_point(s[3 * i + 2])
    &&& node_is_point(s[3 * i + 3])
}

/// The whole validation contract: a decomposable length and every
/// segment well tagged.
pub open spec fn chain_valid(s: Seq<BezNode>) -> bool {
    &&& s.len() % 3 == 1
    &&& forall|i: int| 0 <= i < s.len() / 3 ==> #[trigger] seg_ok(s, i)
}

/// A node sequence that was validated (or asserted) to decompose into
/// cubic segments sharing endpoints.
#[derive(Debug, Clone)]
pub struct BezCubeChain {
    container: Vec<BezNode>,
}

impl View for BezCubeChain {
    type V = Seq<BezNode>;

    closed spec fn view(&self) -> Seq<BezNode> {
        self.container@
    }
}

impl BezCubeChain {
    /// Validate a flat node sequence as a chain of cubic segments.
    ///
    /// Returns `InvalidLength` when the length is not `3k + 1`, and
    /// `BadNodePattern` when some segment's tags are wrong; on success the
    /// sequence is wrapped unchanged.
    pub fn from_container(c: Vec<BezNode>) -> (r: Result<BezCubeChain, BevError>)
        ensures
            match r {
                Ok(chain) => chain@ == c@ && chain_valid(c@),
                Err(e) => {
                    ||| e == BevError::InvalidLength && c@.len() % 3 != 1
                    ||| e == BevError::BadNodePattern && c@.len() % 3 == 1 && !chain_valid(c@)
                },
            },
    {
        if c.len() % 3 != 1 {
            return Err(BevError::InvalidLength);
        }
        let segments = c.len() / 3;
        let mut i: usize = 0;
        while i < segments
            invariant
                segments == c@.len() / 3,
                c@.len() <= usize::MAX,
                c@.len() % 3 == 1,
                i <= segments,
                forall|j: int| 0 <= j < i ==> #[trigger] seg_ok(c@, j),
            decreases segments - i,
        {
            proof {
                assert(3 * (i as int) + 3 <= c@.len());
            }
            let ok = c[3 * i].is_point() && c[3 * i + 1].is_control() && c[3 * i + 2].is_control()
                && c[3 * i + 3].is_point();
            if !ok {
                proof {
                    assert(!seg_ok(c@, i as int));
                }
                return Err(BevError::BadNodePattern);
            }
            proof {
                assert(seg_ok(c@, i as int));
            }
            i = i + 1;
        }
        Ok(BezCubeChain { container: c })
    }

    /// Wrap a sequence whose chain invariant the caller has already
    /// established by other means; the precondition is that invariant.
    pub fn from_container_unchecked(c: Vec<BezNode>) -> (r: BezCubeChain)
        requires
            chain_valid(c@),
        ensures
            r@ == c@,
            chain_valid(r@),
    {
        BezCubeChain { container: c }
    }

    /// Hand the underlying sequence back.
    pub fn unwrap(self) -> (r: Vec<BezNode>)
        ensures
            r@ == self@,
    {
        self.container
    }

    /// The number of nodes.
    pub fn len(&self) -> (r: usize)
        ensures
            r == self@.len(),
    {
        self.container.len()
    }

    /// The node at `i`.
    pub fn get(&self, i: usize) -> (r: BezNode)
        requires
            i < self@.len(),
        ensures
            r == self@[i as int],
    {
        self.container[i]
    }
}

} // verus!
