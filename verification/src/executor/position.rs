//! Where the walk stands: the row and the scope that it works below, and the
//! path from the root of the scenario.

use vstd::prelude::*;

use crate::executor::node;
use crate::executor::node::PathSegment;

verus! {

/// Where the walk stands.
pub struct WalkPosition {
    /// The row that new rows go below.
    pub scene_parent: usize,
    /// The scope whose children are run.
    pub scope_idx: usize,
    pub path: Vec<PathSegment>,
    /// The kernel that children read values from, by the number it is held under.
    pub parent_kernel: Option<u64>,
}

/// What is kept while the walk is below a node.
#[derive(Debug, Clone, Copy, PartialEq, Eq, Structural)]
pub struct SavedPosition {
    pub scene_parent: usize,
    pub scope_idx: usize,
}

pub ghost struct PositionModel {
    pub scene_parent: usize,
    pub scope_idx: usize,
    pub path: Seq<PathSegment>,
    pub kernel: Option<u64>,
}

impl View for WalkPosition {
    type V = PositionModel;

    open spec fn view(&self) -> PositionModel {
        PositionModel {
            scene_parent: self.scene_parent,
            scope_idx: self.scope_idx,
            path: self.path@,
            kernel: self.parent_kernel,
        }
    }
}

/// A step down.
pub ghost enum Down {
    /// Below the node with this row and scope.
    Node { row: usize, scope_idx: usize, segment: PathSegment },
    /// To children that read values from another kernel.
    Kernel(u64),
}

/// What a step down leaves to come back by.
pub ghost enum Frame {
    Node(SavedPosition),
    Kernel(Option<u64>),
}

/// Where a step down leads, and what is kept of where the walk stood.
pub open spec fn down(p: PositionModel, d: Down) -> (PositionModel, Frame) {
    match d {
        Down::Node { row, scope_idx, segment } => (
            PositionModel { scene_parent: row, scope_idx, path: p.path.push(segment), ..p },
            Frame::Node(SavedPosition { scene_parent: p.scene_parent, scope_idx: p.scope_idx }),
        ),
        Down::Kernel(k) => (PositionModel { kernel: Some(k), ..p }, Frame::Kernel(p.kernel)),
    }
}

/// Where coming back up leads.
pub open spec fn up(p: PositionModel, f: Frame) -> PositionModel {
    match f {
        Frame::Node(saved) => PositionModel {
            scene_parent: saved.scene_parent,
            scope_idx: saved.scope_idx,
            path: p.path.drop_last(),
            ..p
        },
        Frame::Kernel(prior) => PositionModel { kernel: prior, ..p },
    }
}

impl WalkPosition {
    /// The path to a node that is reached by `segment`.
    pub fn path_to(&self, segment: PathSegment) -> (r: Vec<PathSegment>)
        ensures
            node::path_model(r@) == node::path_model(self.path@).push(
                node::segment_model(segment),
            ),
    {
        let mut r: Vec<PathSegment> = Vec::new();
        let ghost all = node::path_model(self.path@);
        let mut i: usize = 0;
        assert(node::path_model(r@) =~= all.take(0));
        while i < self.path.len()
            invariant
                i <= self.path@.len(),
                all == node::path_model(self.path@),
                node::path_model(r@) == all.take(i as int),
            decreases self.path@.len() - i,
        {
            let ghost now = node::path_model(r@);
            r.push(self.path[i].copy());
            assert(node::path_model(r@) =~= now.push(all[i as int]));
            assert(all.take(i + 1) =~= all.take(i as int).push(all[i as int]));
            i += 1;
        }
        assert(all.take(i as int) =~= all);
        let ghost now = node::path_model(r@);
        r.push(segment);
        assert(node::path_model(r@) =~= now.push(node::segment_model(segment)));
        r
    }

    /// Goes below the node with this row and scope, reached by `segment`.
    pub fn enter(&mut self, row: usize, scope_idx: usize, segment: PathSegment) -> (saved:
        SavedPosition)
        ensures
            (final(self)@, Frame::Node(saved)) == down(
                old(self)@,
                (Down::Node { row, scope_idx, segment }),
            ),
    {
        let saved = SavedPosition { scene_parent: self.scene_parent, scope_idx: self.scope_idx };
        self.scene_parent = row;
        self.scope_idx = scope_idx;
        self.path.push(segment);
        saved
    }

    /// Comes back up from a node.
    pub fn leave(&mut self, saved: SavedPosition)
        requires
            old(self).path@.len() > 0,
        ensures
            final(self)@ == up(old(self)@, Frame::Node(saved)),
    {
        self.scene_parent = saved.scene_parent;
        self.scope_idx = saved.scope_idx;
        let _ = self.path.pop();
    }

    /// Lets children read values from another kernel. What they read from before
    /// is handed back.
    pub fn install_kernel(&mut self, kernel: u64) -> (prior: Option<u64>)
        ensures
            (final(self)@, Frame::Kernel(prior)) == down(old(self)@, Down::Kernel(kernel)),
            *final(self) == (WalkPosition { parent_kernel: Some(kernel), ..*old(self) }),
    {
        let prior = self.parent_kernel;
        self.parent_kernel = Some(kernel);
        prior
    }

    /// Lets children read from what they read from before.
    pub fn restore_kernel(&mut self, prior: Option<u64>)
        ensures
            final(self)@ == up(old(self)@, Frame::Kernel(prior)),
            *final(self) == (WalkPosition { parent_kernel: prior, ..*old(self) }),
    {
        self.parent_kernel = prior;
    }
}

/// A move of the walk: one step down, or back up from the last one.
pub ghost enum Move {
    Down(Down),
    Up,
}

/// How many steps down are not taken back after these moves.
pub open spec fn depth_of(moves: Seq<Move>) -> int
    decreases moves.len(),
{
    if moves.len() == 0 {
        0
    } else {
        depth_of(moves.drop_last()) + (if moves.last() is Down {
            1int
        } else {
            -1
        })
    }
}

/// No step is taken back that was not taken.
pub open spec fn stays_below(moves: Seq<Move>) -> bool {
    forall|k: int| 0 <= k <= moves.len() ==> depth_of(#[trigger] moves.take(k)) >= 0
}

/// Every step down is taken back, and no other.
pub open spec fn is_balanced(moves: Seq<Move>) -> bool {
    stays_below(moves) && depth_of(moves) == 0
}

/// Where the walk stands after a move, with what it keeps.
pub open spec fn moved(at: (PositionModel, Seq<Frame>), m: Move) -> (PositionModel, Seq<Frame>) {
    match m {
        Move::Down(d) => (down(at.0, d).0, at.1.push(down(at.0, d).1)),
        Move::Up => (up(at.0, at.1.last()), at.1.drop_last()),
    }
}

/// Where the walk stands after a series of moves.
pub open spec fn walked(at: (PositionModel, Seq<Frame>), moves: Seq<Move>) -> (
    PositionModel,
    Seq<Frame>,
)
    decreases moves.len(),
{
    if moves.len() == 0 {
        at
    } else {
        moved(walked(at, moves.drop_last()), moves.last())
    }
}

/// Where coming back up leads until only `n` steps are kept.
spec fn unwound(at: (PositionModel, Seq<Frame>), n: nat) -> (PositionModel, Seq<Frame>)
    decreases at.1.len(),
{
    if at.1.len() <= n {
        at
    } else {
        unwound((up(at.0, at.1.last()), at.1.drop_last()), n)
    }
}

proof fn lemma_unwound(at: (PositionModel, Seq<Frame>), moves: Seq<Move>)
    requires
        stays_below(moves),
    ensures
        walked(at, moves).1.len() == at.1.len() + depth_of(moves),
        unwound(walked(at, moves), at.1.len()) == at,
    decreases moves.len(),
{
    if moves.len() > 0 {
        let init = moves.drop_last();
        assert forall|k: int| 0 <= k <= init.len() implies depth_of(#[trigger] init.take(k))
            >= 0 by {
            assert(init.take(k) =~= moves.take(k));
        }
        lemma_unwound(at, init);
        assert(moves.take(moves.len() as int) =~= moves);
        assert(depth_of(moves.take(moves.len() as int)) >= 0);
        let before = walked(at, init);
        match moves.last() {
            Move::Down(d) => {
                let inside = walked(at, moves);
                assert(inside.1.drop_last() =~= before.1);
                assert(up(inside.0, inside.1.last()).path =~= before.0.path);
                assert(up(inside.0, inside.1.last()) == before.0);
            },
            Move::Up => {},
        }
    }
}

/// However deep the walk went, once every step down is taken back it stands where
/// it stood: under the same row and scope, at the same path and with the same
/// kernel. So siblings share their parent.
pub proof fn law_position_is_restored(p: PositionModel, kept: Seq<Frame>, moves: Seq<Move>)
    requires
        is_balanced(moves),
    ensures
        walked((p, kept), moves) == (p, kept),
{
    lemma_unwound((p, kept), moves);
}

/// Going down leads to the node, or to the kernel, that was asked for, and what was in
/// force before is kept for the way back. A node leaves the kernel as it is, and a kernel
/// leaves the place.
pub proof fn law_down_leads_where_asked(p: PositionModel, d: Down)
    ensures
        ({
            let (at, kept) = down(p, d);
            match d {
                Down::Node { row, scope_idx, segment } => {
                    &&& at.scene_parent == row
                    &&& at.scope_idx == scope_idx
                    &&& at.path == p.path.push(segment)
                    &&& at.kernel == p.kernel
                    &&& kept matches Frame::Node(saved)
                    &&& saved.scene_parent == p.scene_parent
                    &&& saved.scope_idx == p.scope_idx
                },
                Down::Kernel(k) => {
                    &&& at.kernel == Some(k)
                    &&& at.scene_parent == p.scene_parent
                    &&& at.scope_idx == p.scope_idx
                    &&& at.path == p.path
                    &&& kept == Frame::Kernel(p.kernel)
                },
            }
        }),
{
}

} // verus!
