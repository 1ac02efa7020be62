use vstd::prelude::*;

use crate::rect::{lemma_parts_fit, HorizontalSplitKind, Rect, VerticalSplitKind};

verus! {

/// The recipe by which a root rectangle was cut into regions: each inner node
/// records one split, each leaf names the region it yields.
#[derive(Debug, PartialEq, Eq)]
pub enum SplitNode {
    Vertical { kind: VerticalSplitKind, left: Box<SplitNode>, right: Box<SplitNode> },
    Horizontal { kind: HorizontalSplitKind, top: Box<SplitNode>, bottom: Box<SplitNode> },
    Leaf(usize),
}

impl SplitNode {
    /// The region ids named by the leaves of the tree.
    pub open spec fn leaves(self) -> Set<usize>
        decreases self,
    {
        match self {
            SplitNode::Vertical { left, right, .. } => left.leaves().union(right.leaves()),
            SplitNode::Horizontal { top, bottom, .. } => top.leaves().union(bottom.leaves()),
            SplitNode::Leaf(id) => set![id],
        }
    }

    /// Every split in the tree is valid and no region id names two leaves.
    pub open spec fn wf(self) -> bool
        decreases self,
    {
        match self {
            SplitNode::Vertical { kind, left, right } => {
                &&& kind.valid()
                &&& left.wf()
                &&& right.wf()
                &&& left.leaves().disjoint(right.leaves())
            },
            SplitNode::Horizontal { kind, top, bottom } => {
                &&& kind.valid()
                &&& top.wf()
                &&& bottom.wf()
                &&& top.leaves().disjoint(bottom.leaves())
            },
            SplitNode::Leaf(_) => true,
        }
    }

    /// The rectangle that the tree gives to region `id` when its root covers `bounds`.
    pub open spec fn rect_for(self, bounds: Rect, id: usize) -> Rect
        decreases self,
    {
        match self {
            SplitNode::Vertical { kind, left, right } => {
                let parts = bounds.vertical_parts(kind);
                if left.leaves().contains(id) {
                    left.rect_for(parts.0, id)
                } else {
                    right.rect_for(parts.1, id)
                }
            },
            SplitNode::Horizontal { kind, top, bottom } => {
                let parts = bounds.horizontal_parts(kind);
                if top.leaves().contains(id) {
                    top.rect_for(parts.0, id)
                } else {
                    bottom.rect_for(parts.1, id)
                }
            },
            SplitNode::Leaf(_) => bounds,
        }
    }

    /// The rectangles of regions `0 .. n` when the root covers `bounds`.
    pub open spec fn rects_for(self, bounds: Rect, n: nat) -> Seq<Rect> {
        Seq::new(n, |i: int| self.rect_for(bounds, i as usize))
    }

    /// The tree with the leaf of region `id` replaced by `with`.
    pub open spec fn replace_leaf(self, id: usize, with: SplitNode) -> SplitNode
        decreases self,
    {
        match self {
            SplitNode::Vertical { kind, left, right } => SplitNode::Vertical {
                kind,
                left: Box::new(left.replace_leaf(id, with)),
                right: Box::new(right.replace_leaf(id, with)),
            },
            SplitNode::Horizontal { kind, top, bottom } => SplitNode::Horizontal {
                kind,
                top: Box::new(top.replace_leaf(id, with)),
                bottom: Box::new(bottom.replace_leaf(id, with)),
            },
            SplitNode::Leaf(j) => if j == id {
                with
            } else {
                self
            },
        }
    }

    /// Whether some leaf of the tree names region `id`.
    pub fn contains_leaf(&self, id: usize) -> (r: bool)
        ensures
            r == self.leaves().contains(id),
        decreases self,
    {
        match self {
            SplitNode::Vertical { left, right, .. } => left.contains_leaf(id)
                || right.contains_leaf(id),
            SplitNode::Horizontal { top, bottom, .. } => top.contains_leaf(id)
                || bottom.contains_leaf(id),
            SplitNode::Leaf(j) => *j == id,
        }
    }

    /// Finds the leaf that names region `id`, searching left and top parts first.
    pub fn find_leaf(&self, id: usize) -> (r: Option<&SplitNode>)
        ensures
            r.is_some() == self.leaves().contains(id),
            r matches Some(n) ==> *n == SplitNode::Leaf(id),
        decreases self,
    {
        match self {
            SplitNode::Vertical { left, right, .. } => match left.find_leaf(id) {
                Some(n) => Some(n),
                None => right.find_leaf(id),
            },
            SplitNode::Horizontal { top, bottom, .. } => match top.find_leaf(id) {
                Some(n) => Some(n),
                None => bottom.find_leaf(id),
            },
            SplitNode::Leaf(j) => if *j == id {
                Some(self)
            } else {
                None
            },
        }
    }

    /// Replaces the leaf of region `id` with `with`; the tree is unchanged if
    /// no leaf names `id`.
    fn with_leaf_replaced(self, id: usize, with: SplitNode) -> (r: SplitNode)
        requires
            self.wf(),
        ensures
            r == self.replace_leaf(id, with),
        decreases self,
    {
        if !self.contains_leaf(id) {
            proof {
                lemma_replace_absent(self, id, with);
            }
            return self;
        }
        match self {
            SplitNode::Vertical { kind, left, right } => {
                if left.contains_leaf(id) {
                    proof {
                        lemma_replace_absent(*right, id, with);
                    }
                    SplitNode::Vertical {
                        kind,
                        left: Box::new((*left).with_leaf_replaced(id, with)),
                        right,
                    }
                } else {
                    proof {
                        lemma_replace_absent(*left, id, with);
                    }
                    SplitNode::Vertical {
                        kind,
                        left,
                        right: Box::new((*right).with_leaf_replaced(id, with)),
                    }
                }
            },
            SplitNode::Horizontal { kind, top, bottom } => {
                if top.contains_leaf(id) {
                    proof {
                        lemma_replace_absent(*bottom, id, with);
                    }
                    SplitNode::Horizontal {
                        kind,
                        top: Box::new((*top).with_leaf_replaced(id, with)),
                        bottom,
                    }
                } else {
                    proof {
                        lemma_replace_absent(*top, id, with);
                    }
                    SplitNode::Horizontal {
                        kind,
                        top,
                        bottom: Box::new((*bottom).with_leaf_replaced(id, with)),
                    }
                }
            },
            SplitNode::Leaf(_) => with,
        }
    }
}

/// A root rectangle carved into regions. Region `i` is `regions()[i]`; the
/// split tree records how each region was made, so that all of them can be
/// derived again from a new root.
pub struct Layout {
    split_tree: SplitNode,
    regions: Vec<Rect>,
    root: Ghost<Rect>,
}

impl Layout {
    /// The rectangles of the regions, indexed by region id.
    pub closed spec fn rects(&self) -> Seq<Rect> {
        self.regions@
    }

    /// The split tree that derives the regions from the root.
    pub closed spec fn tree(&self) -> SplitNode {
        self.split_tree
    }

    /// The root rectangle that the regions were last derived from.
    pub closed spec fn root(&self) -> Rect {
        self.root@
    }

    /// The tree names regions `0 .. n` once each, and each region holds the
    /// rectangle that the tree gives it from the root.
    pub closed spec fn wf(&self) -> bool {
        &&& self.split_tree.wf()
        &&& self.root@.fits()
        &&& forall|i: usize| #[trigger]
            self.split_tree.leaves().contains(i) <==> i < self.regions@.len()
        &&& self.regions@ == self.split_tree.rects_for(self.root@, self.regions@.len())
    }

    /// Facts that callers draw from well-formedness.
    pub proof fn lemma_wf(&self)
        requires
            self.wf(),
        ensures
            self.rects().len() >= 1,
            self.root().fits(),
            self.tree().wf(),
            forall|i: usize| #[trigger]
                self.tree().leaves().contains(i) <==> i < self.rects().len(),
            self.rects() == self.tree().rects_for(self.root(), self.rects().len()),
            forall|i: int| 0 <= i < self.rects().len() ==> #[trigger] self.rects()[i].fits(),
    {
        assert forall|i: int| 0 <= i < self.rects().len() implies #[trigger] self.rects()[i].fits() by {
            lemma_rect_fits(self.split_tree, self.root@, i as usize);
        }
        lemma_first_leaf(self.split_tree);
        assert(self.split_tree.leaves().contains(first_leaf(self.split_tree)));
    }

    /// A layout with one region, id 0, covering all of `bounds`.
    pub fn new(bounds: Rect) -> (r: Layout)
        requires
            bounds.fits(),
        ensures
            r.wf(),
            r.rects() == seq![bounds],
            r.tree() == SplitNode::Leaf(0),
            r.root() == bounds,
    {
        let r = Layout { split_tree: SplitNode::Leaf(0), regions: vec![bounds], root: Ghost(bounds) };
        assert(r.regions@ =~= r.split_tree.rects_for(bounds, 1));
        r
    }

    /// The rectangles of all regions, indexed by region id.
    pub fn regions(&self) -> (r: &Vec<Rect>)
        ensures
            r@ == self.rects(),
    {
        &self.regions
    }

    /// The rectangle of region `region_index`, or `None` if there is no such region.
    pub fn region(&self, region_index: usize) -> (r: Option<&Rect>)
        ensures
            r.is_some() == (region_index < self.rects().len()),
            r matches Some(x) ==> *x == self.rects()[region_index as int],
    {
        if region_index < self.regions.len() {
            Some(&self.regions[region_index])
        } else {
            None
        }
    }

    /// The leaf of the split tree that names region `region_index`.
    pub fn get_split_leaf(&self, region_index: usize) -> (r: Option<&SplitNode>)
        requires
            self.wf(),
        ensures
            r.is_some() == (region_index < self.rects().len()),
            r matches Some(n) ==> *n == SplitNode::Leaf(region_index),
    {
        self.split_tree.find_leaf(region_index)
    }

    /// Puts `with` in place of the leaf of region `id` and records the new
    /// rectangles: `first` stays region `id` and `second` becomes a new region.
    fn split_region(&mut self, id: usize, with: SplitNode, first: Rect, second: Rect)
        requires
            old(self).wf(),
            id < old(self).rects().len(),
            old(self).rects().len() < usize::MAX,
            with.wf(),
            with.leaves() == set![id, old(self).rects().len() as usize],
            first.fits(),
            second.fits(),
            first == with.rect_for(old(self).rects()[id as int], id),
            second == with.rect_for(old(self).rects()[id as int], old(self).rects().len() as usize),
        ensures
            final(self).wf(),
            final(self).rects() == old(self).rects().update(id as int, first).push(second),
            final(self).tree() == old(self).tree().replace_leaf(id, with),
            final(self).root() == old(self).root(),
    {
        let ghost t = self.split_tree;
        let ghost n = self.regions@.len() as usize;
        let ghost root = self.root@;
        proof {
            assert(t.leaves().contains(id));
            assert(!t.leaves().contains(n));
            assert(with.leaves().disjoint(t.leaves().remove(id)));
            lemma_replace_leaves(t, id, with);
            lemma_replace_wf(t, id, with);
        }
        self.regions.set(id, first);
        self.regions.push(second);
        let mut tree = SplitNode::Leaf(0);
        std::mem::swap(&mut tree, &mut self.split_tree);
        self.split_tree = tree.with_leaf_replaced(id, with);
        proof {
            let t2 = self.split_tree;
            assert forall|i: usize| #[trigger] t2.leaves().contains(i) <==> i < self.regions@.len() by {
                if i == n {
                    assert(with.leaves().contains(i));
                }
            }
            assert forall|i: int| 0 <= i < self.regions@.len() implies self.regions@[i]
                == #[trigger] t2.rects_for(root, self.regions@.len())[i] by {
                assert(t2.leaves().contains(i as usize));
                lemma_replace_rect(t, id, with, root, i as usize);
            }
            assert(self.regions@ =~= t2.rects_for(root, self.regions@.len()));
        }
    }

    /// Cuts region `region_index` into a left and a right part. The left part
    /// keeps the id; the right part becomes a new region with the next free
    /// id. Returns both ids.
    pub fn vertical_split(&mut self, split: VerticalSplitKind, region_index: usize) -> (r: (
        usize,
        usize,
    ))
        requires
            old(self).wf(),
            region_index < old(self).rects().len(),
            old(self).rects().len() < usize::MAX,
            split.valid(),
        ensures
            final(self).wf(),
            r == (region_index, old(self).rects().len() as usize),
            final(self).rects() == old(self).rects().update(
                region_index as int,
                old(self).rects()[region_index as int].vertical_parts(split).0,
            ).push(old(self).rects()[region_index as int].vertical_parts(split).1),
            final(self).tree() == old(self).tree().replace_leaf(
                region_index,
                SplitNode::Vertical {
                    kind: split,
                    left: Box::new(SplitNode::Leaf(r.0)),
                    right: Box::new(SplitNode::Leaf(r.1)),
                },
            ),
            final(self).root() == old(self).root(),
    {
        proof {
            self.lemma_wf();
        }
        let (left, right) = self.regions[region_index].vertical_split(split);
        let ghost first_part = left;
        let ghost second_part = right;
        let right_index = self.regions.len();
        let node = SplitNode::Vertical {
            kind: split,
            left: Box::new(SplitNode::Leaf(region_index)),
            right: Box::new(SplitNode::Leaf(right_index)),
        };
        assert(SplitNode::Leaf(region_index).leaves() == set![region_index]);
        assert(SplitNode::Leaf(right_index).leaves() == set![right_index]);
        assert(node.leaves() =~= set![region_index, right_index]);
        assert(SplitNode::Leaf(region_index).wf());
        assert(SplitNode::Leaf(right_index).wf());
        assert(set![region_index].disjoint(set![right_index]));
        assert(SplitNode::Leaf(region_index).rect_for(first_part, region_index) == first_part);
        assert(SplitNode::Leaf(right_index).rect_for(second_part, right_index) == second_part);
        assert(node.wf());
        self.split_region(region_index, node, left, right);
        (region_index, right_index)
    }

    /// Cuts region `region_index` into a top and a bottom part. The top part
    /// keeps the id; the bottom part becomes a new region with the next free
    /// id. Returns both ids.
    pub fn horizontal_split(&mut self, split: HorizontalSplitKind, region_index: usize) -> (r: (
        usize,
        usize,
    ))
        requires
            old(self).wf(),
            region_index < old(self).rects().len(),
            old(self).rects().len() < usize::MAX,
            split.valid(),
        ensures
            final(self).wf(),
            r == (region_index, old(self).rects().len() as usize),
            final(self).rects() == old(self).rects().update(
                region_index as int,
                old(self).rects()[region_index as int].horizontal_parts(split).0,
            ).push(old(self).rects()[region_index as int].horizontal_parts(split).1),
            final(self).tree() == old(self).tree().replace_leaf(
                region_index,
                SplitNode::Horizontal {
                    kind: split,
                    top: Box::new(SplitNode::Leaf(r.0)),
                    bottom: Box::new(SplitNode::Leaf(r.1)),
                },
            ),
            final(self).root() == old(self).root(),
    {
        proof {
            self.lemma_wf();
        }
        let (top, bottom) = self.regions[region_index].horizontal_split(split);
        let ghost first_part = top;
        let ghost second_part = bottom;
        let bottom_index = self.regions.len();
        let node = SplitNode::Horizontal {
            kind: split,
            top: Box::new(SplitNode::Leaf(region_index)),
            bottom: Box::new(SplitNode::Leaf(bottom_index)),
        };
        assert(SplitNode::Leaf(region_index).leaves() == set![region_index]);
        assert(SplitNode::Leaf(bottom_index).leaves() == set![bottom_index]);
        assert(node.leaves() =~= set![region_index, bottom_index]);
        assert(SplitNode::Leaf(region_index).wf());
        assert(SplitNode::Leaf(bottom_index).wf());
        assert(set![region_index].disjoint(set![bottom_index]));
        assert(SplitNode::Leaf(region_index).rect_for(first_part, region_index) == first_part);
        assert(SplitNode::Leaf(bottom_index).rect_for(second_part, bottom_index) == second_part);
        assert(node.wf());
        self.split_region(region_index, node, top, bottom);
        (region_index, bottom_index)
    }

    /// Derives every region again from the split tree, with the root now
    /// covering `new_bounds`.
    pub fn resize(&mut self, new_bounds: Rect)
        requires
            old(self).wf(),
            new_bounds.fits(),
        ensures
            final(self).wf(),
            final(self).rects() == old(self).tree().rects_for(new_bounds, old(self).rects().len()),
            final(self).tree() == old(self).tree(),
            final(self).root() == new_bounds,
    {
        let ghost n: usize = self.regions.len();
        resolve(&mut self.regions, &self.split_tree, new_bounds);
        self.root = Ghost(new_bounds);
        assert forall|i: int| 0 <= i < n implies #[trigger] self.regions@[i] == self.split_tree.rects_for(new_bounds, n as nat)[i] by {
            let u = i as usize;
            assert(u as int == i);
            assert(self.split_tree.leaves().contains(u));
        }
        assert(self.regions@ =~= self.split_tree.rects_for(new_bounds, n as nat));
    }
}

/// Deriving the regions again from the root they were last derived from gives
/// the rectangles they already have: a resize to the bounds in effect changes
/// no region.
pub proof fn resize_to_same_bounds_keeps_regions(l: &Layout)
    requires
        l.wf(),
    ensures
        l.tree().rects_for(l.root(), l.rects().len()) == l.rects(),
{
    l.lemma_wf();
}

/// Writes into `regions` the rectangle that `node` gives each of its leaves
/// out of `bounds`; other entries stay as they are.
fn resolve(regions: &mut Vec<Rect>, node: &SplitNode, bounds: Rect)
    requires
        node.wf(),
        bounds.fits(),
        forall|i: usize| #[trigger] node.leaves().contains(i) ==> i < old(regions)@.len(),
    ensures
        final(regions)@.len() == old(regions)@.len(),
        forall|i: usize|
            i < old(regions)@.len() ==> #[trigger] final(regions)@[i as int] == if node.leaves().contains(i) {
                node.rect_for(bounds, i)
            } else {
                old(regions)@[i as int]
            },
    decreases node,
{
    match node {
        SplitNode::Vertical { kind, left, right } => {
            proof {
                lemma_parts_fit(bounds, *kind, HorizontalSplitKind::CellsInTop(0));
            }
            let (left_bounds, right_bounds) = bounds.vertical_split(*kind);
            assert forall|i: usize| #[trigger] left.leaves().contains(i) implies i < regions@.len() by {
                assert(node.leaves().contains(i));
            }
            let ghost before = *regions;
            resolve(regions, left, left_bounds);
            assert forall|i: usize| #[trigger] right.leaves().contains(i) implies i < regions@.len() by {
                assert(node.leaves().contains(i));
            }
            resolve(regions, right, right_bounds);
            assert forall|i: usize| i < before@.len() implies #[trigger] regions@[i as int] == if node.leaves().contains(i) {
                node.rect_for(bounds, i)
            } else {
                before@[i as int]
            } by {
                if left.leaves().contains(i) {
                    assert(!right.leaves().contains(i));
                }
            }
        },
        SplitNode::Horizontal { kind, top, bottom } => {
            proof {
                lemma_parts_fit(bounds, VerticalSplitKind::CellsInLeft(0), *kind);
            }
            let (top_bounds, bottom_bounds) = bounds.horizontal_split(*kind);
            assert forall|i: usize| #[trigger] top.leaves().contains(i) implies i < regions@.len() by {
                assert(node.leaves().contains(i));
            }
            let ghost before = *regions;
            resolve(regions, top, top_bounds);
            assert forall|i: usize| #[trigger] bottom.leaves().contains(i) implies i < regions@.len() by {
                assert(node.leaves().contains(i));
            }
            resolve(regions, bottom, bottom_bounds);
            assert forall|i: usize| i < before@.len() implies #[trigger] regions@[i as int] == if node.leaves().contains(i) {
                node.rect_for(bounds, i)
            } else {
                before@[i as int]
            } by {
                if top.leaves().contains(i) {
                    assert(!bottom.leaves().contains(i));
                }
            }
        },
        SplitNode::Leaf(i) => {
            assert(node.leaves().contains(*i));
            let ghost before = *regions;
            regions.set(*i, bounds);
            assert forall|k: usize| k < before@.len() implies #[trigger] regions@[k as int] == if node.leaves().contains(k) {
                node.rect_for(bounds, k)
            } else {
                before@[k as int]
            } by {
                assert(*node == SplitNode::Leaf(*i));
                assert(node.rect_for(bounds, k) == bounds);
                if k == *i {
                    assert(node.leaves().contains(k));
                    assert(regions@[k as int] == bounds);
                } else {
                    assert(!node.leaves().contains(k));
                }
            }
        },
    }
}

/// The leftmost leaf of a tree.
spec fn first_leaf(t: SplitNode) -> usize
    decreases t,
{
    match t {
        SplitNode::Vertical { left, .. } => first_leaf(*left),
        SplitNode::Horizontal { top, .. } => first_leaf(*top),
        SplitNode::Leaf(id) => id,
    }
}

/// Every tree has at least one leaf.
proof fn lemma_first_leaf(t: SplitNode)
    ensures
        t.leaves().contains(first_leaf(t)),
    decreases t,
{
    match t {
        SplitNode::Vertical { left, .. } => lemma_first_leaf(*left),
        SplitNode::Horizontal { top, .. } => lemma_first_leaf(*top),
        SplitNode::Leaf(_) => {},
    }
}

/// Replacing a leaf that the tree does not hold changes nothing.
proof fn lemma_replace_absent(t: SplitNode, id: usize, with: SplitNode)
    requires
        !t.leaves().contains(id),
    ensures
        t.replace_leaf(id, with) == t,
    decreases t,
{
    match t {
        SplitNode::Vertical { left, right, .. } => {
            lemma_replace_absent(*left, id, with);
            lemma_replace_absent(*right, id, with);
        },
        SplitNode::Horizontal { top, bottom, .. } => {
            lemma_replace_absent(*top, id, with);
            lemma_replace_absent(*bottom, id, with);
        },
        SplitNode::Leaf(_) => {},
    }
}

/// Replacing the leaf of `id` swaps `id` for the leaves of the replacement.
proof fn lemma_replace_leaves(t: SplitNode, id: usize, with: SplitNode)
    requires
        t.wf(),
        t.leaves().contains(id),
    ensures
        t.replace_leaf(id, with).leaves() == t.leaves().remove(id).union(with.leaves()),
    decreases t,
{
    match t {
        SplitNode::Vertical { left, right, .. } => {
            if left.leaves().contains(id) {
                lemma_replace_leaves(*left, id, with);
                lemma_replace_absent(*right, id, with);
            } else {
                lemma_replace_leaves(*right, id, with);
                lemma_replace_absent(*left, id, with);
            }
            assert(t.replace_leaf(id, with).leaves() =~= t.leaves().remove(id).union(
                with.leaves(),
            ));
        },
        SplitNode::Horizontal { top, bottom, .. } => {
            if top.leaves().contains(id) {
                lemma_replace_leaves(*top, id, with);
                lemma_replace_absent(*bottom, id, with);
            } else {
                lemma_replace_leaves(*bottom, id, with);
                lemma_replace_absent(*top, id, with);
            }
            assert(t.replace_leaf(id, with).leaves() =~= t.leaves().remove(id).union(
                with.leaves(),
            ));
        },
        SplitNode::Leaf(_) => {
            assert(t.replace_leaf(id, with).leaves() =~= t.leaves().remove(id).union(
                with.leaves(),
            ));
        },
    }
}

/// Replacing a leaf by a well-formed tree over fresh ids keeps the tree well formed.
proof fn lemma_replace_wf(t: SplitNode, id: usize, with: SplitNode)
    requires
        t.wf(),
        with.wf(),
        t.leaves().contains(id),
        with.leaves().disjoint(t.leaves().remove(id)),
    ensures
        t.replace_leaf(id, with).wf(),
    decreases t,
{
    match t {
        SplitNode::Vertical { left, right, .. } => {
            if left.leaves().contains(id) {
                lemma_replace_wf(*left, id, with);
                lemma_replace_leaves(*left, id, with);
                lemma_replace_absent(*right, id, with);
            } else {
                lemma_replace_wf(*right, id, with);
                lemma_replace_leaves(*right, id, with);
                lemma_replace_absent(*left, id, with);
            }
        },
        SplitNode::Horizontal { top, bottom, .. } => {
            if top.leaves().contains(id) {
                lemma_replace_wf(*top, id, with);
                lemma_replace_leaves(*top, id, with);
                lemma_replace_absent(*bottom, id, with);
            } else {
                lemma_replace_wf(*bottom, id, with);
                lemma_replace_leaves(*bottom, id, with);
                lemma_replace_absent(*top, id, with);
            }
        },
        SplitNode::Leaf(_) => {},
    }
}

/// After a leaf is replaced, the regions of the replacement divide the
/// rectangle that the leaf had, and every other region keeps its rectangle.
proof fn lemma_replace_rect(t: SplitNode, id: usize, with: SplitNode, b: Rect, i: usize)
    requires
        t.wf(),
        t.leaves().contains(id),
        with.leaves().disjoint(t.leaves().remove(id)),
        t.replace_leaf(id, with).leaves().contains(i),
    ensures
        t.replace_leaf(id, with).rect_for(b, i) == if with.leaves().contains(i) {
            with.rect_for(t.rect_for(b, id), i)
        } else {
            t.rect_for(b, i)
        },
    decreases t,
{
    lemma_replace_leaves(t, id, with);
    match t {
        SplitNode::Vertical { kind, left, right } => {
            let parts = b.vertical_parts(kind);
            if left.leaves().contains(id) {
                lemma_replace_leaves(*left, id, with);
                lemma_replace_absent(*right, id, with);
                if left.replace_leaf(id, with).leaves().contains(i) {
                    lemma_replace_rect(*left, id, with, parts.0, i);
                }
            } else {
                lemma_replace_leaves(*right, id, with);
                lemma_replace_absent(*left, id, with);
                if right.replace_leaf(id, with).leaves().contains(i) {
                    lemma_replace_rect(*right, id, with, parts.1, i);
                }
            }
        },
        SplitNode::Horizontal { kind, top, bottom } => {
            let parts = b.horizontal_parts(kind);
            if top.leaves().contains(id) {
                lemma_replace_leaves(*top, id, with);
                lemma_replace_absent(*bottom, id, with);
                if top.replace_leaf(id, with).leaves().contains(i) {
                    lemma_replace_rect(*top, id, with, parts.0, i);
                }
            } else {
                lemma_replace_leaves(*bottom, id, with);
                lemma_replace_absent(*top, id, with);
                if bottom.replace_leaf(id, with).leaves().contains(i) {
                    lemma_replace_rect(*bottom, id, with, parts.1, i);
                }
            }
        },
        SplitNode::Leaf(_) => {},
    }
}

/// Every rectangle that a well-formed tree gives out of a fitting root fits.
proof fn lemma_rect_fits(t: SplitNode, b: Rect, i: usize)
    requires
        t.wf(),
        b.fits(),
    ensures
        t.rect_for(b, i).fits(),
    decreases t,
{
    match t {
        SplitNode::Vertical { kind, left, right } => {
            lemma_parts_fit(b, kind, HorizontalSplitKind::CellsInTop(0));
            lemma_rect_fits(*left, b.vertical_parts(kind).0, i);
            lemma_rect_fits(*right, b.vertical_parts(kind).1, i);
        },
        SplitNode::Horizontal { kind, top, bottom } => {
            lemma_parts_fit(b, VerticalSplitKind::CellsInLeft(0), kind);
            lemma_rect_fits(*top, b.horizontal_parts(kind).0, i);
            lemma_rect_fits(*bottom, b.horizontal_parts(kind).1, i);
        },
        SplitNode::Leaf(_) => {},
    }
}

} // verus!
