//! The XY-cut region tree of a page, flattened in pre-order into the
//! `regions` and `region_children` arrays of a result view.

use vstd::prelude::*;

verus! {

/// `LiteParseProjectedRegion.flags` bits.
pub const LITEPARSE_REGION_FLAG_LEAF: u32 = 1;
pub const LITEPARSE_REGION_FLAG_SPLIT: u32 = 2;
pub const LITEPARSE_REGION_FLAG_HORIZONTAL: u32 = 4;
pub const LITEPARSE_REGION_FLAG_VERTICAL: u32 = 8;
/// `parent_index` of a page's root region.
pub const LITEPARSE_NO_PARENT: u32 = 0xffff_ffff;

/// The axis a split cuts along.
#[derive(Clone, Copy, Debug, PartialEq, Eq, Structural)]
pub enum CutAxis {
    Horizontal,
    Vertical,
}

/// One node of the region tree; `R` is the rectangle type of its bounds.
pub struct Region<R> {
    pub bbox: R,
    pub kind: RegionKind<R>,
}

pub enum RegionKind<R> {
    Leaf { item_indices: Vec<usize> },
    Split { axis: CutAxis, children: Vec<Region<R>> },
}

/// One flattened region. `parent_index` and the entries of
/// `region_children[child_offset..][..child_count]` are absolute indices
/// into the regions array.
pub struct LiteParseProjectedRegion<R> {
    pub bbox: R,
    pub parent_index: u32,
    pub child_offset: u32,
    pub child_count: u32,
    pub flags: u32,
}

/// The two arrays a region tree packs into.
pub struct PackedRegions<R> {
    pub regions: Vec<LiteParseProjectedRegion<R>>,
    pub region_children: Vec<u32>,
}

pub open spec fn split_flags(axis: CutAxis) -> u32 {
    match axis {
        CutAxis::Horizontal => LITEPARSE_REGION_FLAG_SPLIT | LITEPARSE_REGION_FLAG_HORIZONTAL,
        CutAxis::Vertical => LITEPARSE_REGION_FLAG_SPLIT | LITEPARSE_REGION_FLAG_VERTICAL,
    }
}

/// Number of nodes in a tree.
pub open spec fn tree_size<R>(r: Region<R>) -> nat
    decreases r,
{
    match r.kind {
        RegionKind::Leaf { .. } => 1,
        RegionKind::Split { children, .. } => 1 + forest_size(children@),
    }
}

/// Number of nodes in a list of trees.
pub open spec fn forest_size<R>(cs: Seq<Region<R>>) -> nat
    decreases cs,
{
    if cs.len() == 0 {
        0
    } else {
        forest_size(cs.subrange(0, cs.len() - 1)) + tree_size(cs[cs.len() - 1])
    }
}

/// Index of each child's root when the children are laid out from `base`.
pub open spec fn child_roots<R>(cs: Seq<Region<R>>, base: nat) -> Seq<u32>
    decreases cs.len(),
{
    if cs.len() == 0 {
        Seq::empty()
    } else {
        let p = cs.subrange(0, cs.len() - 1);
        child_roots(p, base).push((base + forest_size(p)) as u32)
    }
}

/// The records and child entries that flattening `r` appends, given the
/// parent index and the lengths of both arrays before it.
pub open spec fn flat_tree<R>(r: Region<R>, parent: u32, base: nat, cbase: nat) -> (
    Seq<LiteParseProjectedRegion<R>>,
    Seq<u32>,
)
    decreases r,
{
    match r.kind {
        RegionKind::Leaf { .. } => (
            seq![
                LiteParseProjectedRegion {
                    bbox: r.bbox,
                    parent_index: parent,
                    child_offset: cbase as u32,
                    child_count: 0,
                    flags: LITEPARSE_REGION_FLAG_LEAF,
                },
            ],
            Seq::empty(),
        ),
        RegionKind::Split { axis, children } => {
            let inner = flat_forest(children@, base as u32, base + 1, cbase);
            let kids = child_roots(children@, base + 1);
            (
                seq![
                    LiteParseProjectedRegion {
                        bbox: r.bbox,
                        parent_index: parent,
                        child_offset: (cbase + inner.1.len()) as u32,
                        child_count: children@.len() as u32,
                        flags: split_flags(axis),
                    },
                ] + inner.0,
                inner.1 + kids,
            )
        },
    }
}

/// Flattening a list of sibling trees, one after the other.
pub open spec fn flat_forest<R>(cs: Seq<Region<R>>, parent: u32, base: nat, cbase: nat) -> (
    Seq<LiteParseProjectedRegion<R>>,
    Seq<u32>,
)
    decreases cs,
{
    if cs.len() == 0 {
        (Seq::empty(), Seq::empty())
    } else {
        let p = cs.subrange(0, cs.len() - 1);
        let a = flat_forest(p, parent, base, cbase);
        let b = flat_tree(cs[cs.len() - 1], parent, base + a.0.len(), cbase + a.1.len());
        (a.0 + b.0, a.1 + b.1)
    }
}


pub proof fn lemma_tree_lengths<R>(r: Region<R>, parent: u32, base: nat, cbase: nat)
    ensures
        flat_tree(r, parent, base, cbase).0.len() == tree_size(r),
        flat_tree(r, parent, base, cbase).1.len() + 1 == tree_size(r),
    decreases r,
{
    match r.kind {
        RegionKind::Leaf { .. } => {},
        RegionKind::Split { axis, children } => {
            lemma_forest_lengths(children@, base as u32, base + 1, cbase);
            lemma_child_roots_len(children@, base + 1);
        },
    }
}

pub proof fn lemma_forest_lengths<R>(cs: Seq<Region<R>>, parent: u32, base: nat, cbase: nat)
    ensures
        flat_forest(cs, parent, base, cbase).0.len() == forest_size(cs),
        flat_forest(cs, parent, base, cbase).1.len() + cs.len() == forest_size(cs),
    decreases cs,
{
    if cs.len() > 0 {
        let p = cs.subrange(0, cs.len() - 1);
        lemma_forest_lengths(p, parent, base, cbase);
        let a = flat_forest(p, parent, base, cbase);
        lemma_tree_lengths(cs[cs.len() - 1], parent, base + a.0.len(), cbase + a.1.len());
    }
}

pub proof fn lemma_child_roots_len<R>(cs: Seq<Region<R>>, base: nat)
    ensures
        child_roots(cs, base).len() == cs.len(),
    decreases cs.len(),
{
    if cs.len() > 0 {
        lemma_child_roots_len(cs.subrange(0, cs.len() - 1), base);
    }
}

pub proof fn lemma_forest_size_prefix<R>(cs: Seq<Region<R>>, i: int)
    requires
        0 <= i <= cs.len(),
    ensures
        forest_size(cs.take(i)) <= forest_size(cs),
    decreases cs.len() - i,
{
    if i < cs.len() {
        lemma_forest_size_prefix(cs, i + 1);
        assert(cs.take(i + 1).subrange(0, i) =~= cs.take(i));
    } else {
        assert(cs.take(i) =~= cs);
    }
}

impl<R: Copy> PackedRegions<R> {
    /// Empty arrays.
    pub fn new() -> (r: Self)
        ensures
            r.regions@.len() == 0,
            r.region_children@.len() == 0,
    {
        PackedRegions { regions: Vec::new(), region_children: Vec::new() }
    }

    /// Append `region` and its subtree in pre-order, with `parent_index`
    /// on its root, and return the root's index. A node's children are
    /// appended to `region_children` after its descendants' own lists, so
    /// every node's children stay contiguous.
    #[verifier::loop_isolation(false)]
    pub fn region(&mut self, region: &Region<R>, parent_index: u32) -> (idx: u32)
        requires
            old(self).regions@.len() + tree_size(*region) <= u32::MAX,
            old(self).region_children@.len() + tree_size(*region) <= u32::MAX,
        ensures
            idx == old(self).regions@.len(),
            final(self).regions@ == old(self).regions@ + flat_tree(
                *region,
                parent_index,
                old(self).regions@.len() as nat,
                old(self).region_children@.len() as nat,
            ).0,
            final(self).region_children@ == old(self).region_children@ + flat_tree(
                *region,
                parent_index,
                old(self).regions@.len() as nat,
                old(self).region_children@.len() as nat,
            ).1,
        decreases region,
    {
        let ghost base = self.regions@.len() as nat;
        let ghost cbase = self.region_children@.len() as nat;
        let ghost old_regions = self.regions@;
        let ghost old_children = self.region_children@;
        let node_index = self.regions.len() as u32;
        self.regions.push(
            LiteParseProjectedRegion {
                bbox: region.bbox,
                parent_index,
                child_offset: 0,
                child_count: 0,
                flags: 0,
            },
        );
        let ghost head = self.regions@;
        match &region.kind {
            RegionKind::Leaf { .. } => {
                let child_offset = self.region_children.len() as u32;
                self.regions.set(
                    node_index as usize,
                    LiteParseProjectedRegion {
                        bbox: region.bbox,
                        parent_index,
                        child_offset,
                        child_count: 0,
                        flags: LITEPARSE_REGION_FLAG_LEAF,
                    },
                );
                proof {
                    assert(self.regions@ =~= old_regions + flat_tree(
                        *region,
                        parent_index,
                        base,
                        cbase,
                    ).0);
                    assert(self.region_children@ =~= old_children + flat_tree(
                        *region,
                        parent_index,
                        base,
                        cbase,
                    ).1);
                }
                node_index
            },
            RegionKind::Split { axis, children } => {
                proof {
                    lemma_forest_lengths(children@, base as u32, base + 1, cbase);
                    lemma_child_roots_len(children@, base + 1);
                }
                let mut child_indices: Vec<u32> = Vec::new();
                let mut i: usize = 0;
                while i < children.len()
                    invariant
                        0 <= i <= children@.len(),
                        node_index == base,
                        base + tree_size(*region) <= u32::MAX,
                        cbase + tree_size(*region) <= u32::MAX,
                        tree_size(*region) == 1 + forest_size(children@),
                        head.len() == base + 1,
                        self.regions@ == head + flat_forest(
                            children@.take(i as int),
                            base as u32,
                            base + 1,
                            cbase,
                        ).0,
                        self.region_children@ == old_children + flat_forest(
                            children@.take(i as int),
                            base as u32,
                            base + 1,
                            cbase,
                        ).1,
                        old_children.len() == cbase,
                        child_indices@ == child_roots(children@.take(i as int), base + 1),
                    decreases children@.len() - i,
                {
                    let ghost pre = children@.take(i as int);
                    let ghost next = children@.take(i as int + 1);
                    proof {
                        assert(next.subrange(0, next.len() - 1) =~= pre);
                        assert(next[next.len() - 1] == children@[i as int]);
                        lemma_forest_lengths(pre, base as u32, base + 1, cbase);
                        lemma_forest_size_prefix(children@, i as int + 1);
                        assert(forest_size(next) == forest_size(pre) + tree_size(children@[i as int]));
                    }
                    proof {
                        assert(decreases_to!(*region => children@[i as int]));
                    }
                    let c = self.region(&children[i], node_index);
                    child_indices.push(c);
                    proof {
                        let fa = flat_forest(pre, base as u32, base + 1, cbase);
                        assert(self.regions@ =~= head + flat_forest(next, base as u32, base + 1, cbase).0);
                        assert(self.region_children@ =~= old_children + flat_forest(
                            next,
                            base as u32,
                            base + 1,
                            cbase,
                        ).1);
                        assert(child_indices@ =~= child_roots(next, base + 1));
                    }
                    i = i + 1;
                }
                proof {
                    assert(children@.take(children@.len() as int) =~= children@);
                }
                let child_offset = self.region_children.len() as u32;
                let mut k: usize = 0;
                let ghost mid = self.region_children@;
                while k < child_indices.len()
                    invariant
                        0 <= k <= child_indices@.len(),
                        self.region_children@ == mid + child_indices@.take(k as int),
                        self.regions@ == head + flat_forest(children@, base as u32, base + 1, cbase).0,
                    decreases child_indices@.len() - k,
                {
                    self.region_children.push(child_indices[k]);
                    proof {
                        assert(child_indices@.take(k as int + 1) =~= child_indices@.take(k as int).push(
                            child_indices@[k as int],
                        ));
                    }
                    k = k + 1;
                }
                proof {
                    assert(child_indices@.take(child_indices@.len() as int) =~= child_indices@);
                }
                let flags = match axis {
                    CutAxis::Horizontal => LITEPARSE_REGION_FLAG_SPLIT | LITEPARSE_REGION_FLAG_HORIZONTAL,
                    CutAxis::Vertical => LITEPARSE_REGION_FLAG_SPLIT | LITEPARSE_REGION_FLAG_VERTICAL,
                };
                self.regions.set(
                    node_index as usize,
                    LiteParseProjectedRegion {
                        bbox: region.bbox,
                        parent_index,
                        child_offset,
                        child_count: child_indices.len() as u32,
                        flags,
                    },
                );
                proof {
                    let t = flat_tree(*region, parent_index, base, cbase);
                    assert(self.regions@ =~= old_regions + t.0);
                    assert(self.region_children@ =~= old_children + t.1);
                }
                node_index
            },
        }
    }
}


/// Whether the child list `cs[off - cbase..][..count]` names node `c`.
pub open spec fn lists(cs: Seq<u32>, cbase: nat, off: u32, count: u32, c: nat) -> bool {
    exists|j: int| 0 <= j < count && #[trigger] cs[off - cbase + j] == c
}

/// Every node's child list lies inside `cs` and names later nodes of `ns`
/// whose `parent_index` is that node. Node `k` has index `base + k`, and
/// `cs[0]` sits at `cbase` in the children array.
pub open spec fn links_down<R>(
    ns: Seq<LiteParseProjectedRegion<R>>,
    cs: Seq<u32>,
    base: nat,
    cbase: nat,
) -> bool {
    forall|k: int|
        #![trigger ns[k]]
        0 <= k < ns.len() ==> {
            &&& cbase <= ns[k].child_offset
            &&& ns[k].child_offset + ns[k].child_count <= cbase + cs.len()
            &&& forall|j: int|
                #![trigger cs[ns[k].child_offset - cbase + j]]
                0 <= j < ns[k].child_count ==> {
                    let c = cs[ns[k].child_offset - cbase + j];
                    &&& base + k < c < base + ns.len()
                    &&& ns[c - base].parent_index == base + k
                }
        }
}

/// Every node but the first names an earlier node as its parent, and that
/// parent lists it among its children.
pub open spec fn links_up<R>(
    ns: Seq<LiteParseProjectedRegion<R>>,
    cs: Seq<u32>,
    base: nat,
    cbase: nat,
) -> bool {
    forall|k: int|
        #![trigger ns[k]]
        1 <= k < ns.len() ==> {
            let p = ns[k].parent_index;
            &&& base <= p < base + k
            &&& lists(
                cs,
                cbase,
                ns[p - base].child_offset,
                ns[p - base].child_count,
                (base + k) as nat,
            )
        }
}

/// Shape of a flattened tree: its links agree both ways and its root
/// carries the given parent.
pub proof fn lemma_tree_links<R>(r: Region<R>, q: u32, base: nat, cbase: nat)
    requires
        base + tree_size(r) <= u32::MAX,
        cbase + tree_size(r) <= u32::MAX,
    ensures
        flat_tree(r, q, base, cbase).0[0].parent_index == q,
        links_down(flat_tree(r, q, base, cbase).0, flat_tree(r, q, base, cbase).1, base, cbase),
        links_up(flat_tree(r, q, base, cbase).0, flat_tree(r, q, base, cbase).1, base, cbase),
    decreases r,
{
    lemma_tree_lengths(r, q, base, cbase);
    let t = flat_tree(r, q, base, cbase);
    match r.kind {
        RegionKind::Leaf { .. } => {
            assert(links_down(t.0, t.1, base, cbase));
        },
        RegionKind::Split { axis, children } => {
            let f = flat_forest(children@, base as u32, base + 1, cbase);
            let kids = child_roots(children@, base + 1);
            lemma_forest_lengths(children@, base as u32, base + 1, cbase);
            lemma_child_roots_len(children@, base + 1);
            lemma_forest_links(children@, base as u32, base + 1, cbase);
            let ns = t.0;
            let cs = t.1;
            assert(ns == seq![ns[0]] + f.0);
            assert(cs == f.1 + kids);
            assert forall|k: int| 0 <= k < ns.len() implies {
                &&& cbase <= #[trigger] ns[k].child_offset
                &&& ns[k].child_offset + ns[k].child_count <= cbase + cs.len()
                &&& forall|j: int|
                    #![trigger cs[ns[k].child_offset - cbase + j]]
                    0 <= j < ns[k].child_count ==> {
                        let c = cs[ns[k].child_offset - cbase + j];
                        &&& base + k < c < base + ns.len()
                        &&& ns[c - base].parent_index == base + k
                    }
            } by {
                if k == 0 {
                    assert forall|j: int|
                        #![trigger cs[ns[k].child_offset - cbase + j]]
                        0 <= j < ns[k].child_count implies {
                        let c = cs[ns[k].child_offset - cbase + j];
                        &&& base + k < c < base + ns.len()
                        &&& ns[c - base].parent_index == base + k
                    } by {
                        assert(cs[ns[k].child_offset - cbase + j] == kids[j]);
                        let c = kids[j];
                        assert(base + 1 <= c < base + 1 + f.0.len());
                        assert(f.0[c - (base + 1)].parent_index == base);
                        assert(ns[c - base] == f.0[c - (base + 1)]);
                    }
                } else {
                    let n = f.0[k - 1];
                    assert(ns[k] == n);
                    assert(cbase <= n.child_offset);
                    assert(n.child_offset + n.child_count <= cbase + f.1.len());
                    assert forall|j: int|
                        #![trigger cs[ns[k].child_offset - cbase + j]]
                        0 <= j < ns[k].child_count implies {
                        let c = cs[ns[k].child_offset - cbase + j];
                        &&& base + k < c < base + ns.len()
                        &&& ns[c - base].parent_index == base + k
                    } by {
                        assert(cs[n.child_offset - cbase + j] == f.1[n.child_offset - cbase + j]);
                        let c = f.1[n.child_offset - cbase + j];
                        assert(base + 1 + (k - 1) < c < base + 1 + f.0.len());
                        assert(ns[c - base] == f.0[c - (base + 1)]);
                    }
                }
            }
            assert forall|k: int| 1 <= k < ns.len() implies {
                let p = #[trigger] ns[k].parent_index;
                &&& base <= p < base + k
                &&& lists(
                    cs,
                    cbase,
                    ns[p - base].child_offset,
                    ns[p - base].child_count,
                    (base + k) as nat,
                )
            } by {
                let n = f.0[k - 1];
                assert(ns[k] == n);
                let p = n.parent_index;
                if p == base {
                    assert(kids.contains((base + k) as u32));
                    let j = choose|j: int| 0 <= j < kids.len() && kids[j] == (base + k) as u32;
                    assert(cs[ns[0].child_offset - cbase + j] == kids[j]);
                } else {
                    assert(base + 1 <= p < base + 1 + (k - 1));
                    let m = f.0[p - (base + 1)];
                    assert(ns[p - base] == m);
                    assert(lists(f.1, cbase, m.child_offset, m.child_count, (base + 1 + (k - 1)) as nat));
                    let j = choose|j: int|
                        0 <= j < m.child_count && #[trigger] f.1[m.child_offset - cbase + j] == (base + 1 + (k - 1)) as nat;
                    assert(cs[m.child_offset - cbase + j] == f.1[m.child_offset - cbase + j]);
                }
            }
        },
    }
}

/// Shape of a flattened list of siblings: links agree inside it, and a node
/// whose parent is `q` is one of the sibling roots, each of which has `q`.
pub proof fn lemma_forest_links<R>(trees: Seq<Region<R>>, q: u32, base: nat, cbase: nat)
    requires
        q < base,
        base + forest_size(trees) <= u32::MAX,
        cbase + forest_size(trees) <= u32::MAX,
    ensures
        links_down(flat_forest(trees, q, base, cbase).0, flat_forest(trees, q, base, cbase).1, base, cbase),
        forall|k: int|
            #![trigger flat_forest(trees, q, base, cbase).0[k]]
            0 <= k < flat_forest(trees, q, base, cbase).0.len() ==> {
                let ns = flat_forest(trees, q, base, cbase).0;
                let cs = flat_forest(trees, q, base, cbase).1;
                let p = ns[k].parent_index;
                ||| (p == q && child_roots(trees, base).contains((base + k) as u32))
                ||| (base <= p < base + k && lists(
                    cs,
                    cbase,
                    ns[p - base].child_offset,
                    ns[p - base].child_count,
                    (base + k) as nat,
                ))
            },
        forall|j: int|
            0 <= j < trees.len() ==> {
                let ns = flat_forest(trees, q, base, cbase).0;
                let c = #[trigger] child_roots(trees, base)[j];
                &&& base <= c < base + ns.len()
                &&& ns[c - base].parent_index == q
            },
    decreases trees,
{
    lemma_forest_lengths(trees, q, base, cbase);
    lemma_child_roots_len(trees, base);
    if trees.len() > 0 {
        let pre = trees.subrange(0, trees.len() - 1);
        let last = trees[trees.len() - 1];
        let a = flat_forest(pre, q, base, cbase);
        lemma_forest_lengths(pre, q, base, cbase);
        lemma_child_roots_len(pre, base);
        lemma_forest_links(pre, q, base, cbase);
        let tb = base + a.0.len();
        let tc = cbase + a.1.len();
        let t = flat_tree(last, q, tb, tc);
        lemma_tree_lengths(last, q, tb, tc);
        lemma_tree_links(last, q, tb, tc);
        let f = flat_forest(trees, q, base, cbase);
        let ns = f.0;
        let cs = f.1;
        assert(ns == a.0 + t.0);
        assert(cs == a.1 + t.1);
        let roots = child_roots(trees, base);
        assert(roots == child_roots(pre, base).push(tb as u32));
        assert forall|k: int| 0 <= k < ns.len() implies {
            &&& cbase <= #[trigger] ns[k].child_offset
            &&& ns[k].child_offset + ns[k].child_count <= cbase + cs.len()
            &&& forall|j: int|
                #![trigger cs[ns[k].child_offset - cbase + j]]
                0 <= j < ns[k].child_count ==> {
                    let c = cs[ns[k].child_offset - cbase + j];
                    &&& base + k < c < base + ns.len()
                    &&& ns[c - base].parent_index == base + k
                }
        } by {
            if k < a.0.len() {
                let n = a.0[k];
                assert(ns[k] == n);
                assert forall|j: int|
                    #![trigger cs[ns[k].child_offset - cbase + j]]
                    0 <= j < ns[k].child_count implies {
                    let c = cs[ns[k].child_offset - cbase + j];
                    &&& base + k < c < base + ns.len()
                    &&& ns[c - base].parent_index == base + k
                } by {
                    assert(cs[n.child_offset - cbase + j] == a.1[n.child_offset - cbase + j]);
                    let c = a.1[n.child_offset - cbase + j];
                    assert(ns[c - base] == a.0[c - base]);
                }
            } else {
                let kk = k - a.0.len();
                let n = t.0[kk];
                assert(ns[k] == n);
                assert forall|j: int|
                    #![trigger cs[ns[k].child_offset - cbase + j]]
                    0 <= j < ns[k].child_count implies {
                    let c = cs[ns[k].child_offset - cbase + j];
                    &&& base + k < c < base + ns.len()
                    &&& ns[c - base].parent_index == base + k
                } by {
                    assert(cs[n.child_offset - cbase + j] == t.1[n.child_offset - tc + j]);
                    let c = t.1[n.child_offset - tc + j];
                    assert(ns[c - base] == t.0[c - tb]);
                }
            }
        }
        assert forall|k: int| 0 <= k < ns.len() implies {
            let p = #[trigger] ns[k].parent_index;
            ||| (p == q && roots.contains((base + k) as u32))
            ||| (base <= p < base + k && lists(
                cs,
                cbase,
                ns[p - base].child_offset,
                ns[p - base].child_count,
                (base + k) as nat,
            ))
        } by {
            if k < a.0.len() {
                assert(ns[k] == a.0[k]);
                let p = a.0[k].parent_index;
                if p == q && child_roots(pre, base).contains((base + k) as u32) {
                    let j = choose|j: int|
                        0 <= j < child_roots(pre, base).len() && child_roots(pre, base)[j] == (base + k) as u32;
                    assert(roots[j] == (base + k) as u32);
                } else {
                    let m = a.0[p - base];
                    assert(ns[p - base] == m);
                    let j = choose|j: int|
                        0 <= j < m.child_count && #[trigger] a.1[m.child_offset - cbase + j] == (base + k) as nat;
                    assert(cs[m.child_offset - cbase + j] == a.1[m.child_offset - cbase + j]);
                }
            } else if k == a.0.len() {
                assert(ns[k] == t.0[0]);
                assert(roots[roots.len() - 1] == tb as u32);
            } else {
                let kk = k - a.0.len();
                assert(ns[k] == t.0[kk]);
                let p = t.0[kk].parent_index;
                assert(tb <= p < tb + kk);
                let m = t.0[p - tb];
                assert(ns[p - base] == m);
                let j = choose|j: int|
                    0 <= j < m.child_count && #[trigger] t.1[m.child_offset - tc + j] == (tb + kk) as nat;
                assert(cs[m.child_offset - cbase + j] == t.1[m.child_offset - tc + j]);
            }
        }
        assert forall|j: int| 0 <= j < trees.len() implies {
            let c = #[trigger] roots[j];
            &&& base <= c < base + ns.len()
            &&& ns[c - base].parent_index == q
        } by {
            if j < pre.len() {
                assert(roots[j] == child_roots(pre, base)[j]);
                let c = roots[j];
                assert(ns[c - base] == a.0[c - base]);
            } else {
                assert(roots[j] == tb as u32);
                assert(ns[tb - base] == t.0[0]);
            }
        }
    }
}

/// The flattened region tree of a page links both ways: each node's child
/// list is a contiguous run of `region_children` naming exactly nodes whose
/// `parent_index` is that node, and every node but the root is named by
/// its parent.
pub proof fn lemma_region_tree_links<R>(region: Region<R>, parent: u32, base: nat, cbase: nat)
    requires
        base + tree_size(region) <= u32::MAX,
        cbase + tree_size(region) <= u32::MAX,
    ensures
        flat_tree(region, parent, base, cbase).0.len() == tree_size(region),
        flat_tree(region, parent, base, cbase).0[0].parent_index == parent,
        links_down(flat_tree(region, parent, base, cbase).0, flat_tree(region, parent, base, cbase).1, base, cbase),
        links_up(flat_tree(region, parent, base, cbase).0, flat_tree(region, parent, base, cbase).1, base, cbase),
{
    lemma_tree_lengths(region, parent, base, cbase);
    lemma_tree_links(region, parent, base, cbase);
}

} // verus!
