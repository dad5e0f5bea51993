//! A page's structure tree flattened in pre-order, each node naming its
//! parent by absolute index, and rebuilt from such records.

use vstd::prelude::*;
use vstd::string::StringExecFns;
use crate::status::{FfiError, FfiResult, LITEPARSE_STATUS_INVALID_ARGUMENT};
use crate::text::{decimal, push_decimal};

verus! {

/// `parent_index` of a root element.
pub const LITEPARSE_NO_PARENT: u32 = 0xffff_ffff;

/// One element of a structure tree; `T` is what the element carries.
pub struct StructureElement<T> {
    pub node: T,
    pub children: Vec<StructureElement<T>>,
}

/// One flattened element: its content, the absolute index of its parent
/// (`LITEPARSE_NO_PARENT` for a root), and its depth (0 for roots).
#[derive(Clone, Copy, Debug, PartialEq, Eq, Structural)]
pub struct StructureNodeRecord<T> {
    pub node: T,
    pub parent_index: u32,
    pub depth: u32,
}

pub open spec fn tree_size<T>(e: StructureElement<T>) -> nat
    decreases e,
{
    1 + forest_size(e.children@)
}

pub open spec fn forest_size<T>(es: Seq<StructureElement<T>>) -> nat
    decreases es,
{
    if es.len() == 0 {
        0
    } else {
        forest_size(es.drop_last()) + tree_size(es.last())
    }
}

pub open spec fn tree_height<T>(e: StructureElement<T>) -> nat
    decreases e,
{
    1 + forest_height(e.children@)
}

pub open spec fn forest_height<T>(es: Seq<StructureElement<T>>) -> nat
    decreases es,
{
    if es.len() == 0 {
        0
    } else {
        let a = forest_height(es.drop_last());
        let b = tree_height(es.last());
        if a > b {
            a
        } else {
            b
        }
    }
}

/// The records flattening `e` appends when the record array already holds
/// `base` entries.
pub open spec fn flat_tree<T>(e: StructureElement<T>, parent: u32, depth: nat, base: nat) -> Seq<
    StructureNodeRecord<T>,
>
    decreases e,
{
    seq![StructureNodeRecord { node: e.node, parent_index: parent, depth: depth as u32 }]
        + flat_forest(e.children@, base as u32, depth + 1, base + 1)
}

pub open spec fn flat_forest<T>(es: Seq<StructureElement<T>>, parent: u32, depth: nat, base: nat) -> Seq<
    StructureNodeRecord<T>,
>
    decreases es,
{
    if es.len() == 0 {
        Seq::empty()
    } else {
        let a = flat_forest(es.drop_last(), parent, depth, base);
        a + flat_tree(es.last(), parent, depth, base + a.len())
    }
}

#[verifier::spinoff_prover]
#[verifier::rlimit(40)]
pub proof fn lemma_flat_lengths<T>(e: StructureElement<T>, parent: u32, depth: nat, base: nat)
    ensures
        flat_tree(e, parent, depth, base).len() == tree_size(e),
    decreases e,
{
    lemma_flat_forest_lengths(e.children@, base as u32, depth + 1, base + 1);
}

#[verifier::spinoff_prover]
#[verifier::rlimit(40)]
pub proof fn lemma_flat_forest_lengths<T>(
    es: Seq<StructureElement<T>>,
    parent: u32,
    depth: nat,
    base: nat,
)
    ensures
        flat_forest(es, parent, depth, base).len() == forest_size(es),
    decreases es,
{
    if es.len() > 0 {
        lemma_flat_forest_lengths(es.drop_last(), parent, depth, base);
        let a = flat_forest(es.drop_last(), parent, depth, base);
        lemma_flat_lengths(es.last(), parent, depth, base + a.len());
    }
}

#[verifier::spinoff_prover]
#[verifier::rlimit(40)]
proof fn lemma_prefix_size<T>(es: Seq<StructureElement<T>>, i: int)
    requires
        0 <= i <= es.len(),
    ensures
        forest_size(es.take(i)) + tree_size_sum(es, i) == forest_size(es),
        forest_height(es.take(i)) <= forest_height(es),
        i < es.len() ==> tree_height(es[i]) <= forest_height(es),
    decreases es.len() - i,
{
    if i < es.len() {
        lemma_prefix_size(es, i + 1);
        assert(es.take(i + 1).drop_last() =~= es.take(i));
        assert(es.take(i + 1).last() == es[i]);
    } else {
        assert(es.take(i) =~= es);
    }
}

/// Total size of the trees from position `i` on.
pub open spec fn tree_size_sum<T>(es: Seq<StructureElement<T>>, i: int) -> nat
    decreases es.len() - i,
{
    if i >= es.len() || i < 0 {
        0
    } else {
        tree_size(es[i]) + tree_size_sum(es, i + 1)
    }
}

/// Append `element` and its subtree in pre-order, its root naming
/// `parent_index` and sitting at `depth`.
pub fn push_structure<T: Copy>(
    out: &mut Vec<StructureNodeRecord<T>>,
    element: &StructureElement<T>,
    parent_index: u32,
    depth: u32,
)
    requires
        old(out)@.len() + tree_size(*element) <= u32::MAX,
        depth + tree_height(*element) <= u32::MAX,
    ensures
        final(out)@ == old(out)@ + flat_tree(*element, parent_index, depth as nat, old(out)@.len()),
    decreases element,
{
    let ghost start = out@;
    let node_index = out.len() as u32;
    out.push(StructureNodeRecord { node: element.node, parent_index, depth });
    let ghost head = out@;
    let mut i: usize = 0;
    while i < element.children.len()
        invariant
            0 <= i <= element.children@.len(),
            head.len() == start.len() + 1,
            node_index == start.len(),
            start.len() + tree_size(*element) <= u32::MAX,
            depth + tree_height(*element) <= u32::MAX,
            tree_size(*element) == 1 + forest_size(element.children@),
            tree_height(*element) == 1 + forest_height(element.children@),
            out@ == head + flat_forest(
                element.children@.take(i as int),
                node_index,
                (depth + 1) as nat,
                start.len() + 1,
            ),
        decreases element.children@.len() - i,
    {
        let ghost pre = element.children@.take(i as int);
        let ghost next = element.children@.take(i as int + 1);
        proof {
            assert(next.drop_last() =~= pre);
            assert(next.last() == element.children@[i as int]);
            lemma_flat_forest_lengths(pre, node_index, (depth + 1) as nat, start.len() + 1);
            lemma_prefix_size(element.children@, i as int);
            lemma_prefix_size(element.children@, i as int + 1);
            assert(decreases_to!(*element => element.children@[i as int]));
        }
        push_structure(out, &element.children[i], node_index, depth + 1);
        proof {
            assert(out@ =~= head + flat_forest(next, node_index, (depth + 1) as nat, start.len() + 1));
        }
        i = i + 1;
    }
    assert(element.children@.take(element.children@.len() as int) =~= element.children@);
}

// Reading records back.
/// Local index of the parent of record `j` of a range starting at absolute
/// index `start`, or -1 for a root.
pub open spec fn parent_of<T>(recs: Seq<StructureNodeRecord<T>>, start: nat, j: int) -> int {
    if recs[j].parent_index == LITEPARSE_NO_PARENT {
        -1
    } else {
        recs[j].parent_index - start
    }
}

/// Every parent is a root marker or an earlier record of the range.
pub open spec fn parents_valid<T>(recs: Seq<StructureNodeRecord<T>>, start: nat) -> bool {
    forall|j: int| 0 <= j < recs.len() ==> parent_ok(recs, start, j)
}

pub open spec fn parent_ok<T>(recs: Seq<StructureNodeRecord<T>>, start: nat, j: int) -> bool {
    recs[j].parent_index == LITEPARSE_NO_PARENT || (start <= recs[j].parent_index && recs[j].parent_index < start + j)
}

/// Local indices `j` in `from..len` whose parent is `p`, ascending.
pub open spec fn kids<T>(recs: Seq<StructureNodeRecord<T>>, start: nat, p: int, from: int) -> Seq<int>
    decreases recs.len() - from,
{
    if from >= recs.len() || from < 0 {
        Seq::empty()
    } else {
        let rest = kids(recs, start, p, from + 1);
        if parent_of(recs, start, from) == p {
            seq![from] + rest
        } else {
            rest
        }
    }
}

#[verifier::spinoff_prover]
#[verifier::rlimit(40)]
proof fn lemma_kids_range<T>(recs: Seq<StructureNodeRecord<T>>, start: nat, p: int, from: int)
    requires
        0 <= from,
    ensures
        forall|k: int|
            0 <= k < kids(recs, start, p, from).len() ==> from <= #[trigger] kids(
                recs,
                start,
                p,
                from,
            )[k] < recs.len() && parent_of(recs, start, kids(recs, start, p, from)[k]) == p,
    decreases recs.len() - from,
{
    if from < recs.len() {
        lemma_kids_range(recs, start, p, from + 1);
        let rest = kids(recs, start, p, from + 1);
        if parent_of(recs, start, from) == p {
            assert forall|k: int| 0 < k < kids(recs, start, p, from).len() implies #[trigger] kids(
                recs,
                start,
                p,
                from,
            )[k] == rest[k - 1] by {}
        }
    }
}

#[verifier::spinoff_prover]
#[verifier::rlimit(40)]
proof fn lemma_kids_step<T>(recs: Seq<StructureNodeRecord<T>>, start: nat, p: int, j: int)
    requires
        0 <= j < recs.len(),
    ensures
        kids(recs, start, p, j) == (if parent_of(recs, start, j) == p {
            seq![j] + kids(recs, start, p, j + 1)
        } else {
            kids(recs, start, p, j + 1)
        }),
{
}

/// `e` is the tree the records give for local record `i`: its content, and
/// children matching, in order, the records naming `i` as parent.
pub open spec fn matches<T>(e: StructureElement<T>, recs: Seq<StructureNodeRecord<T>>, start: nat, i: int) -> bool
    decreases recs.len() - i,
{
    let ks = kids(recs, start, i, i + 1);
    &&& 0 <= i < recs.len()
    &&& e.node == recs[i].node
    &&& e.children@.len() == ks.len()
    &&& forall|k: int|
        0 <= k < ks.len() ==> (i < ks[k] < recs.len() ==> matches(
            #[trigger] e.children@[k],
            recs,
            start,
            ks[k],
        ))
}

/// `es` are the root trees the records give.
pub open spec fn forest_matches<T>(es: Seq<StructureElement<T>>, recs: Seq<StructureNodeRecord<T>>, start: nat) -> bool {
    let ks = kids(recs, start, -1, 0);
    &&& es.len() == ks.len()
    &&& forall|k: int| 0 <= k < ks.len() ==> matches(#[trigger] es[k], recs, start, ks[k])
}

/// Two trees with equal content and pairwise equal children.
pub open spec fn same_tree<T>(a: StructureElement<T>, b: StructureElement<T>) -> bool
    decreases a,
{
    &&& a.node == b.node
    &&& a.children@.len() == b.children@.len()
    &&& forall|k: int|
        0 <= k < a.children@.len() ==> same_tree(#[trigger] a.children@[k], b.children@[k])
}

fn build<T: Copy>(recs: &[StructureNodeRecord<T>], start: usize, i: usize) -> (e: StructureElement<T>)
    requires
        i < recs@.len(),
        parents_valid(recs@, start as nat),
        start + recs@.len() <= u32::MAX,
    ensures
        matches(e, recs@, start as nat, i as int),
    decreases recs@.len() - i,
{
    let mut children: Vec<StructureElement<T>> = Vec::new();
    let ghost ks = kids(recs@, start as nat, i as int, i as int + 1);
    let mut j: usize = i + 1;
    proof {
        lemma_kids_range(recs@, start as nat, i as int, i as int + 1);
    }
    while j < recs.len()
        invariant
            i < j <= recs@.len(),
            i < recs@.len(),
            parents_valid(recs@, start as nat),
            start + recs@.len() <= u32::MAX,
            ks == kids(recs@, start as nat, i as int, i as int + 1),
            ({
                let done = ks.len() - kids(recs@, start as nat, i as int, j as int).len();
                &&& 0 <= done <= ks.len()
                &&& children@.len() == done
                &&& kids(recs@, start as nat, i as int, j as int) == ks.subrange(done, ks.len() as int)
                &&& forall|k: int| 0 <= k < done ==> matches(
                    #[trigger] children@[k],
                    recs@,
                    start as nat,
                    ks[k],
                )
            }),
        decreases recs@.len() - j,
    {
        let ghost done = ks.len() - kids(recs@, start as nat, i as int, j as int).len();
        proof {
            lemma_kids_step(recs@, start as nat, i as int, j as int);
        }
        let parent = recs[j].parent_index;
        let is_child = parent != LITEPARSE_NO_PARENT && parent as usize == start + i;
        assert(is_child == (parent_of(recs@, start as nat, j as int) == i as int));
        if is_child {
            let child = build(recs, start, j);
            let ghost before = children@;
            children.push(child);
            proof {
                assert(kids(recs@, start as nat, i as int, j as int)[0] == j as int);
                assert(ks[done] == j as int);
                let kj = kids(recs@, start as nat, i as int, j as int);
                assert(kids(recs@, start as nat, i as int, j as int + 1) =~= kj.subrange(1, kj.len() as int));
                assert(kids(recs@, start as nat, i as int, j as int + 1) =~= ks.subrange(
                    done + 1,
                    ks.len() as int,
                ));
                assert forall|k: int| 0 <= k < done + 1 implies matches(
                    #[trigger] children@[k],
                    recs@,
                    start as nat,
                    ks[k],
                ) by {
                    if k < done {
                        assert(children@[k] == before[k]);
                    }
                }
            }
        }
        j = j + 1;
    }
    StructureElement { node: recs[i].node, children }
}

pub open spec fn where_message(where_: Seq<char>, local: nat) -> Seq<char> {
    where_ + ".structure_nodes["@ + decimal(local) + "].parent_index must name an earlier node of the same page"@
}

/// Rebuild the trees of the records of one page, which start at absolute
/// index `start`. Every parent must be a root marker or an earlier record
/// of the same range; children keep record order.
pub fn rebuild_structure<T: Copy>(
    recs: &[StructureNodeRecord<T>],
    start: usize,
    where_: &str,
) -> (r: FfiResult<Vec<StructureElement<T>>>)
    requires
        start + recs@.len() <= u32::MAX,
    ensures
        r is Ok <==> parents_valid(recs@, start as nat),
        r matches Ok(roots) ==> forest_matches(roots@, recs@, start as nat),
        r matches Err(e) ==> e.status == LITEPARSE_STATUS_INVALID_ARGUMENT && exists|j: int|
            0 <= j < recs@.len() && !parent_ok(recs@, start as nat, j) && (forall|k: int|
                0 <= k < j ==> parent_ok(recs@, start as nat, k)) && e.message@ == where_message(
                where_@,
                j as nat,
            ),
{
    let mut j: usize = 0;
    while j < recs.len()
        invariant
            0 <= j <= recs@.len(),
            start + recs@.len() <= u32::MAX,
            forall|k: int| 0 <= k < j ==> parent_ok(recs@, start as nat, k),
        decreases recs@.len() - j,
    {
        let parent = recs[j].parent_index;
        if parent != LITEPARSE_NO_PARENT && !(start <= parent as usize && (parent as usize)
            < start + j) {
            let mut message = String::from_str(where_);
            message.append(".structure_nodes[");
            push_decimal(&mut message, j as u64);
            message.append("].parent_index must name an earlier node of the same page");
            assert(!parent_ok(recs@, start as nat, j as int));
            return Err(FfiError::invalid_argument(message));
        }
        j = j + 1;
    }
    let ghost ks = kids(recs@, start as nat, -1, 0);
    proof {
        lemma_kids_range(recs@, start as nat, -1, 0);
    }
    let mut roots: Vec<StructureElement<T>> = Vec::new();
    let mut j: usize = 0;
    while j < recs.len()
        invariant
            0 <= j <= recs@.len(),
            parents_valid(recs@, start as nat),
            start + recs@.len() <= u32::MAX,
            ks == kids(recs@, start as nat, -1, 0),
            ({
                let done = ks.len() - kids(recs@, start as nat, -1, j as int).len();
                &&& 0 <= done <= ks.len()
                &&& roots@.len() == done
                &&& kids(recs@, start as nat, -1, j as int) == ks.subrange(done, ks.len() as int)
                &&& forall|k: int| 0 <= k < done ==> matches(
                    #[trigger] roots@[k],
                    recs@,
                    start as nat,
                    ks[k],
                )
            }),
        decreases recs@.len() - j,
    {
        let ghost done = ks.len() - kids(recs@, start as nat, -1, j as int).len();
        proof {
            lemma_kids_step(recs@, start as nat, -1, j as int);
        }
        assert((recs[j as int].parent_index == LITEPARSE_NO_PARENT) == (parent_of(
            recs@,
            start as nat,
            j as int,
        ) == -1)) by {
            assert(parent_ok(recs@, start as nat, j as int));
        }
        if recs[j].parent_index == LITEPARSE_NO_PARENT {
            let root = build(recs, start, j);
            let ghost before = roots@;
            roots.push(root);
            proof {
                assert(kids(recs@, start as nat, -1, j as int)[0] == j as int);
                assert(ks[done] == j as int);
                let kj = kids(recs@, start as nat, -1, j as int);
                assert(kids(recs@, start as nat, -1, j as int + 1) =~= kj.subrange(1, kj.len() as int));
                assert(kids(recs@, start as nat, -1, j as int + 1) =~= ks.subrange(
                    done + 1,
                    ks.len() as int,
                ));
                assert forall|k: int| 0 <= k < done + 1 implies matches(
                    #[trigger] roots@[k],
                    recs@,
                    start as nat,
                    ks[k],
                ) by {
                    if k < done {
                        assert(roots@[k] == before[k]);
                    }
                }
            }
        }
        j = j + 1;
    }
    Ok(roots)
}

} // verus!

verus! {

/// Offset of tree `k` within the flattening of `es`.
pub open spec fn tree_offset<T>(es: Seq<StructureElement<T>>, k: int) -> nat {
    forest_size(es.take(k))
}

#[verifier::spinoff_prover]
#[verifier::rlimit(40)]
proof fn lemma_take_drop_last<T>(es: Seq<StructureElement<T>>, k: int)
    requires
        0 <= k < es.len(),
    ensures
        es.take(k + 1).drop_last() == es.take(k),
        es.take(k + 1).last() == es[k],
        forest_size(es.take(k + 1)) == forest_size(es.take(k)) + tree_size(es[k]),
{
    assert(es.take(k + 1).drop_last() =~= es.take(k));
}

#[verifier::spinoff_prover]
#[verifier::rlimit(40)]
proof fn lemma_offsets_monotone<T>(es: Seq<StructureElement<T>>, k: int, l: int)
    requires
        0 <= k <= l <= es.len(),
    ensures
        tree_offset(es, k) <= tree_offset(es, l),
        k < l ==> tree_offset(es, k) + tree_size(es[k]) <= tree_offset(es, l),
    decreases l - k,
{
    if k < l {
        lemma_take_drop_last(es, k);
        lemma_offsets_monotone(es, k + 1, l);
    }
}

#[verifier::spinoff_prover]
#[verifier::rlimit(40)]
proof fn lemma_full_offset<T>(es: Seq<StructureElement<T>>)
    ensures
        tree_offset(es, es.len() as int) == forest_size(es),
{
    assert(es.take(es.len() as int) =~= es);
}

/// The flattening of a forest is its trees' flattenings laid end to end.
#[verifier::spinoff_prover]
#[verifier::rlimit(40)]
proof fn lemma_forest_segment<T>(
    es: Seq<StructureElement<T>>,
    q: u32,
    d: nat,
    a: nat,
    k: int,
    j: int,
)
    requires
        0 <= k < es.len(),
        tree_offset(es, k) <= j < tree_offset(es, k) + tree_size(es[k]),
    ensures
        flat_forest(es, q, d, a)[j] == flat_tree(es[k], q, d, a + tree_offset(es, k))[j
            - tree_offset(es, k)],
    decreases es.len(),
{
    let p = es.drop_last();
    lemma_flat_forest_lengths(p, q, d, a);
    lemma_full_offset(p);
    let fa = flat_forest(p, q, d, a);
    let fb = flat_tree(es.last(), q, d, a + fa.len());
    assert(flat_forest(es, q, d, a) == fa + fb);
    if k < es.len() - 1 {
        assert(p.take(k) =~= es.take(k));
        assert(p[k] == es[k]);
        lemma_take_drop_last(p, k);
        lemma_offsets_monotone(p, k + 1, p.len() as int);
        assert(j < fa.len());
        lemma_forest_segment(p, q, d, a, k, j);
        assert(tree_offset(p, k) == tree_offset(es, k));
        assert(flat_forest(es, q, d, a)[j] == fa[j]);
    } else {
        assert(p =~= es.take(k));
        assert(tree_offset(es, k) == fa.len());
        assert(es[k] == es.last());
        lemma_flat_lengths(es.last(), q, d, a + fa.len());
        assert(flat_forest(es, q, d, a)[j] == fb[j - fa.len()]);
    }
}

/// Which tree of `es` holds flattened position `j`.
#[verifier::spinoff_prover]
#[verifier::rlimit(40)]
proof fn lemma_find_tree<T>(es: Seq<StructureElement<T>>, j: int) -> (k: int)
    requires
        0 <= j < forest_size(es),
    ensures
        0 <= k < es.len(),
        tree_offset(es, k) <= j < tree_offset(es, k) + tree_size(es[k]),
    decreases es.len(),
{
    let p = es.drop_last();
    lemma_full_offset(p);
    assert(p =~= es.take(es.len() - 1));
    if j < forest_size(p) {
        let k = lemma_find_tree(p, j);
        assert(p.take(k) =~= es.take(k));
        assert(p[k] == es[k]);
        k
    } else {
        (es.len() - 1) as int
    }
}

/// Parents inside a flattened tree: the root names `parent`; every other
/// record names an earlier record of the same tree.
#[verifier::spinoff_prover]
#[verifier::rlimit(40)]
proof fn lemma_tree_parents<T>(e: StructureElement<T>, parent: u32, d: nat, a: nat, j: int)
    requires
        0 <= j < tree_size(e),
        a + tree_size(e) <= u32::MAX,
    ensures
        j == 0 ==> flat_tree(e, parent, d, a)[j].parent_index == parent,
        j > 0 ==> a <= flat_tree(e, parent, d, a)[j].parent_index < a + j,
        flat_tree(e, parent, d, a)[j].node == (if j == 0 {
            e.node
        } else {
            flat_tree(e, parent, d, a)[j].node
        }),
    decreases e,
{
    lemma_flat_forest_lengths(e.children@, a as u32, d + 1, a + 1);
    if j > 0 {
        let cs = e.children@;
        let k = lemma_find_tree(cs, j - 1);
        lemma_forest_segment(cs, a as u32, d + 1, a + 1, k, j - 1);
        lemma_offsets_monotone(cs, k + 1, cs.len() as int);
        lemma_take_drop_last(cs, k);
        lemma_full_offset(cs);
        assert(decreases_to!(e => cs[k]));
        lemma_tree_parents(cs[k], a as u32, d + 1, a + 1 + tree_offset(cs, k), j - 1 - tree_offset(cs, k));
    }
}

} // verus!

verus! {

/// No record outside `lo..hi` names a record inside it as its parent.
pub open spec fn closed<T>(recs: Seq<StructureNodeRecord<T>>, start: nat, lo: int, hi: int) -> bool {
    forall|j: int|
        0 <= j < recs.len() && !(lo <= j < hi) ==> !(lo <= #[trigger] parent_of(recs, start, j) < hi)
}

#[verifier::spinoff_prover]
#[verifier::rlimit(40)]
proof fn lemma_kids_skip<T>(recs: Seq<StructureNodeRecord<T>>, start: nat, p: int, lo: int, hi: int)
    requires
        0 <= lo <= hi,
        forall|j: int| lo <= j < hi && j < recs.len() ==> #[trigger] parent_of(recs, start, j) != p,
    ensures
        kids(recs, start, p, lo) == kids(recs, start, p, hi),
    decreases hi - lo,
{
    if lo < hi {
        lemma_kids_skip(recs, start, p, lo + 1, hi);
        if lo < recs.len() {
            lemma_kids_step(recs, start, p, lo);
        }
    }
}

#[verifier::spinoff_prover]
#[verifier::rlimit(40)]
proof fn lemma_kids_end<T>(recs: Seq<StructureNodeRecord<T>>, start: nat, p: int, from: int)
    requires
        0 <= from,
        forall|j: int| from <= j < recs.len() ==> #[trigger] parent_of(recs, start, j) != p,
    ensures
        kids(recs, start, p, from) == Seq::<int>::empty(),
    decreases recs.len() - from,
{
    if from < recs.len() {
        lemma_kids_end(recs, start, p, from + 1);
    }
}

/// Root positions of the trees of `es` flattened from local offset `o`.
pub open spec fn root_positions<T>(es: Seq<StructureElement<T>>, o: int) -> Seq<int> {
    Seq::new(es.len(), |k: int| o + tree_offset(es, k))
}

/// The hypotheses of `lemma_forest_kids`: within the flattening of `es` at
/// local offset `o`, each root names `p` and every other record names an
/// earlier record of its own tree; no later record names `p`.
pub open spec fn forest_laid_out<T>(
    recs: Seq<StructureNodeRecord<T>>,
    start: nat,
    es: Seq<StructureElement<T>>,
    o: int,
    p: int,
) -> bool {
    &&& 0 <= o
    &&& p < o
    &&& o + forest_size(es) <= recs.len()
    &&& closed_after(recs, start, p, o + forest_size(es))
    &&& forall|k: int|
        #![trigger es[k]]
        0 <= k < es.len() ==> parent_of(recs, start, o + tree_offset(es, k)) == p && forall|j: int|
            o + tree_offset(es, k) < j < o + tree_offset(es, k) + tree_size(es[k]) ==> o
                + tree_offset(es, k) <= #[trigger] parent_of(recs, start, j) < j
}

#[verifier::spinoff_prover]
#[verifier::rlimit(40)]
proof fn lemma_forest_kids_from<T>(
    recs: Seq<StructureNodeRecord<T>>,
    start: nat,
    es: Seq<StructureElement<T>>,
    o: int,
    p: int,
    k: int,
)
    requires
        forest_laid_out(recs, start, es, o, p),
        0 <= k <= es.len(),
    ensures
        kids(recs, start, p, o + tree_offset(es, k)) == root_positions(es, o).subrange(
            k,
            es.len() as int,
        ),
    decreases es.len() - k,
{
    let rp = root_positions(es, o);
    lemma_full_offset(es);
    if k == es.len() {
        lemma_kids_end(recs, start, p, o + forest_size(es));
        assert(rp.subrange(k, es.len() as int) =~= Seq::<int>::empty());
    } else {
        lemma_forest_kids_from(recs, start, es, o, p, k + 1);
        lemma_take_drop_last(es, k);
        lemma_offsets_monotone(es, k, es.len() as int);
        lemma_offsets_monotone(es, k + 1, es.len() as int);
        let r0 = o + tree_offset(es, k);
        assert(es[k] == es[k]);
        lemma_kids_skip(recs, start, p, r0 + 1, o + tree_offset(es, k + 1));
        lemma_kids_step(recs, start, p, r0);
        assert(kids(recs, start, p, r0) =~= rp.subrange(k, es.len() as int));
    }
}

/// The records naming `p` as parent are exactly the roots.
#[verifier::spinoff_prover]
#[verifier::rlimit(40)]
proof fn lemma_forest_kids<T>(
    recs: Seq<StructureNodeRecord<T>>,
    start: nat,
    es: Seq<StructureElement<T>>,
    o: int,
    p: int,
)
    requires
        forest_laid_out(recs, start, es, o, p),
    ensures
        kids(recs, start, p, o) == root_positions(es, o),
{
    lemma_forest_kids_from(recs, start, es, o, p, 0);
    assert(es.take(0) =~= Seq::<StructureElement<T>>::empty());
    assert(root_positions(es, o).subrange(0, es.len() as int) =~= root_positions(es, o));
}

/// No record from `from` on names `p` as parent.
pub open spec fn closed_after<T>(recs: Seq<StructureNodeRecord<T>>, start: nat, p: int, from: int) -> bool {
    forall|j: int| from <= j < recs.len() ==> #[trigger] parent_of(recs, start, j) != p
}

} // verus!

verus! {

/// The records of `e`'s flattening sit at local offset `o`.
pub open spec fn laid_at<T>(
    recs: Seq<StructureNodeRecord<T>>,
    start: nat,
    e: StructureElement<T>,
    parent: u32,
    d: nat,
    o: nat,
) -> bool {
    &&& o + tree_size(e) <= recs.len()
    &&& forall|j: int|
        0 <= j < tree_size(e) ==> recs[o + j] == #[trigger] flat_tree(e, parent, d, start + o)[j]
}

#[verifier::spinoff_prover]
#[verifier::rlimit(40)]
proof fn lemma_child_record<T>(
    recs: Seq<StructureNodeRecord<T>>,
    start: nat,
    e: StructureElement<T>,
    parent: u32,
    d: nat,
    o: nat,
    k: int,
    j: int,
)
    requires
        laid_at(recs, start, e, parent, d, o),
        start + recs.len() <= u32::MAX,
        0 <= k < e.children@.len(),
        0 <= j < tree_size(e.children@[k]),
    ensures
        recs[o + 1 + tree_offset(e.children@, k) + j] == flat_tree(
            e.children@[k],
            (start + o) as u32,
            d + 1,
            start + o + 1 + tree_offset(e.children@, k),
        )[j],
{
    let cs = e.children@;
    let ff = flat_forest(cs, (start + o) as u32, d + 1, start + o + 1);
    lemma_flat_forest_lengths(cs, (start + o) as u32, d + 1, start + o + 1);
    lemma_flat_lengths(e, parent, d, start + o);
    lemma_full_offset(cs);
    lemma_take_drop_last(cs, k);
    lemma_offsets_monotone(cs, k + 1, cs.len() as int);
    let i = 1 + tree_offset(cs, k) + j;
    assert(flat_tree(e, parent, d, start + o)[i] == ff[i - 1]);
    lemma_forest_segment(cs, (start + o) as u32, d + 1, start + o + 1, k, i - 1);
}

#[verifier::spinoff_prover]
#[verifier::rlimit(40)]
proof fn lemma_children_laid_out<T>(
    recs: Seq<StructureNodeRecord<T>>,
    start: nat,
    e: StructureElement<T>,
    parent: u32,
    d: nat,
    o: nat,
)
    requires
        laid_at(recs, start, e, parent, d, o),
        start + recs.len() <= u32::MAX,
        closed(recs, start, o as int, (o + tree_size(e)) as int),
    ensures
        forest_laid_out(recs, start, e.children@, (o + 1) as int, o as int),
{
    let cs = e.children@;
    lemma_flat_lengths(e, parent, d, start + o);
    lemma_full_offset(cs);
    assert forall|k: int| 0 <= k < cs.len() implies {
        &&& parent_of(recs, start, (o + 1 + tree_offset(cs, k)) as int) == o as int
        &&& forall|j: int|
            o + 1 + tree_offset(cs, k) < j < o + 1 + tree_offset(cs, k) + tree_size(#[trigger] cs[k])
                ==> o + 1 + tree_offset(cs, k) <= #[trigger] parent_of(recs, start, j) < j
    } by {
        lemma_take_drop_last(cs, k);
        lemma_offsets_monotone(cs, k + 1, cs.len() as int);
        let a = start + o + 1 + tree_offset(cs, k);
        lemma_child_record(recs, start, e, parent, d, o, k, 0);
        lemma_tree_parents(cs[k], (start + o) as u32, d + 1, a, 0);
        assert forall|j: int|
            o + 1 + tree_offset(cs, k) < j < o + 1 + tree_offset(cs, k) + tree_size(cs[k]) implies o
                + 1 + tree_offset(cs, k) <= #[trigger] parent_of(recs, start, j) < j by {
            let rel = j - (o + 1 + tree_offset(cs, k));
            lemma_child_record(recs, start, e, parent, d, o, k, rel);
            lemma_tree_parents(cs[k], (start + o) as u32, d + 1, a, rel);
        }
    }
}

#[verifier::spinoff_prover]
#[verifier::rlimit(40)]
proof fn lemma_child_laid<T>(
    recs: Seq<StructureNodeRecord<T>>,
    start: nat,
    e: StructureElement<T>,
    parent: u32,
    d: nat,
    o: nat,
    k: int,
)
    requires
        laid_at(recs, start, e, parent, d, o),
        start + recs.len() <= u32::MAX,
        0 <= k < e.children@.len(),
    ensures
        laid_at(
            recs,
            start,
            e.children@[k],
            (start + o) as u32,
            d + 1,
            o + 1 + tree_offset(e.children@, k),
        ),
{
    let cs = e.children@;
    lemma_flat_lengths(e, parent, d, start + o);
    lemma_full_offset(cs);
    lemma_take_drop_last(cs, k);
    lemma_offsets_monotone(cs, k + 1, cs.len() as int);
    let lo = o + 1 + tree_offset(cs, k);
    assert forall|j: int| 0 <= j < tree_size(cs[k]) implies recs[lo + j] == #[trigger] flat_tree(
        cs[k],
        (start + o) as u32,
        d + 1,
        start + lo,
    )[j] by {
        lemma_child_record(recs, start, e, parent, d, o, k, j);
    }
}

#[verifier::spinoff_prover]
#[verifier::rlimit(40)]
proof fn lemma_laid_out_parent<T>(
    recs: Seq<StructureNodeRecord<T>>,
    start: nat,
    es: Seq<StructureElement<T>>,
    o1: int,
    p: int,
    k: int,
    j: int,
)
    requires
        forest_laid_out(recs, start, es, o1, p),
        0 <= k < es.len(),
        o1 + tree_offset(es, k) <= j < o1 + tree_offset(es, k) + tree_size(es[k]),
    ensures
        j == o1 + tree_offset(es, k) ==> parent_of(recs, start, j) == p,
        j != o1 + tree_offset(es, k) ==> o1 + tree_offset(es, k) <= parent_of(recs, start, j) < j,
{
    assert(es[k] == es[k]);
}

/// A record of one tree of a laid-out forest does not name a record of
/// another tree of it.
#[verifier::spinoff_prover]
#[verifier::rlimit(80)]
proof fn lemma_sibling_parent<T>(
    recs: Seq<StructureNodeRecord<T>>,
    start: nat,
    es: Seq<StructureElement<T>>,
    o1: int,
    p: int,
    k: int,
    j: int,
)
    requires
        forest_laid_out(recs, start, es, o1, p),
        0 <= k < es.len(),
        o1 <= j < o1 + forest_size(es),
        !(o1 + tree_offset(es, k) <= j < o1 + tree_offset(es, k) + tree_size(es[k])),
    ensures
        !(o1 + tree_offset(es, k) <= parent_of(recs, start, j) < o1 + tree_offset(es, k) + tree_size(
            es[k],
        )),
{
    let k2 = lemma_find_tree(es, j - o1);
    lemma_take_drop_last(es, k2);
    lemma_take_drop_last(es, k);
    if k2 < k {
        lemma_offsets_monotone(es, k2 + 1, k);
    } else {
        lemma_offsets_monotone(es, k + 1, k2);
    }
    lemma_laid_out_parent(recs, start, es, o1, p, k2, j);
}

#[verifier::rlimit(30)]
#[verifier::spinoff_prover]
proof fn lemma_child_closed<T>(
    recs: Seq<StructureNodeRecord<T>>,
    start: nat,
    e: StructureElement<T>,
    parent: u32,
    d: nat,
    o: nat,
    k: int,
)
    requires
        laid_at(recs, start, e, parent, d, o),
        start + recs.len() <= u32::MAX,
        parent == LITEPARSE_NO_PARENT || parent < start + o,
        closed(recs, start, o as int, (o + tree_size(e)) as int),
        forest_laid_out(recs, start, e.children@, (o + 1) as int, o as int),
        0 <= k < e.children@.len(),
    ensures
        closed(
            recs,
            start,
            (o + 1 + tree_offset(e.children@, k)) as int,
            (o + 1 + tree_offset(e.children@, k) + tree_size(e.children@[k])) as int,
        ),
{
    let cs = e.children@;
    let hi = o + tree_size(e);
    lemma_flat_lengths(e, parent, d, start + o);
    lemma_full_offset(cs);
    lemma_take_drop_last(cs, k);
    lemma_offsets_monotone(cs, k + 1, cs.len() as int);
    assert(recs[o as int] == flat_tree(e, parent, d, start + o)[0]);
    let lo = o + 1 + tree_offset(cs, k);
    let chi = lo + tree_size(cs[k]);
    assert forall|j: int| 0 <= j < recs.len() && !(lo <= j < chi) implies !(lo <= #[trigger] parent_of(
        recs,
        start,
        j,
    ) < chi) by {
        if o < j < hi {
            lemma_sibling_parent(recs, start, cs, (o + 1) as int, o as int, k, j);
        }
    }
}

/// A flattened tree laid at `o`, whose root's parent is outside it and
/// whose range no other record points into, is what the records give for
/// `o`.
#[verifier::spinoff_prover]
#[verifier::rlimit(40)]
proof fn lemma_tree_matches<T>(
    recs: Seq<StructureNodeRecord<T>>,
    start: nat,
    e: StructureElement<T>,
    parent: u32,
    d: nat,
    o: nat,
)
    requires
        laid_at(recs, start, e, parent, d, o),
        start + recs.len() <= u32::MAX,
        parent == LITEPARSE_NO_PARENT || parent < start + o,
        closed(recs, start, o as int, (o + tree_size(e)) as int),
    ensures
        matches(e, recs, start, o as int),
    decreases e,
{
    let cs = e.children@;
    lemma_flat_lengths(e, parent, d, start + o);
    assert(recs[o as int] == flat_tree(e, parent, d, start + o)[0]);
    lemma_children_laid_out(recs, start, e, parent, d, o);
    lemma_forest_kids(recs, start, cs, (o + 1) as int, o as int);
    let ks = kids(recs, start, o as int, (o + 1) as int);
    assert forall|k: int| 0 <= k < ks.len() && o < ks[k] < recs.len() implies matches(
        #[trigger] e.children@[k],
        recs,
        start,
        ks[k],
    ) by {
        lemma_child_closed(recs, start, e, parent, d, o, k);
        lemma_child_laid(recs, start, e, parent, d, o, k);
        assert(decreases_to!(e => cs[k]));
        lemma_tree_matches(
            recs,
            start,
            cs[k],
            (start + o) as u32,
            d + 1,
            o + 1 + tree_offset(cs, k),
        );
    }
}

} // verus!

verus! {

#[verifier::spinoff_prover]
#[verifier::rlimit(40)]
proof fn lemma_height_le_size<T>(e: StructureElement<T>)
    ensures
        tree_height(e) <= tree_size(e),
    decreases e,
{
    lemma_forest_height_le_size(e.children@);
}

#[verifier::spinoff_prover]
#[verifier::rlimit(40)]
proof fn lemma_forest_height_le_size<T>(es: Seq<StructureElement<T>>)
    ensures
        forest_height(es) <= forest_size(es),
    decreases es,
{
    if es.len() > 0 {
        lemma_forest_height_le_size(es.drop_last());
        lemma_height_le_size(es.last());
    }
}

/// Append the trees `roots` in pre-order, each root naming no parent.
pub fn push_structure_roots<T: Copy>(out: &mut Vec<StructureNodeRecord<T>>, roots: &Vec<StructureElement<T>>)
    requires
        old(out)@.len() + forest_size(roots@) <= u32::MAX,
    ensures
        final(out)@ == old(out)@ + flat_forest(roots@, LITEPARSE_NO_PARENT, 0, old(out)@.len()),
{
    let ghost start = out@;
    let mut i: usize = 0;
    while i < roots.len()
        invariant
            0 <= i <= roots@.len(),
            start.len() + forest_size(roots@) <= u32::MAX,
            out@ == start + flat_forest(roots@.take(i as int), LITEPARSE_NO_PARENT, 0, start.len()),
        decreases roots@.len() - i,
    {
        let ghost pre = roots@.take(i as int);
        proof {
            lemma_take_drop_last(roots@, i as int);
            lemma_flat_forest_lengths(pre, LITEPARSE_NO_PARENT, 0, start.len());
            lemma_offsets_monotone(roots@, i as int + 1, roots@.len() as int);
            lemma_full_offset(roots@);
            lemma_height_le_size(roots@[i as int]);
        }
        push_structure(out, &roots[i], LITEPARSE_NO_PARENT, 0);
        proof {
            assert(out@ =~= start + flat_forest(
                roots@.take(i as int + 1),
                LITEPARSE_NO_PARENT,
                0,
                start.len(),
            ));
        }
        i = i + 1;
    }
    assert(roots@.take(roots@.len() as int) =~= roots@);
}

#[verifier::spinoff_prover]
#[verifier::rlimit(40)]
proof fn lemma_top_tree<T>(f: Seq<StructureElement<T>>, base: nat, k: int)
    requires
        base + forest_size(f) <= u32::MAX,
        0 <= k < f.len(),
    ensures
        ({
            let r = flat_forest(f, LITEPARSE_NO_PARENT, 0, base);
            &&& parent_of(r, base, tree_offset(f, k) as int) == -1
            &&& forall|j: int|
                tree_offset(f, k) < j < tree_offset(f, k) + tree_size(f[k]) ==> tree_offset(f, k)
                    <= #[trigger] parent_of(r, base, j) < j
        }),
{
    let r = flat_forest(f, LITEPARSE_NO_PARENT, 0, base);
    lemma_flat_forest_lengths(f, LITEPARSE_NO_PARENT, 0, base);
    lemma_full_offset(f);
    lemma_take_drop_last(f, k);
    lemma_offsets_monotone(f, k + 1, f.len() as int);
    let a = base + tree_offset(f, k);
    lemma_forest_segment(f, LITEPARSE_NO_PARENT, 0, base, k, tree_offset(f, k) as int);
    lemma_tree_parents(f[k], LITEPARSE_NO_PARENT, 0, a, 0);
    assert forall|j: int|
        tree_offset(f, k) < j < tree_offset(f, k) + tree_size(f[k]) implies tree_offset(f, k)
            <= #[trigger] parent_of(r, base, j) < j by {
        lemma_forest_segment(f, LITEPARSE_NO_PARENT, 0, base, k, j);
        lemma_tree_parents(f[k], LITEPARSE_NO_PARENT, 0, a, j - tree_offset(f, k));
    }
}

#[verifier::spinoff_prover]
#[verifier::rlimit(40)]
proof fn lemma_top_parent_ok<T>(f: Seq<StructureElement<T>>, base: nat, j: int)
    requires
        base + forest_size(f) <= u32::MAX,
        0 <= j < forest_size(f),
    ensures
        parent_ok(flat_forest(f, LITEPARSE_NO_PARENT, 0, base), base, j),
{
    lemma_flat_forest_lengths(f, LITEPARSE_NO_PARENT, 0, base);
    lemma_full_offset(f);
    let k = lemma_find_tree(f, j);
    lemma_take_drop_last(f, k);
    lemma_offsets_monotone(f, k + 1, f.len() as int);
    lemma_forest_segment(f, LITEPARSE_NO_PARENT, 0, base, k, j);
    lemma_tree_parents(f[k], LITEPARSE_NO_PARENT, 0, base + tree_offset(f, k), j - tree_offset(f, k));
}

#[verifier::spinoff_prover]
#[verifier::rlimit(40)]
proof fn lemma_forest_laid_out_top<T>(f: Seq<StructureElement<T>>, base: nat)
    requires
        base + forest_size(f) <= u32::MAX,
    ensures
        forest_laid_out(flat_forest(f, LITEPARSE_NO_PARENT, 0, base), base, f, 0, -1),
        forall|j: int|
            0 <= j < forest_size(f) ==> parent_ok(flat_forest(f, LITEPARSE_NO_PARENT, 0, base), base, j),
{
    let r = flat_forest(f, LITEPARSE_NO_PARENT, 0, base);
    lemma_flat_forest_lengths(f, LITEPARSE_NO_PARENT, 0, base);
    lemma_full_offset(f);
    assert forall|k: int| 0 <= k < f.len() implies {
        &&& parent_of(r, base, tree_offset(f, k) as int) == -1
        &&& forall|j: int|
            tree_offset(f, k) < j < tree_offset(f, k) + tree_size(#[trigger] f[k]) ==> tree_offset(
                f,
                k,
            ) <= #[trigger] parent_of(r, base, j) < j
    } by {
        lemma_top_tree(f, base, k);
    }
    assert forall|j: int| 0 <= j < forest_size(f) implies parent_ok(r, base, j) by {
        lemma_top_parent_ok(f, base, j);
    }
}

/// The records of a forest flattened from absolute index `base`: one per
/// element, each root naming no parent and every other record an earlier
/// one.
#[verifier::spinoff_prover]
#[verifier::rlimit(40)]
pub proof fn lemma_flat_parents<T>(f: Seq<StructureElement<T>>, base: nat)
    requires
        base + forest_size(f) <= u32::MAX,
    ensures
        flat_forest(f, LITEPARSE_NO_PARENT, 0, base).len() == forest_size(f),
        parents_valid(flat_forest(f, LITEPARSE_NO_PARENT, 0, base), base),
{
    lemma_flat_forest_lengths(f, LITEPARSE_NO_PARENT, 0, base);
    lemma_forest_laid_out_top(f, base);
}

#[verifier::spinoff_prover]
#[verifier::rlimit(40)]
proof fn lemma_flat_forest_matches<T>(f: Seq<StructureElement<T>>, base: nat)
    requires
        base + forest_size(f) <= u32::MAX,
    ensures
        parents_valid(flat_forest(f, LITEPARSE_NO_PARENT, 0, base), base),
        forest_matches(f, flat_forest(f, LITEPARSE_NO_PARENT, 0, base), base),
{
    let r = flat_forest(f, LITEPARSE_NO_PARENT, 0, base);
    lemma_flat_forest_lengths(f, LITEPARSE_NO_PARENT, 0, base);
    lemma_full_offset(f);
    lemma_forest_laid_out_top(f, base);
    lemma_forest_kids(r, base, f, 0, -1);
    let ks = kids(r, base, -1, 0);
    assert forall|k: int| 0 <= k < ks.len() implies matches(#[trigger] f[k], r, base, ks[k]) by {
        lemma_take_drop_last(f, k);
        lemma_offsets_monotone(f, k + 1, f.len() as int);
        let o = tree_offset(f, k);
        assert forall|j: int| 0 <= j < tree_size(f[k]) implies r[o + j] == #[trigger] flat_tree(
            f[k],
            LITEPARSE_NO_PARENT,
            0,
            base + o,
        )[j] by {
            lemma_forest_segment(f, LITEPARSE_NO_PARENT, 0, base, k, o + j);
        }
        assert forall|j: int| 0 <= j < r.len() && !(o <= j < o + tree_size(f[k])) implies !(o
            <= #[trigger] parent_of(r, base, j) < o + tree_size(f[k])) by {
            lemma_sibling_parent(r, base, f, 0, -1, k, j);
        }
        lemma_tree_matches(r, base, f[k], LITEPARSE_NO_PARENT, 0, o);
    }
}

#[verifier::spinoff_prover]
#[verifier::rlimit(40)]
proof fn lemma_matches_unique<T>(
    a: StructureElement<T>,
    b: StructureElement<T>,
    recs: Seq<StructureNodeRecord<T>>,
    start: nat,
    i: int,
)
    requires
        matches(a, recs, start, i),
        matches(b, recs, start, i),
    ensures
        same_tree(a, b),
    decreases a,
{
    let ks = kids(recs, start, i, i + 1);
    lemma_kids_range(recs, start, i, i + 1);
    assert forall|k: int| 0 <= k < a.children@.len() implies same_tree(
        #[trigger] a.children@[k],
        b.children@[k],
    ) by {
        assert(decreases_to!(a => a.children@[k]));
        lemma_matches_unique(a.children@[k], b.children@[k], recs, start, ks[k]);
    }
}

/// Reading back a flattened structure tree gives the tree that was
/// flattened: the records of `f` flattened from absolute index `base` pass
/// the parent checks, and any forest they give (the one the rebuild
/// returns) has the same trees as `f`, in order.
#[verifier::spinoff_prover]
#[verifier::rlimit(40)]
pub proof fn lemma_structure_round_trip<T>(
    f: Seq<StructureElement<T>>,
    base: nat,
    roots: Seq<StructureElement<T>>,
)
    requires
        base + forest_size(f) <= u32::MAX,
        forest_matches(roots, flat_forest(f, LITEPARSE_NO_PARENT, 0, base), base),
    ensures
        parents_valid(flat_forest(f, LITEPARSE_NO_PARENT, 0, base), base),
        roots.len() == f.len(),
        forall|k: int| 0 <= k < f.len() ==> same_tree(#[trigger] roots[k], f[k]),
{
    let r = flat_forest(f, LITEPARSE_NO_PARENT, 0, base);
    lemma_flat_forest_matches(f, base);
    let ks = kids(r, base, -1, 0);
    assert forall|k: int| 0 <= k < f.len() implies same_tree(#[trigger] roots[k], f[k]) by {
        lemma_matches_unique(roots[k], f[k], r, base, ks[k]);
    }
}

/// `a` has the shape of `b`, and `lab` maps the node of each element of
/// `a` to the node of the element of `b` in its place.
pub open spec fn relabeled<T>(a: StructureElement<u32>, b: StructureElement<T>, lab: spec_fn(u32) -> T) -> bool
    decreases a,
{
    &&& lab(a.node) == b.node
    &&& a.children@.len() == b.children@.len()
    &&& forall|k: int|
        0 <= k < a.children@.len() ==> relabeled(#[trigger] a.children@[k], b.children@[k], lab)
}

/// Records whose parents name the same local records have the same
/// children lists.
#[verifier::spinoff_prover]
#[verifier::rlimit(40)]
proof fn lemma_kids_same_parents<T, U>(
    recs: Seq<StructureNodeRecord<T>>,
    start: nat,
    other: Seq<StructureNodeRecord<U>>,
    other_start: nat,
    p: int,
    from: int,
)
    requires
        recs.len() == other.len(),
        forall|j: int| 0 <= j < recs.len() ==> #[trigger] parent_of(recs, start, j) == parent_of(other, other_start, j),
    ensures
        kids(recs, start, p, from) == kids(other, other_start, p, from),
    decreases recs.len() - from,
{
    if 0 <= from < recs.len() {
        lemma_kids_same_parents(recs, start, other, other_start, p, from + 1);
        assert(parent_of(recs, start, from) == parent_of(other, other_start, from));
    }
}

#[verifier::spinoff_prover]
#[verifier::rlimit(40)]
proof fn lemma_matches_relabeled<T>(
    a: StructureElement<u32>,
    b: StructureElement<T>,
    recs: Seq<StructureNodeRecord<u32>>,
    start: nat,
    other: Seq<StructureNodeRecord<T>>,
    other_start: nat,
    i: int,
    lab: spec_fn(u32) -> T,
)
    requires
        recs.len() == other.len(),
        forall|j: int| 0 <= j < recs.len() ==> #[trigger] parent_of(recs, start, j) == parent_of(other, other_start, j),
        forall|j: int| 0 <= j < recs.len() ==> lab(#[trigger] recs[j].node) == other[j].node,
        matches(a, recs, start, i),
        matches(b, other, other_start, i),
    ensures
        relabeled(a, b, lab),
    decreases a,
{
    let ks = kids(recs, start, i, i + 1);
    lemma_kids_same_parents(recs, start, other, other_start, i, i + 1);
    lemma_kids_range(recs, start, i, i + 1);
    assert(lab(recs[i].node) == other[i].node);
    assert forall|k: int| 0 <= k < a.children@.len() implies relabeled(
        #[trigger] a.children@[k],
        b.children@[k],
        lab,
    ) by {
        assert(decreases_to!(a => a.children@[k]));
        lemma_matches_relabeled(a.children@[k], b.children@[k], recs, start, other, other_start, ks[k], lab);
    }
}

/// Reading back the records of a flattened forest under other names: when
/// `recs` name the same parents as the records of `f` flattened from
/// `base`, and `lab` maps each record's node to that of the record of `f`
/// in its place, any forest `recs` give has the shape of `f`, its nodes
/// mapped by `lab` to those of `f`.
#[verifier::spinoff_prover]
#[verifier::rlimit(40)]
pub proof fn lemma_structure_read_relabeled<T>(
    f: Seq<StructureElement<T>>,
    base: nat,
    recs: Seq<StructureNodeRecord<u32>>,
    start: nat,
    roots: Seq<StructureElement<u32>>,
    lab: spec_fn(u32) -> T,
)
    requires
        base + forest_size(f) <= u32::MAX,
        recs.len() == forest_size(f),
        forall|j: int|
            0 <= j < recs.len() ==> #[trigger] parent_of(recs, start, j) == parent_of(
                flat_forest(f, LITEPARSE_NO_PARENT, 0, base),
                base,
                j,
            ),
        forall|j: int|
            0 <= j < recs.len() ==> lab(#[trigger] recs[j].node) == flat_forest(f, LITEPARSE_NO_PARENT, 0, base)[j].node,
        forest_matches(roots, recs, start),
    ensures
        roots.len() == f.len(),
        forall|k: int| 0 <= k < f.len() ==> relabeled(#[trigger] roots[k], f[k], lab),
{
    let flat = flat_forest(f, LITEPARSE_NO_PARENT, 0, base);
    lemma_flat_forest_lengths(f, LITEPARSE_NO_PARENT, 0, base);
    lemma_flat_forest_matches(f, base);
    lemma_kids_same_parents(recs, start, flat, base, -1, 0);
    let ks = kids(recs, start, -1, 0);
    assert forall|k: int| 0 <= k < f.len() implies relabeled(#[trigger] roots[k], f[k], lab) by {
        lemma_matches_relabeled(roots[k], f[k], recs, start, flat, base, ks[k], lab);
    }
}

} // verus!
