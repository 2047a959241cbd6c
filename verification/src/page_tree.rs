//! The shape of the page tables that mapping pages one after another builds
//! from a cleared root table: one table for each region of each level that a
//! mapped page falls in, each linked from exactly one entry of the level
//! above, and a last-level entry for each mapped page.
use vstd::prelude::*;
use crate::table_memory::{present, writable, frame, entry_at, FRAME_MASK};
use crate::virtual_memory::{
    level_index, level_shift, walk_entry, walk_table, walk_ok, missing, translate, written_slot, leaf_apart,
    new_walk,
};

verus! {

/// The region of level `k` (1 to 3) that `v` falls in: the indices that
/// lead to its table, put together.
pub open spec fn region(v: u64, k: int) -> int {
    if k <= 1 {
        level_index(v, 39)
    } else if k == 2 {
        level_index(v, 39) * 512 + level_index(v, 30)
    } else {
        (level_index(v, 39) * 512 + level_index(v, 30)) * 512 + level_index(v, 21)
    }
}

/// The regions (level and region) that the addresses of `done` fall in.
pub open spec fn regions(done: Seq<u64>) -> Set<(int, int)>
    decreases done.len(),
{
    if done.len() == 0 {
        Set::empty()
    } else {
        let v = done.last();
        regions(done.drop_last()).insert((1, region(v, 1))).insert((2, region(v, 2))).insert((3, region(v, 3)))
    }
}

/// Whether an address of `done` has last-level region `q` and index `i` there.
pub open spec fn mapped_in(done: Seq<u64>, q: int, i: int) -> bool {
    exists|j: int| 0 <= j < done.len() && region(done[j], 3) == q && level_index(done[j], 12) == i
}

/// Whether `(k, q)` is a table of the tree: the root (level 0), or a region in `tab`.
pub open spec fn is_node(tab: Map<(int, int), u64>, k: int, q: int) -> bool {
    (k == 0 && q == 0) || tab.dom().contains((k, q))
}

/// The table of the tree for level `k` and region `q`.
pub open spec fn node(tab: Map<(int, int), u64>, root: u64, k: int, q: int) -> u64 {
    if k == 0 {
        root
    } else {
        tab[(k, q)]
    }
}

/// The tables in `mem` from `root` are the tree of the pages in `done`,
/// `tab` naming the table of each region: every region has its own table,
/// an entry of a table is present exactly when its region below has a
/// table (and then names it), and a last-level entry is present exactly
/// when a page of `done` falls on it (and then names such a page's frame);
/// every present entry of the tree is writable.
pub open spec fn tree_ok(mem: Map<u64, [u64; 512]>, root: u64, tab: Map<(int, int), u64>, done: Seq<u64>) -> bool {
    &&& mem.contains_key(root)
    &&& forall|k: int, q: int, i: int|
        0 <= k <= 3 && is_node(tab, k, q) && 0 <= i < 512 && present(#[trigger] entry_at(mem, node(tab, root, k, q), i))
            ==> writable(entry_at(mem, node(tab, root, k, q), i))
    &&& tab.dom() == regions(done)
    &&& forall|p: (int, int)| #[trigger] tab.dom().contains(p) ==> mem.contains_key(tab[p]) && tab[p] != root
    &&& forall|p1: (int, int), p2: (int, int)|
        tab.dom().contains(p1) && tab.dom().contains(p2) && #[trigger] tab[p1] == #[trigger] tab[p2] ==> p1 == p2
    &&& forall|k: int, q: int, i: int|
        0 <= k < 3 && is_node(tab, k, q) && 0 <= i < 512 ==> {
            let e = #[trigger] entry_at(mem, node(tab, root, k, q), i);
            &&& present(e) == tab.dom().contains((k + 1, q * 512 + i))
            &&& present(e) ==> frame(e) == tab[(k + 1, q * 512 + i)]
        }
    &&& forall|q: int, i: int|
        tab.dom().contains((3, q)) && 0 <= i < 512 ==> {
            let e = #[trigger] entry_at(mem, tab[(3, q)], i);
            &&& present(e) == mapped_in(done, q, i)
            &&& present(e) ==> exists|j: int|
                0 <= j < done.len() && region(done[j], 3) == q && level_index(done[j], 12) == i && frame(e)
                    == done[j] & FRAME_MASK
        }
}

/// An index into a table is below 512.
pub proof fn lemma_level_index(v: u64, s: u64)
    ensures
        0 <= level_index(v, s) < 512,
{
    assert(((v >> s) & 0x1ffu64) < 512) by (bit_vector);
}

/// Each region of a level lies in one region of the level above.
pub proof fn lemma_region_parent(v: u64)
    ensures
        region(v, 1) == 0 * 512 + level_index(v, level_shift(0)),
        region(v, 2) == region(v, 1) * 512 + level_index(v, level_shift(1)),
        region(v, 3) == region(v, 2) * 512 + level_index(v, level_shift(2)),
        0 <= level_index(v, 39) < 512,
        0 <= level_index(v, 30) < 512,
        0 <= level_index(v, 21) < 512,
        0 <= level_index(v, 12) < 512,
        region(v, 1) >= 0,
        region(v, 2) >= 0,
        region(v, 3) >= 0,
{
    lemma_level_index(v, 39);
    lemma_level_index(v, 30);
    lemma_level_index(v, 21);
    lemma_level_index(v, 12);
}

/// A region and an index below it determine the region's child and back.
pub proof fn lemma_child(q: int, i: int, q2: int, i2: int)
    requires
        0 <= i < 512,
        0 <= i2 < 512,
        q * 512 + i == q2 * 512 + i2,
    ensures
        q == q2,
        i == i2,
{
}

/// The regions of `done` are those of its addresses, at levels 1 to 3.
pub proof fn lemma_regions(done: Seq<u64>)
    ensures
        regions(done).finite(),
        forall|p: (int, int)|
            #[trigger] regions(done).contains(p) <==> 1 <= p.0 <= 3 && exists|j: int|
                0 <= j < done.len() && region(done[j], p.0) == p.1,
    decreases done.len(),
{
    if done.len() > 0 {
        let prev = done.drop_last();
        lemma_regions(prev);
        let v = done.last();
        assert forall|p: (int, int)|
            #[trigger] regions(done).contains(p) <==> 1 <= p.0 <= 3 && exists|j: int|
                0 <= j < done.len() && region(done[j], p.0) == p.1 by {
            if regions(done).contains(p) {
                if regions(prev).contains(p) {
                    let j = choose|j: int| 0 <= j < prev.len() && region(prev[j], p.0) == p.1;
                    assert(done[j] == prev[j]);
                } else {
                    assert(region(done[done.len() - 1], p.0) == p.1);
                }
            }
            if 1 <= p.0 <= 3 && exists|j: int| 0 <= j < done.len() && region(done[j], p.0) == p.1 {
                let j = choose|j: int| 0 <= j < done.len() && region(done[j], p.0) == p.1;
                if j < prev.len() {
                    assert(prev[j] == done[j]);
                    assert(regions(prev).contains(p));
                } else {
                    assert(done[j] == v);
                }
            }
        }
    }
}

/// Following the tree: the walk for `w` finds the table of each of its
/// regions that has one, and the entries it passes are present exactly as
/// far down as its regions have tables.
pub proof fn lemma_tree_walk(
    mem: Map<u64, [u64; 512]>,
    root: u64,
    tab: Map<(int, int), u64>,
    done: Seq<u64>,
    w: u64,
)
    requires
        tree_ok(mem, root, tab, done),
    ensures
        present(walk_entry(mem, root, w, 0)) == tab.dom().contains((1, region(w, 1))),
        tab.dom().contains((1, region(w, 1))) ==> walk_table(mem, root, w, 1) == tab[(1, region(w, 1))],
        tab.dom().contains((1, region(w, 1))) ==> present(walk_entry(mem, root, w, 1)) == tab.dom().contains(
            (2, region(w, 2)),
        ),
        tab.dom().contains((2, region(w, 2))) ==> {
            &&& tab.dom().contains((1, region(w, 1)))
            &&& walk_table(mem, root, w, 2) == tab[(2, region(w, 2))]
            &&& present(walk_entry(mem, root, w, 2)) == tab.dom().contains((3, region(w, 3)))
        },
        tab.dom().contains((3, region(w, 3))) ==> {
            &&& tab.dom().contains((2, region(w, 2)))
            &&& walk_table(mem, root, w, 3) == tab[(3, region(w, 3))]
            &&& present(walk_entry(mem, root, w, 3)) == mapped_in(done, region(w, 3), level_index(w, 12))
        },
        walk_ok(mem, root, w),
        leaf_apart(mem, root, w),
{
    lemma_region_parent(w);
    lemma_regions(done);
    let r1 = region(w, 1);
    let r2 = region(w, 2);
    let r3 = region(w, 3);
    assert(walk_entry(mem, root, w, 0) == entry_at(mem, node(tab, root, 0, 0), level_index(w, 39)));
    if tab.dom().contains((2, r2)) {
        let j = choose|j: int| 0 <= j < done.len() && region(done[j], 2) == r2;
        lemma_region_parent(done[j]);
        lemma_child(region(done[j], 1), level_index(done[j], 30), r1, level_index(w, 30));
        assert(regions(done).contains((1, r1)));
    }
    if tab.dom().contains((3, r3)) {
        let j = choose|j: int| 0 <= j < done.len() && region(done[j], 3) == r3;
        lemma_region_parent(done[j]);
        lemma_child(region(done[j], 2), level_index(done[j], 21), r2, level_index(w, 21));
        assert(regions(done).contains((2, r2)));
    }
    if tab.dom().contains((1, r1)) {
        assert(walk_entry(mem, root, w, 1) == entry_at(mem, node(tab, root, 1, r1), level_index(w, 30)));
    }
    if tab.dom().contains((2, r2)) {
        assert(walk_entry(mem, root, w, 2) == entry_at(mem, node(tab, root, 2, r2), level_index(w, 21)));
    }
    if tab.dom().contains((3, r3)) {
        assert(walk_entry(mem, root, w, 3) == entry_at(mem, tab[(3, r3)], level_index(w, 12)));
    }
}

/// The tables of the tree once `v` is mapped in `post`: those of `tab`,
/// and for each region of `v` that had none, the table `v`'s walk reaches
/// at that level.
pub open spec fn extend(tab: Map<(int, int), u64>, post: Map<u64, [u64; 512]>, root: u64, v: u64) -> Map<
    (int, int),
    u64,
> {
    Map::new(
        |p: (int, int)| tab.dom().contains(p) || (1 <= p.0 <= 3 && p.1 == region(v, p.0)),
        |p: (int, int)|
            if tab.dom().contains(p) {
                tab[p]
            } else {
                walk_table(post, root, v, p.0)
            },
    )
}

/// What mapping `v` (to its own frame) did to the tables, as `map_memory` states it.
pub open spec fn mapped_step(pre: Map<u64, [u64; 512]>, post: Map<u64, [u64; 512]>, root: u64, v: u64) -> bool {
    &&& forall|a: u64| pre.contains_key(a) ==> #[trigger] post.contains_key(a)
    &&& forall|a: u64, j: int|
        pre.contains_key(a) && 0 <= j < 512 && (a, j) != written_slot(pre, root, v) ==> #[trigger] post[a]@[j]
            == pre[a]@[j]
    &&& new_walk(pre, post, root, v)
    &&& translate(post, root, v) == Some(v & FRAME_MASK)
}

/// The entry `0` is not present.
pub proof fn lemma_zero_absent()
    ensures
        !present(0u64),
{
    assert((0u64 & 1u64) == 0u64) by (bit_vector);
}

/// The walk for `v` after it is mapped over a tree: which of its regions
/// had tables, where its walk goes, and which entry the mapping wrote.
pub proof fn lemma_step_facts(
    m0: Map<u64, [u64; 512]>,
    m1: Map<u64, [u64; 512]>,
    root: u64,
    tab: Map<(int, int), u64>,
    done: Seq<u64>,
    v: u64,
)
    requires
        tree_ok(m0, root, tab, done),
        mapped_step(m0, m1, root, v),
    ensures
        forall|k: int|
            1 <= k <= 3 ==> #[trigger] tab.dom().contains((k, region(v, k))) == (k <= 3 - missing(m0, root, v)),
        forall|k: int|
            1 <= k <= 3 - missing(m0, root, v) ==> #[trigger] walk_table(m1, root, v, k) == tab[(k, region(v, k))],
        forall|k: int| 0 <= k <= 3 ==> present(#[trigger] walk_entry(m1, root, v, k)),
        forall|k: int|
            0 <= k <= 3 ==> #[trigger] walk_entry(m1, root, v, k) == entry_at(
                m1,
                walk_table(m1, root, v, k),
                level_index(v, level_shift(k)),
            ),
        forall|k: int|
            0 <= k < 3 ==> frame(#[trigger] walk_entry(m1, root, v, k)) == walk_table(m1, root, v, k + 1),
        forall|k: int| 0 <= k <= 3 ==> m1.contains_key(#[trigger] walk_table(m1, root, v, k)),
        walk_table(m1, root, v, 0) == root,
        walk_table(m0, root, v, 0) == root,
        frame(walk_entry(m1, root, v, 3)) == v & FRAME_MASK,
        written_slot(m0, root, v) == (
            node(tab, root, 3 - missing(m0, root, v), region(v, 3 - missing(m0, root, v))),
            level_index(v, level_shift(3 - missing(m0, root, v))),
        ),
        0 <= missing(m0, root, v) <= 3,
{
    lemma_tree_walk(m0, root, tab, done, v);
    let m = missing(m0, root, v);
    assert(walk_table(m1, root, v, 0) == root);
    assert(walk_table(m0, root, v, 0) == root);
    assert forall|k: int| 0 <= k <= 3 implies #[trigger] walk_entry(m1, root, v, k) == entry_at(
        m1,
        walk_table(m1, root, v, k),
        level_index(v, level_shift(k)),
    ) by {}
    assert(present(walk_entry(m1, root, v, 3))) by {
        assert(translate(m1, root, v) is Some);
    }
    assert forall|k: int| 0 <= k < 3 implies frame(#[trigger] walk_entry(m1, root, v, k)) == walk_table(
        m1,
        root,
        v,
        k + 1,
    ) by {}
    assert(m1.contains_key(root)) by {
        assert(m0.contains_key(root));
    }
}

/// After mapping `v` over a tree, an entry of a table of the first three
/// levels is present exactly when the region below it has a table, and then names it.
pub proof fn lemma_step_link(
    m0: Map<u64, [u64; 512]>,
    m1: Map<u64, [u64; 512]>,
    root: u64,
    tab: Map<(int, int), u64>,
    done: Seq<u64>,
    v: u64,
    k: int,
    q: int,
    i: int,
)
    requires
        tree_ok(m0, root, tab, done),
        mapped_step(m0, m1, root, v),
        0 <= k < 3,
        is_node(extend(tab, m1, root, v), k, q),
        0 <= i < 512,
    ensures
        ({
            let ext = extend(tab, m1, root, v);
            let e = entry_at(m1, node(ext, root, k, q), i);
            &&& present(e) == ext.dom().contains((k + 1, q * 512 + i))
            &&& present(e) ==> frame(e) == ext[(k + 1, q * 512 + i)]
            &&& present(e) ==> writable(e)
        }),
{
    let ext = extend(tab, m1, root, v);
    lemma_step_facts(m0, m1, root, tab, done, v);
    lemma_regions(done);
    lemma_region_parent(v);
    lemma_zero_absent();
    let m = missing(m0, root, v);
    let ws = written_slot(m0, root, v);
    let c = (k + 1, q * 512 + i);
    if is_node(tab, k, q) {
        let t = node(tab, root, k, q);
        assert(node(ext, root, k, q) == t);
        assert(m0.contains_key(t));
        assert(3 - m == 0 || tab.dom().contains((3 - m, region(v, 3 - m))));
        if (t, i) != ws {
            assert(m1[t]@[i] == m0[t]@[i]);
            assert(entry_at(m1, t, i) == entry_at(m0, t, i));
            if ext.dom().contains(c) && !tab.dom().contains(c) {
                assert(c.1 == region(v, k + 1));
                if k == 0 {
                    lemma_child(q, i, 0, level_index(v, level_shift(0)));
                } else {
                    lemma_child(q, i, region(v, k), level_index(v, level_shift(k)));
                }
                assert(false);
            }
        } else {
            if k != 3 - m {
                if k > 0 && 3 - m > 0 {
                    assert(tab[(k, q)] == tab[(3 - m, region(v, 3 - m))]);
                }
                assert(false);
            }
            if k > 0 {
                assert(tab[(k, q)] == tab[(k, region(v, k))]);
            }
            assert(entry_at(m1, t, i) == walk_entry(m1, root, v, k));
            assert(c == (k + 1, region(v, k + 1)));
        }
    } else {
        assert(k >= 1 && q == region(v, k) && !tab.dom().contains((k, q)));
        let t = walk_table(m1, root, v, k);
        assert(node(ext, root, k, q) == t);
        if i == level_index(v, level_shift(k)) {
            assert(entry_at(m1, t, i) == walk_entry(m1, root, v, k));
            assert(c == (k + 1, region(v, k + 1)));
        } else {
            assert(m1[t]@[i] == 0u64);
            if tab.dom().contains(c) {
                let j = choose|j: int| 0 <= j < done.len() && region(done[j], k + 1) == c.1;
                lemma_region_parent(done[j]);
                lemma_child(region(done[j], k), level_index(done[j], level_shift(k)), q, i);
                assert(regions(done).contains((k, q)));
            }
            if c == (k + 1, region(v, k + 1)) {
                lemma_child(q, i, region(v, k), level_index(v, level_shift(k)));
            }
        }
    }
}

/// After mapping `v` (to its own frame) over a tree, a last-level entry is
/// present exactly when a mapped page falls on it, and then names the frame
/// of such a page.
pub proof fn lemma_step_leaf(
    m0: Map<u64, [u64; 512]>,
    m1: Map<u64, [u64; 512]>,
    root: u64,
    tab: Map<(int, int), u64>,
    done: Seq<u64>,
    v: u64,
    q: int,
    i: int,
)
    requires
        tree_ok(m0, root, tab, done),
        mapped_step(m0, m1, root, v),
        extend(tab, m1, root, v).dom().contains((3, q)),
        0 <= i < 512,
    ensures
        ({
            let ext = extend(tab, m1, root, v);
            let e = entry_at(m1, ext[(3, q)], i);
            let all = done.push(v);
            &&& present(e) == mapped_in(all, q, i)
            &&& present(e) ==> exists|j: int|
                0 <= j < all.len() && region(all[j], 3) == q && level_index(all[j], 12) == i && frame(e)
                    == all[j] & FRAME_MASK
            &&& present(e) ==> writable(e)
        }),
{
    let ext = extend(tab, m1, root, v);
    let all = done.push(v);
    lemma_step_facts(m0, m1, root, tab, done, v);
    lemma_regions(done);
    lemma_region_parent(v);
    lemma_zero_absent();
    let m = missing(m0, root, v);
    let ws = written_slot(m0, root, v);
    assert(all[done.len() as int] == v);
    assert forall|j: int| 0 <= j < done.len() implies all[j] == done[j] by {}
    if tab.dom().contains((3, q)) {
        let t = tab[(3, q)];
        assert(ext[(3, q)] == t);
        assert(3 - m == 0 || tab.dom().contains((3 - m, region(v, 3 - m))));
        if (t, i) != ws {
            assert(m1[t]@[i] == m0[t]@[i]);
            assert(entry_at(m1, t, i) == entry_at(m0, t, i));
            assert(node(tab, root, 3, q) == t);
            if present(entry_at(m0, node(tab, root, 3, q), i)) {
                assert(writable(entry_at(m0, node(tab, root, 3, q), i)));
            }
            if region(v, 3) == q && level_index(v, 12) == i {
                assert(m == 0);
                assert(false);
            }
            if mapped_in(all, q, i) {
                let j = choose|j: int| 0 <= j < all.len() && region(all[j], 3) == q && level_index(all[j], 12) == i;
                assert(j < done.len());
                assert(mapped_in(done, q, i));
            }
            if present(entry_at(m0, t, i)) {
                let j = choose|j: int|
                    0 <= j < done.len() && region(done[j], 3) == q && level_index(done[j], 12) == i && frame(
                        entry_at(m0, t, i),
                    ) == done[j] & FRAME_MASK;
                assert(all[j] == done[j]);
            }
        } else {
            if m > 0 {
                if 3 - m > 0 {
                    assert(tab[(3, q)] == tab[(3 - m, region(v, 3 - m))]);
                }
                assert(false);
            }
            assert(tab[(3, q)] == tab[(3, region(v, 3))]);
            assert(entry_at(m1, t, i) == walk_entry(m1, root, v, 3));
            assert(region(all[done.len() as int], 3) == q && level_index(all[done.len() as int], 12) == i);
        }
    } else {
        assert(q == region(v, 3));
        let t = walk_table(m1, root, v, 3);
        assert(ext[(3, q)] == t);
        if i == level_index(v, 12) {
            assert(entry_at(m1, t, i) == walk_entry(m1, root, v, 3));
            assert(region(all[done.len() as int], 3) == q && level_index(all[done.len() as int], 12) == i);
        } else {
            assert(m1[t]@[i] == 0u64);
            if mapped_in(all, q, i) {
                let j = choose|j: int| 0 <= j < all.len() && region(all[j], 3) == q && level_index(all[j], 12) == i;
                if j < done.len() {
                    assert(regions(done).contains((3, q)));
                }
                assert(false);
            }
        }
    }
}

/// Mapping `v` (to its own frame) over the tree of `done` gives the tree of
/// `done` and `v`, with a table for each region of `v` that had none.
pub proof fn lemma_tree_step(
    m0: Map<u64, [u64; 512]>,
    m1: Map<u64, [u64; 512]>,
    root: u64,
    tab: Map<(int, int), u64>,
    done: Seq<u64>,
    v: u64,
)
    requires
        tree_ok(m0, root, tab, done),
        mapped_step(m0, m1, root, v),
    ensures
        tree_ok(m1, root, extend(tab, m1, root, v), done.push(v)),
{
    let ext = extend(tab, m1, root, v);
    let all = done.push(v);
    lemma_step_facts(m0, m1, root, tab, done, v);
    let m = missing(m0, root, v);
    assert(all.drop_last() =~= done);
    assert(ext.dom() =~= regions(all));
    assert forall|p: (int, int)| #[trigger] ext.dom().contains(p) implies m1.contains_key(ext[p]) && ext[p] != root by {
        if tab.dom().contains(p) {
            assert(m0.contains_key(tab[p]));
        } else {
            assert(!m0.contains_key(walk_table(m1, root, v, p.0)));
            assert(m0.contains_key(root));
        }
    }
    assert forall|p1: (int, int), p2: (int, int)|
        ext.dom().contains(p1) && ext.dom().contains(p2) && #[trigger] ext[p1] == #[trigger] ext[p2] implies p1
        == p2 by {
        if tab.dom().contains(p1) && !tab.dom().contains(p2) {
            assert(m0.contains_key(tab[p1]));
            assert(!m0.contains_key(walk_table(m1, root, v, p2.0)));
        } else if !tab.dom().contains(p1) && tab.dom().contains(p2) {
            assert(m0.contains_key(tab[p2]));
            assert(!m0.contains_key(walk_table(m1, root, v, p1.0)));
        } else if !tab.dom().contains(p1) && !tab.dom().contains(p2) {
            if p1.0 != p2.0 {
                if p1.0 < p2.0 {
                    assert(walk_table(m1, root, v, p1.0) != walk_table(m1, root, v, p2.0));
                } else {
                    assert(walk_table(m1, root, v, p2.0) != walk_table(m1, root, v, p1.0));
                }
            }
        }
    }
    assert forall|k: int, q: int, i: int| 0 <= k < 3 && is_node(ext, k, q) && 0 <= i < 512 implies {
        let e = #[trigger] entry_at(m1, node(ext, root, k, q), i);
        &&& present(e) == ext.dom().contains((k + 1, q * 512 + i))
        &&& present(e) ==> frame(e) == ext[(k + 1, q * 512 + i)]
    } by {
        lemma_step_link(m0, m1, root, tab, done, v, k, q, i);
    }
    assert forall|k: int, q: int, i: int|
        0 <= k <= 3 && is_node(ext, k, q) && 0 <= i < 512 && present(#[trigger] entry_at(m1, node(ext, root, k, q), i))
        implies writable(entry_at(m1, node(ext, root, k, q), i)) by {
        if k < 3 {
            lemma_step_link(m0, m1, root, tab, done, v, k, q, i);
        } else {
            lemma_step_leaf(m0, m1, root, tab, done, v, q, i);
        }
    }
    assert forall|q: int, i: int| ext.dom().contains((3, q)) && 0 <= i < 512 implies {
        let e = #[trigger] entry_at(m1, ext[(3, q)], i);
        &&& present(e) == mapped_in(all, q, i)
        &&& present(e) ==> exists|j: int|
            0 <= j < all.len() && region(all[j], 3) == q && level_index(all[j], 12) == i && frame(e) == all[j]
                & FRAME_MASK
    } by {
        lemma_step_leaf(m0, m1, root, tab, done, v, q, i);
    }
}

/// Mapping `v` over the tree of `done` adds one region for each table it
/// lacks.
pub proof fn lemma_regions_grow(
    mem: Map<u64, [u64; 512]>,
    root: u64,
    tab: Map<(int, int), u64>,
    done: Seq<u64>,
    v: u64,
)
    requires
        tree_ok(mem, root, tab, done),
    ensures
        regions(done.push(v)).finite(),
        regions(done.push(v)).len() == regions(done).len() + missing(mem, root, v),
{
    lemma_tree_walk(mem, root, tab, done, v);
    lemma_regions(done);
    let all = done.push(v);
    assert(all.drop_last() =~= done);
    let r = regions(done);
    let p1 = (1, region(v, 1));
    let p2 = (2, region(v, 2));
    let p3 = (3, region(v, 3));
    let s1 = r.insert(p1);
    let s2 = s1.insert(p2);
    assert(s1.contains(p2) == r.contains(p2));
    assert(s2.contains(p3) == r.contains(p3));
}

/// The regions of a part of the pages to map are among those of all of them.
pub proof fn lemma_regions_prefix(all: Seq<u64>, c: int)
    requires
        0 <= c <= all.len(),
    ensures
        regions(all.take(c)).subset_of(regions(all)),
        regions(all.take(c)).len() <= regions(all).len(),
        regions(all).finite(),
{
    lemma_regions(all);
    lemma_regions(all.take(c));
    assert forall|p: (int, int)| #[trigger] regions(all.take(c)).contains(p) implies regions(all).contains(p) by {
        let j = choose|j: int| 0 <= j < all.take(c).len() && region(all.take(c)[j], p.0) == p.1;
        assert(all.take(c)[j] == all[j]);
    }
    vstd::set_lib::lemma_len_subset(regions(all.take(c)), regions(all));
}

/// A cleared root table on its own is the tree of no pages.
pub proof fn lemma_tree_start(mem: Map<u64, [u64; 512]>, root: u64)
    requires
        mem.contains_key(root),
        forall|j: int| 0 <= j < 512 ==> #[trigger] mem[root]@[j] == 0u64,
    ensures
        tree_ok(mem, root, Map::empty(), Seq::empty()),
{
    lemma_zero_absent();
    assert(regions(Seq::<u64>::empty()) =~= Set::empty());
    assert(Map::<(int, int), u64>::empty().dom() =~= Set::empty());
}

/// Every page of the tree of `pages` is mapped, to the frame of a page with
/// the same indices.
pub proof fn lemma_tree_translates(mem: Map<u64, [u64; 512]>, root: u64, tab: Map<(int, int), u64>, pages: Seq<u64>, j: int)
    requires
        tree_ok(mem, root, tab, pages),
        0 <= j < pages.len(),
    ensures
        exists|j2: int|
            0 <= j2 < pages.len() && same_page(pages[j2], pages[j]) && translate(mem, root, pages[j]) == Some(
                pages[j2] & FRAME_MASK,
            ),
        forall|k: int| 0 <= k <= 3 ==> writable(#[trigger] walk_entry(mem, root, pages[j], k)),
{
    let u = pages[j];
    lemma_regions(pages);
    assert(regions(pages).contains((1, region(u, 1))));
    assert(regions(pages).contains((2, region(u, 2))));
    assert(regions(pages).contains((3, region(u, 3))));
    lemma_tree_walk(mem, root, tab, pages, u);
    assert(mapped_in(pages, region(u, 3), level_index(u, 12)));
    lemma_region_parent(u);
    let e = entry_at(mem, tab[(3, region(u, 3))], level_index(u, 12));
    assert(e == walk_entry(mem, root, u, 3));
    let j2 = choose|j2: int|
        0 <= j2 < pages.len() && region(pages[j2], 3) == region(u, 3) && level_index(pages[j2], 12) == level_index(u, 12)
            && frame(e) == pages[j2] & FRAME_MASK;
    assert(same_page(pages[j2], u));
    assert(walk_entry(mem, root, u, 0) == entry_at(mem, node(tab, root, 0, 0), level_index(u, 39)));
    assert(walk_entry(mem, root, u, 1) == entry_at(mem, node(tab, root, 1, region(u, 1)), level_index(u, 30)));
    assert(walk_entry(mem, root, u, 2) == entry_at(mem, node(tab, root, 2, region(u, 2)), level_index(u, 21)));
    assert(walk_entry(mem, root, u, 3) == entry_at(mem, node(tab, root, 3, region(u, 3)), level_index(u, 12)));
}

/// Two addresses lie in the same page of the four-level tree: all four of their indices agree.
pub open spec fn same_page(u: u64, w: u64) -> bool {
    region(u, 3) == region(w, 3) && level_index(u, 12) == level_index(w, 12)
}

/// Addresses below 2^48 in the same page have the same frame.
pub proof fn lemma_same_page_frame(u: u64, w: u64)
    requires
        same_page(u, w),
        u < 0x1_0000_0000_0000,
        w < 0x1_0000_0000_0000,
    ensures
        u & FRAME_MASK == w & FRAME_MASK,
{
    lemma_region_parent(u);
    lemma_region_parent(w);
    lemma_child(region(u, 2), level_index(u, 21), region(w, 2), level_index(w, 21));
    lemma_child(region(u, 1), level_index(u, 30), region(w, 1), level_index(w, 30));
    assert(u & 0x000f_ffff_ffff_f000u64 == w & 0x000f_ffff_ffff_f000u64) by (bit_vector)
        requires
            ((u >> 39u64) & 0x1ffu64) == ((w >> 39u64) & 0x1ffu64),
            ((u >> 30u64) & 0x1ffu64) == ((w >> 30u64) & 0x1ffu64),
            ((u >> 21u64) & 0x1ffu64) == ((w >> 21u64) & 0x1ffu64),
            ((u >> 12u64) & 0x1ffu64) == ((w >> 12u64) & 0x1ffu64),
            u < 0x1_0000_0000_0000u64,
            w < 0x1_0000_0000_0000u64,
    ;
}

} // verus!
