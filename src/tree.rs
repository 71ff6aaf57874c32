use vstd::prelude::*;

use crate::classify::{is_system_dir, is_system_path};

verus! {

/// What a filesystem object turned out to be when it was read.
#[derive(PartialEq, Eq, Structural, Clone, Copy, Debug)]
pub enum NodeKind {
    /// A regular file.
    File,
    /// A directory; its children are listed in the node.
    Dir,
    /// Anything else that has a length of its own: a symbolic link, a device, a pipe.
    Other,
    /// An object whose metadata could not be read.
    Unreadable,
}

/// One filesystem object of a scanned tree.
pub struct FsNode {
    /// The object's full path.
    pub path: String,
    /// The last component of the path.
    pub name: String,
    pub kind: NodeKind,
    /// The length its metadata reports, in bytes.
    pub len: u64,
    /// Indices of the objects listed in this directory, in listing order.
    pub children: Vec<usize>,
}

/// A snapshot of a directory tree, held as an arena: node 0 is the scanned
/// directory, and every child index is larger than its parent's.
pub struct FsTree {
    pub nodes: Vec<FsNode>,
}

/// One line of a report: an object, its size, and whether it is a directory.
#[derive(Debug)]
pub struct SizeEntry {
    /// A path, or a bare name in a listing of one directory.
    pub path: String,
    pub size: u64,
    pub is_dir: bool,
}

/// `a + b`, held at `u64::MAX`.
pub open spec fn sat_add(a: int, b: int) -> int {
    if a + b > u64::MAX {
        u64::MAX as int
    } else {
        a + b
    }
}

/// The arena is a forest ordered by index: children come after their parent.
pub open spec fn nodes_wf(nodes: Seq<FsNode>) -> bool {
    forall|i: int, k: int|
        0 <= i < nodes.len() && 0 <= k < nodes[i].children@.len() ==> i < #[trigger] nodes[i].children@[k]
            < nodes.len()
}

/// Whether node `i` lies in an excluded pseudo-filesystem root.
pub open spec fn excluded(nodes: Seq<FsNode>, i: int) -> bool {
    is_system_path(nodes[i].path@)
}

/// The bytes of the regular files under node `i` (the node itself, if it is a
/// file), leaving out excluded subtrees; held at `u64::MAX`.
pub open spec fn file_bytes(nodes: Seq<FsNode>, i: int) -> int
    decreases nodes.len() - i, nodes[i].children@.len() + 1,
{
    if i < 0 || i >= nodes.len() || excluded(nodes, i) {
        0
    } else {
        match nodes[i].kind {
            NodeKind::File => nodes[i].len as int,
            NodeKind::Dir => children_file_bytes(nodes, i, nodes[i].children@.len() as int),
            _ => 0,
        }
    }
}

/// `file_bytes` summed over the first `k` children of node `i`.
pub open spec fn children_file_bytes(nodes: Seq<FsNode>, i: int, k: int) -> int
    decreases nodes.len() - i, k,
{
    if i < 0 || i >= nodes.len() || k <= 0 || k > nodes[i].children@.len() {
        0
    } else {
        let c = nodes[i].children@[k - 1] as int;
        let rest = children_file_bytes(nodes, i, k - 1);
        if i < c < nodes.len() {
            sat_add(rest, file_bytes(nodes, c))
        } else {
            rest
        }
    }
}

/// Whether child `c` takes part in a detailed scan: it was read and is not excluded.
pub open spec fn listed(nodes: Seq<FsNode>, c: int) -> bool {
    nodes[c].kind != NodeKind::Unreadable && !excluded(nodes, c)
}

/// The size a detailed scan gives node `i`: its own length for a file or another
/// object, the sum over its listed children for a directory; held at `u64::MAX`.
pub open spec fn detail_size(nodes: Seq<FsNode>, i: int) -> int
    decreases nodes.len() - i, nodes[i].children@.len() + 1,
{
    if i < 0 || i >= nodes.len() {
        0
    } else if nodes[i].kind == NodeKind::Dir {
        if excluded(nodes, i) {
            0
        } else {
            children_detail_size(nodes, i, nodes[i].children@.len() as int)
        }
    } else {
        nodes[i].len as int
    }
}

/// `detail_size` summed over the listed ones of the first `k` children of node `i`.
pub open spec fn children_detail_size(nodes: Seq<FsNode>, i: int, k: int) -> int
    decreases nodes.len() - i, k,
{
    if i < 0 || i >= nodes.len() || k <= 0 || k > nodes[i].children@.len() {
        0
    } else {
        let c = nodes[i].children@[k - 1] as int;
        let rest = children_detail_size(nodes, i, k - 1);
        if i < c < nodes.len() && listed(nodes, c) {
            sat_add(rest, detail_size(nodes, c))
        } else {
            rest
        }
    }
}

/// A report line in the abstract: path, size, and whether it is a directory.
pub open spec fn entry_of(nodes: Seq<FsNode>, c: int) -> (Seq<char>, int, bool) {
    (nodes[c].path@, detail_size(nodes, c), nodes[c].kind == NodeKind::Dir)
}

/// The lines a detailed scan of directory `i` emits, depth first: for each listed
/// child in listing order, first the lines of its own subtree if it is a
/// directory, then its own line.
pub open spec fn detail_lines(nodes: Seq<FsNode>, i: int) -> Seq<(Seq<char>, int, bool)>
    decreases nodes.len() - i, nodes[i].children@.len() + 1,
{
    if i < 0 || i >= nodes.len() || nodes[i].kind != NodeKind::Dir || excluded(nodes, i) {
        Seq::empty()
    } else {
        children_lines(nodes, i, nodes[i].children@.len() as int)
    }
}

/// The lines emitted for the first `k` children of node `i`.
pub open spec fn children_lines(nodes: Seq<FsNode>, i: int, k: int) -> Seq<(Seq<char>, int, bool)>
    decreases nodes.len() - i, k,
{
    if i < 0 || i >= nodes.len() || k <= 0 || k > nodes[i].children@.len() {
        Seq::empty()
    } else {
        let c = nodes[i].children@[k - 1] as int;
        let rest = children_lines(nodes, i, k - 1);
        if i < c < nodes.len() && listed(nodes, c) {
            rest + detail_lines(nodes, c).push(entry_of(nodes, c))
        } else {
            rest
        }
    }
}

/// The abstract form of a report line.
pub open spec fn entry_view(e: SizeEntry) -> (Seq<char>, int, bool) {
    (e.path@, e.size as int, e.is_dir)
}

/// The abstract form of a list of report lines.
pub open spec fn entries_view(es: Seq<SizeEntry>) -> Seq<(Seq<char>, int, bool)> {
    es.map_values(|e: SizeEntry| entry_view(e))
}

impl FsTree {
    /// The tree has a scanned directory, and every child index points past its
    /// parent and inside the arena, so no walk can loop.
    pub open spec fn wf(&self) -> bool {
        self.nodes@.len() > 0 && nodes_wf(self.nodes@)
    }
}

/// The number of visits a walk from node `i` makes: one for the node, and for a
/// directory that is not excluded, those of its children.
pub open spec fn walk_count(nodes: Seq<FsNode>, i: int) -> nat
    decreases nodes.len() - i, nodes[i].children@.len() + 1,
{
    if i < 0 || i >= nodes.len() {
        1
    } else if nodes[i].kind == NodeKind::Dir && !excluded(nodes, i) {
        1 + children_walk_count(nodes, i, nodes[i].children@.len() as int)
    } else {
        1
    }
}

/// `walk_count` summed over the first `k` children of node `i`.
pub open spec fn children_walk_count(nodes: Seq<FsNode>, i: int, k: int) -> nat
    decreases nodes.len() - i, k,
{
    if i < 0 || i >= nodes.len() || k <= 0 || k > nodes[i].children@.len() {
        0
    } else {
        let c = nodes[i].children@[k - 1] as int;
        let rest = children_walk_count(nodes, i, k - 1);
        if i < c < nodes.len() {
            rest + walk_count(nodes, c)
        } else {
            rest
        }
    }
}

/// The exact bytes of the regular files below the nodes still to visit.
pub open spec fn pending_bytes(nodes: Seq<FsNode>, st: Seq<usize>) -> nat
    decreases st.len(),
{
    if st.len() == 0 {
        0
    } else {
        pending_bytes(nodes, st.drop_last()) + sum_of(file_lengths(nodes, st.last() as int))
    }
}

/// The visits still owed to the nodes still to visit.
pub open spec fn pending_visits(nodes: Seq<FsNode>, st: Seq<usize>) -> nat
    decreases st.len(),
{
    if st.len() == 0 {
        0
    } else {
        pending_visits(nodes, st.drop_last()) + walk_count(nodes, st.last() as int)
    }
}

/// The bytes of the regular files under node `i`, excluded subtrees left out.
/// The walk keeps its own stack of directories still to visit, so its depth is
/// not bounded by the call stack.
pub fn get_dir_size(tree: &FsTree, i: usize) -> (r: u64)
    requires
        tree.wf(),
        i < tree.nodes@.len(),
    ensures
        r == file_bytes(tree.nodes@, i as int),
{
    let ghost nodes = tree.nodes@;
    let mut stack: Vec<usize> = Vec::new();
    stack.push(i);
    let mut total: u64 = 0;
    let ghost mut done: nat = 0;
    proof {
        assert(stack@.drop_last() =~= Seq::<usize>::empty());
        assert(pending_bytes(nodes, stack@) == pending_bytes(nodes, Seq::<usize>::empty()) + sum_of(
            file_lengths(nodes, i as int),
        ));
    }
    while stack.len() > 0
        invariant
            tree.wf(),
            nodes == tree.nodes@,
            i < nodes.len(),
            forall|t: int| 0 <= t < stack@.len() ==> #[trigger] stack@[t] < nodes.len(),
            total == cap(done),
            done + pending_bytes(nodes, stack@) == sum_of(file_lengths(nodes, i as int)),
        decreases pending_visits(nodes, stack@),
    {
        let ghost before = stack@;
        let j = stack.pop().unwrap();
        proof {
            assert(stack@ == before.drop_last());
        }
        let node = &tree.nodes[j];
        if is_system_dir(node.path.as_str()) {
        } else {
            match node.kind {
                NodeKind::File => {
                    proof {
                        let one = seq![node.len as nat];
                        assert(one.drop_last() =~= Seq::<nat>::empty());
                        assert(sum_of(one) == sum_of(one.drop_last()) + one.last());
                        done = done + node.len as nat;
                    }
                    total = total.saturating_add(node.len);
                },
                NodeKind::Dir => {
                    let ghost base = stack@;
                    let mut k: usize = 0;
                    while k < node.children.len()
                        invariant
                            tree.wf(),
                            nodes == tree.nodes@,
                            j < nodes.len(),
                            node == nodes[j as int],
                            k <= node.children@.len(),
                            forall|t: int| 0 <= t < stack@.len() ==> #[trigger] stack@[t] < nodes.len(),
                            pending_bytes(nodes, stack@) == pending_bytes(nodes, base) + sum_of(
                                children_file_lengths(nodes, j as int, k as int),
                            ),
                            pending_visits(nodes, stack@) == pending_visits(nodes, base)
                                + children_walk_count(nodes, j as int, k as int),
                        decreases node.children@.len() - k,
                    {
                        let c = node.children[k];
                        assert(j < c < nodes.len());
                        let ghost prev = stack@;
                        stack.push(c);
                        proof {
                            assert(stack@.drop_last() =~= prev);
                            lemma_sum_concat(
                                children_file_lengths(nodes, j as int, k as int),
                                file_lengths(nodes, c as int),
                            );
                        }
                        k = k + 1;
                    }
                },
                _ => {},
            }
        }
    }
    proof {
        lemma_shallow_size_sums_files(nodes, i as int);
    }
    total
}

/// The bytes of the regular files under the scanned directory, excluded
/// subtrees left out.
pub fn shallow_size(tree: &FsTree) -> (r: u64)
    requires
        tree.wf(),
    ensures
        r == file_bytes(tree.nodes@, 0),
{
    get_dir_size(tree, 0)
}

/// Walks directory `i` depth first, appending one line per listed object below
/// it, and returns the sum of the sizes of its listed children.
pub fn collect_recursive(tree: &FsTree, i: usize, list: &mut Vec<SizeEntry>) -> (r: u64)
    requires
        tree.wf(),
        i < tree.nodes@.len(),
    ensures
        tree.nodes@[i as int].kind == NodeKind::Dir ==> r == detail_size(tree.nodes@, i as int),
        tree.nodes@[i as int].kind == NodeKind::Dir ==> entries_view(final(list)@) == entries_view(
            old(list)@,
        ) + detail_lines(tree.nodes@, i as int),
        tree.nodes@[i as int].kind != NodeKind::Dir ==> r == 0 && final(list)@ == old(list)@,
    decreases tree.nodes@.len() - i,
{
    let node = &tree.nodes[i];
    if node.kind != NodeKind::Dir || is_system_dir(node.path.as_str()) {
        return 0;
    }
    let ghost start = list@;
    let mut total: u64 = 0;
    let mut k: usize = 0;
    while k < node.children.len()
        invariant
            tree.wf(),
            i < tree.nodes@.len(),
            node == tree.nodes@[i as int],
            node.kind == NodeKind::Dir,
            !excluded(tree.nodes@, i as int),
            k <= node.children@.len(),
            total == children_detail_size(tree.nodes@, i as int, k as int),
            entries_view(list@) == entries_view(start) + children_lines(
                tree.nodes@,
                i as int,
                k as int,
            ),
        decreases node.children@.len() - k,
    {
        let c = node.children[k];
        assert(i < c < tree.nodes@.len());
        let child = &tree.nodes[c];
        if child.kind != NodeKind::Unreadable && !is_system_dir(child.path.as_str()) {
            let ghost before = list@;
            let size = if child.kind == NodeKind::Dir {
                collect_recursive(tree, c, list)
            } else {
                child.len
            };
            total = total.saturating_add(size);
            let ghost mid = list@;
            list.push(
                SizeEntry { path: child.path.clone(), size, is_dir: child.kind == NodeKind::Dir },
            );
            proof {
                let nodes = tree.nodes@;
                let l = list@;
                assert(entry_view(l.last()) == entry_of(nodes, c as int));
                assert(l.drop_last() =~= mid);
                assert(entries_view(l.drop_last()) == entries_view(before) + detail_lines(
                    nodes,
                    c as int,
                ));
                assert(children_lines(nodes, i as int, k + 1) == children_lines(nodes, i as int, k as int)
                    + detail_lines(nodes, c as int).push(entry_of(nodes, c as int)));
                assert(entries_view(l) =~= entries_view(l.drop_last()).push(entry_view(l.last())));
                assert(entries_view(list@) =~= entries_view(start) + children_lines(
                    nodes,
                    i as int,
                    k + 1,
                ));
            }
        }
        k = k + 1;
    }
    total
}

/// A detailed scan of the tree: every listed object below the scanned directory
/// with its own size, depth first, and the sum of the sizes of the directory's
/// direct children.
pub fn detailed_scan(tree: &FsTree) -> (r: (u64, Vec<SizeEntry>))
    requires
        tree.wf(),
    ensures
        tree.nodes@[0].kind == NodeKind::Dir ==> r.0 == detail_size(tree.nodes@, 0),
        tree.nodes@[0].kind != NodeKind::Dir ==> r.0 == 0,
        entries_view(r.1@) == detail_lines(tree.nodes@, 0),
{
    let mut list: Vec<SizeEntry> = Vec::new();
    let total = collect_recursive(tree, 0, &mut list);
    proof {
        assert(entries_view(Seq::<SizeEntry>::empty()) =~= Seq::empty());
        assert(entries_view(list@) =~= detail_lines(tree.nodes@, 0));
    }
    (total, list)
}

/// The size a listing of one directory shows for node `c`: the bytes of the
/// regular files below a directory, the length of anything else.
pub open spec fn listing_size(nodes: Seq<FsNode>, c: int) -> int {
    if nodes[c].kind == NodeKind::Dir {
        file_bytes(nodes, c)
    } else {
        nodes[c].len as int
    }
}

/// The abstract lines of a listing of the first `k` children of node `i`: every
/// child that could be read, by name, in listing order.
pub open spec fn listing_lines(nodes: Seq<FsNode>, i: int, k: int) -> Seq<(Seq<char>, int, bool)>
    decreases k,
{
    if k <= 0 || i < 0 || i >= nodes.len() || k > nodes[i].children@.len() {
        Seq::empty()
    } else {
        let c = nodes[i].children@[k - 1] as int;
        let rest = listing_lines(nodes, i, k - 1);
        if i < c < nodes.len() && nodes[c].kind != NodeKind::Unreadable {
            rest.push((nodes[c].name@, listing_size(nodes, c), nodes[c].kind == NodeKind::Dir))
        } else {
            rest
        }
    }
}

/// A listing of the scanned directory: one line per child that could be read,
/// by name, with the bytes of the regular files below it for a directory and its
/// own length otherwise.
pub fn list_top_level(tree: &FsTree) -> (r: Vec<SizeEntry>)
    requires
        tree.wf(),
    ensures
        entries_view(r@) == listing_lines(tree.nodes@, 0, tree.nodes@[0].children@.len() as int),
{
    let root = &tree.nodes[0];
    let mut out: Vec<SizeEntry> = Vec::new();
    let mut k: usize = 0;
    proof {
        assert(entries_view(out@) =~= Seq::empty());
    }
    while k < root.children.len()
        invariant
            tree.wf(),
            root == tree.nodes@[0],
            k <= root.children@.len(),
            entries_view(out@) == listing_lines(tree.nodes@, 0, k as int),
        decreases root.children@.len() - k,
    {
        let c = root.children[k];
        assert(0 < c < tree.nodes@.len());
        let child = &tree.nodes[c];
        if child.kind != NodeKind::Unreadable {
            let size = if child.kind == NodeKind::Dir {
                get_dir_size(tree, c)
            } else {
                child.len
            };
            let ghost before = out@;
            out.push(SizeEntry { path: child.name.clone(), size, is_dir: child.kind == NodeKind::Dir });
            proof {
                assert(out@.drop_last() =~= before);
                assert(entries_view(out@) =~= entries_view(before).push(entry_view(out@.last())));
            }
        }
        k = k + 1;
    }
    out
}

/// The lines of the direct children of node `i` among the first `k`, in order:
/// the subset of `children_lines` that a detailed scan emits for the children
/// themselves.
pub open spec fn direct_lines(nodes: Seq<FsNode>, i: int, k: int) -> Seq<(Seq<char>, int, bool)>
    decreases k,
{
    if i < 0 || i >= nodes.len() || k <= 0 || k > nodes[i].children@.len() {
        Seq::empty()
    } else {
        let c = nodes[i].children@[k - 1] as int;
        let rest = direct_lines(nodes, i, k - 1);
        if i < c < nodes.len() && listed(nodes, c) {
            rest.push(entry_of(nodes, c))
        } else {
            rest
        }
    }
}

/// The sizes of some lines summed, held at `u64::MAX`.
pub open spec fn sat_sum(s: Seq<(Seq<char>, int, bool)>) -> int
    decreases s.len(),
{
    if s.len() == 0 {
        0
    } else {
        sat_add(sat_sum(s.drop_last()), s.last().1)
    }
}

proof fn lemma_direct_prefix(nodes: Seq<FsNode>, i: int, k: int)
    requires
        0 <= i < nodes.len(),
        0 <= k <= nodes[i].children@.len(),
    ensures
        children_detail_size(nodes, i, k) == sat_sum(direct_lines(nodes, i, k)),
        forall|j: int|
            0 <= j < direct_lines(nodes, i, k).len() ==> children_lines(nodes, i, k).contains(
                #[trigger] direct_lines(nodes, i, k)[j],
            ),
    decreases k,
{
    if k > 0 {
        lemma_direct_prefix(nodes, i, k - 1);
        let c = nodes[i].children@[k - 1] as int;
        if i < c < nodes.len() && listed(nodes, c) {
            let rest = children_lines(nodes, i, k - 1);
            let tail = detail_lines(nodes, c).push(entry_of(nodes, c));
            let d = direct_lines(nodes, i, k);
            assert(d.drop_last() == direct_lines(nodes, i, k - 1));
            assert forall|j: int| 0 <= j < d.len() implies children_lines(nodes, i, k).contains(
                #[trigger] d[j],
            ) by {
                let all = rest + tail;
                if j < d.len() - 1 {
                    let t = choose|t: int| 0 <= t < rest.len() && rest[t] == d[j];
                    assert(all[t] == d[j]);
                } else {
                    assert(all[all.len() - 1] == d[j]);
                }
            }
        }
    }
}

/// The total of a detailed scan of directory `i` is the sum of the sizes of
/// its direct children's lines, each of which appears among the scan's lines;
/// the lines of deeper objects are not counted again.
pub proof fn lemma_detailed_total(nodes: Seq<FsNode>, i: int)
    requires
        0 <= i < nodes.len(),
        nodes[i].kind == NodeKind::Dir,
        !excluded(nodes, i),
    ensures
        detail_size(nodes, i) == sat_sum(direct_lines(nodes, i, nodes[i].children@.len() as int)),
        forall|j: int|
            0 <= j < direct_lines(nodes, i, nodes[i].children@.len() as int).len()
                ==> detail_lines(nodes, i).contains(
                #[trigger] direct_lines(nodes, i, nodes[i].children@.len() as int)[j],
            ),
{
    lemma_direct_prefix(nodes, i, nodes[i].children@.len() as int);
}

/// Node `c` of `b` differs from that of `a` at most in what lies behind its
/// path: kind, length, name and children; every other node is the same.
pub open spec fn differs_only_at(a: Seq<FsNode>, b: Seq<FsNode>, c: int) -> bool {
    &&& a.len() == b.len()
    &&& 0 <= c < a.len()
    &&& a[c].path@ == b[c].path@
    &&& forall|j: int| 0 <= j < a.len() && j != c ==> #[trigger] b[j] == a[j]
}

proof fn lemma_excluded_invariant(a: Seq<FsNode>, b: Seq<FsNode>, c: int, i: int, k: int)
    requires
        differs_only_at(a, b, c),
        excluded(a, c),
        0 <= i < a.len(),
    ensures
        k == a[i].children@.len() + 1 ==> file_bytes(a, i) == file_bytes(b, i),
        k <= a[i].children@.len() && i != c ==> children_file_bytes(a, i, k)
            == children_file_bytes(b, i, k),
    decreases a.len() - i, k,
{
    if i == c {
    } else if k == a[i].children@.len() + 1 {
        if !excluded(a, i) && a[i].kind == NodeKind::Dir {
            lemma_excluded_invariant(a, b, c, i, k - 1);
        }
    } else if 0 < k <= a[i].children@.len() {
        lemma_excluded_invariant(a, b, c, i, k - 1);
        let ch = a[i].children@[k - 1] as int;
        if i < ch < a.len() {
            lemma_excluded_invariant(a, b, c, ch, a[ch].children@.len() as int + 1);
        }
    }
}

/// An excluded pseudo-filesystem contributes nothing to the size of any
/// directory: whatever the kind, length or contents recorded for it, every
/// directory's file bytes stay the same.
pub proof fn lemma_excluded_ignored(a: Seq<FsNode>, b: Seq<FsNode>, c: int, d: int)
    requires
        differs_only_at(a, b, c),
        excluded(a, c),
        0 <= d < a.len(),
    ensures
        file_bytes(a, c) == 0,
        file_bytes(a, d) == file_bytes(b, d),
{
    lemma_excluded_invariant(a, b, c, d, a[d].children@.len() as int + 1);
}

/// The lengths of the regular files met by a depth-first walk from node `i`,
/// in the order met, without entering excluded subtrees.
pub open spec fn file_lengths(nodes: Seq<FsNode>, i: int) -> Seq<nat>
    decreases nodes.len() - i, nodes[i].children@.len() + 1,
{
    if i < 0 || i >= nodes.len() || excluded(nodes, i) {
        Seq::empty()
    } else {
        match nodes[i].kind {
            NodeKind::File => seq![nodes[i].len as nat],
            NodeKind::Dir => children_file_lengths(nodes, i, nodes[i].children@.len() as int),
            _ => Seq::empty(),
        }
    }
}

/// `file_lengths` of the first `k` children of node `i`, one after another.
pub open spec fn children_file_lengths(nodes: Seq<FsNode>, i: int, k: int) -> Seq<nat>
    decreases nodes.len() - i, k,
{
    if i < 0 || i >= nodes.len() || k <= 0 || k > nodes[i].children@.len() {
        Seq::empty()
    } else {
        let c = nodes[i].children@[k - 1] as int;
        let rest = children_file_lengths(nodes, i, k - 1);
        if i < c < nodes.len() {
            rest + file_lengths(nodes, c)
        } else {
            rest
        }
    }
}

/// The exact sum of some lengths.
pub open spec fn sum_of(s: Seq<nat>) -> nat
    decreases s.len(),
{
    if s.len() == 0 {
        0
    } else {
        sum_of(s.drop_last()) + s.last()
    }
}

/// `x` held at `u64::MAX`.
pub open spec fn cap(x: nat) -> int {
    if x > u64::MAX {
        u64::MAX as int
    } else {
        x as int
    }
}

proof fn lemma_sum_concat(a: Seq<nat>, b: Seq<nat>)
    ensures
        sum_of(a + b) == sum_of(a) + sum_of(b),
    decreases b.len(),
{
    if b.len() > 0 {
        lemma_sum_concat(a, b.drop_last());
        assert((a + b).drop_last() =~= a + b.drop_last());
    }
}

proof fn lemma_file_bytes_sum(nodes: Seq<FsNode>, i: int, k: int)
    requires
        0 <= i < nodes.len(),
    ensures
        k == nodes[i].children@.len() + 1 ==> file_bytes(nodes, i) == cap(
            sum_of(file_lengths(nodes, i)),
        ),
        k <= nodes[i].children@.len() ==> children_file_bytes(nodes, i, k) == cap(
            sum_of(children_file_lengths(nodes, i, k)),
        ),
    decreases nodes.len() - i, k,
{
    if k == nodes[i].children@.len() + 1 {
        if !excluded(nodes, i) {
            if nodes[i].kind == NodeKind::Dir {
                lemma_file_bytes_sum(nodes, i, k - 1);
            } else if nodes[i].kind == NodeKind::File {
                let one = seq![nodes[i].len as nat];
                assert(one.drop_last() =~= Seq::<nat>::empty());
                assert(sum_of(one) == sum_of(one.drop_last()) + one.last());
            }
        }
    } else if 0 < k <= nodes[i].children@.len() {
        lemma_file_bytes_sum(nodes, i, k - 1);
        let c = nodes[i].children@[k - 1] as int;
        if i < c < nodes.len() {
            lemma_file_bytes_sum(nodes, c, nodes[c].children@.len() as int + 1);
            let r = children_file_lengths(nodes, i, k - 1);
            let f = file_lengths(nodes, c);
            lemma_sum_concat(r, f);
        }
    }
}

/// The size of a directory is the sum of the lengths of the regular files that
/// an exhaustive depth-first enumeration meets below it (held at `u64::MAX`);
/// excluded subtrees are not entered, so without them every regular file is met.
pub proof fn lemma_shallow_size_sums_files(nodes: Seq<FsNode>, i: int)
    requires
        0 <= i < nodes.len(),
    ensures
        file_bytes(nodes, i) == cap(sum_of(file_lengths(nodes, i))),
{
    lemma_file_bytes_sum(nodes, i, nodes[i].children@.len() as int + 1);
}

} // verus!
