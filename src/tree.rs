//! The directory tree behind the terminal view: built from a flat file list, each
//! directory carrying the total size of the files below it.
use vstd::prelude::*;
use vstd::multiset::Multiset;
use crate::engine::{sum_sizes, FileEntry};
use crate::paths::{file_name, file_name_of, is_within, parent, parent_of, within};

verus! {

/// Kind of a tree node.
#[derive(Debug, Clone, Copy, PartialEq, Eq, Structural)]
pub enum NodeType {
    File,
    Directory,
}

/// A node of the directory tree.
#[derive(Debug)]
pub struct DirNode {
    /// last component of the path
    pub name: String,
    pub full_path: String,
    pub node_type: NodeType,
    /// a file's size; for a directory, the total size of the files below it
    pub size: u64,
    /// children, largest first
    pub children: Vec<DirNode>,
}

/// The total size of the files in the subtree of `n`.
pub open spec fn file_total(n: DirNode) -> nat
    decreases n,
{
    if n.node_type == NodeType::File {
        n.size as nat
    } else {
        files_total(n.children@)
    }
}

/// The total size of the files in the subtrees of `s`.
pub open spec fn files_total(s: Seq<DirNode>) -> nat
    decreases s,
{
    if s.len() == 0 {
        0
    } else {
        files_total(s.drop_last()) + file_total(s.last())
    }
}

/// The number of nodes in the subtree of `n`.
pub open spec fn node_count(n: DirNode) -> nat
    decreases n,
{
    1 + nodes_count(n.children@)
}

pub open spec fn nodes_count(s: Seq<DirNode>) -> nat
    decreases s,
{
    if s.len() == 0 {
        0
    } else {
        nodes_count(s.drop_last()) + node_count(s.last())
    }
}

/// Every directory's size is the total size of the files below it, and files have no
/// children.
pub open spec fn aggregated(n: DirNode) -> bool
    decreases n,
{
    if n.node_type == NodeType::File {
        n.children@.len() == 0
    } else {
        n.size == files_total(n.children@) && all_aggregated(n.children@)
    }
}

pub open spec fn all_aggregated(s: Seq<DirNode>) -> bool
    decreases s,
{
    s.len() == 0 || (all_aggregated(s.drop_last()) && aggregated(s.last()))
}

/// Sizes do not grow along `s`.
pub open spec fn sorted_by_size(s: Seq<DirNode>) -> bool {
    forall|a: int, b: int| 0 <= a < b < s.len() ==> s[a].size >= s[b].size
}

/// Children are ordered largest first at every level.
pub open spec fn tree_sorted(n: DirNode) -> bool
    decreases n,
{
    sorted_by_size(n.children@) && all_sorted(n.children@)
}

pub open spec fn all_sorted(s: Seq<DirNode>) -> bool
    decreases s,
{
    s.len() == 0 || (all_sorted(s.drop_last()) && tree_sorted(s.last()))
}

/// Files have no children, anywhere in the subtree.
pub open spec fn files_are_leaves(n: DirNode) -> bool
    decreases n,
{
    if n.node_type == NodeType::File {
        n.children@.len() == 0
    } else {
        all_leafy(n.children@)
    }
}

pub open spec fn all_leafy(s: Seq<DirNode>) -> bool
    decreases s,
{
    s.len() == 0 || (all_leafy(s.drop_last()) && files_are_leaves(s.last()))
}

proof fn lemma_all_leafy(s: Seq<DirNode>)
    ensures
        all_leafy(s) <==> forall|i: int| 0 <= i < s.len() ==> #[trigger] files_are_leaves(s[i]),
    decreases s.len(),
{
    if s.len() > 0 {
        lemma_all_leafy(s.drop_last());
        if forall|i: int| 0 <= i < s.len() ==> #[trigger] files_are_leaves(s[i]) {
            assert forall|i: int| 0 <= i < s.drop_last().len() implies #[trigger] files_are_leaves(s.drop_last()[i]) by {
                assert(s.drop_last()[i] == s[i]);
            }
            assert(files_are_leaves(s[s.len() - 1]));
        }
        if all_leafy(s) {
            assert forall|i: int| 0 <= i < s.len() implies #[trigger] files_are_leaves(s[i]) by {
                if i < s.len() - 1 {
                    assert(s.drop_last()[i] == s[i]);
                }
            }
        }
    }
}

proof fn lemma_all_aggregated(s: Seq<DirNode>)
    ensures
        all_aggregated(s) <==> forall|i: int| 0 <= i < s.len() ==> #[trigger] aggregated(s[i]),
    decreases s.len(),
{
    if s.len() > 0 {
        lemma_all_aggregated(s.drop_last());
        if forall|i: int| 0 <= i < s.len() ==> #[trigger] aggregated(s[i]) {
            assert forall|i: int| 0 <= i < s.drop_last().len() implies #[trigger] aggregated(s.drop_last()[i]) by {
                assert(s.drop_last()[i] == s[i]);
            }
            assert(aggregated(s[s.len() - 1]));
        }
        if all_aggregated(s) {
            assert forall|i: int| 0 <= i < s.len() implies #[trigger] aggregated(s[i]) by {
                if i < s.len() - 1 {
                    assert(s.drop_last()[i] == s[i]);
                }
            }
        }
    }
}

proof fn lemma_all_sorted(s: Seq<DirNode>)
    ensures
        all_sorted(s) <==> forall|i: int| 0 <= i < s.len() ==> #[trigger] tree_sorted(s[i]),
    decreases s.len(),
{
    if s.len() > 0 {
        lemma_all_sorted(s.drop_last());
        if forall|i: int| 0 <= i < s.len() ==> #[trigger] tree_sorted(s[i]) {
            assert forall|i: int| 0 <= i < s.drop_last().len() implies #[trigger] tree_sorted(s.drop_last()[i]) by {
                assert(s.drop_last()[i] == s[i]);
            }
            assert(tree_sorted(s[s.len() - 1]));
        }
        if all_sorted(s) {
            assert forall|i: int| 0 <= i < s.len() implies #[trigger] tree_sorted(s[i]) by {
                if i < s.len() - 1 {
                    assert(s.drop_last()[i] == s[i]);
                }
            }
        }
    }
}

proof fn lemma_child_count(s: Seq<DirNode>, i: int)
    requires
        0 <= i < s.len(),
    ensures
        node_count(s[i]) <= nodes_count(s),
    decreases s.len(),
{
    if i < s.len() - 1 {
        lemma_child_count(s.drop_last(), i);
        assert(s.drop_last()[i] == s[i]);
    }
}

/// The first node, in pre-order, whose path is `t`.
pub open spec fn find_in(n: DirNode, t: Seq<char>) -> Option<DirNode>
    decreases n,
{
    if n.full_path@ == t {
        Some(n)
    } else if n.node_type == NodeType::File {
        None
    } else {
        find_among(n.children@, t)
    }
}

pub open spec fn find_among(s: Seq<DirNode>, t: Seq<char>) -> Option<DirNode>
    decreases s,
{
    if s.len() == 0 {
        None
    } else {
        match find_in(s[0], t) {
            Some(x) => Some(x),
            None => find_among(s.drop_first(), t),
        }
    }
}

proof fn lemma_aggregated_child(n: DirNode, i: int)
    requires
        aggregated(n),
        0 <= i < n.children@.len(),
    ensures
        aggregated(n.children@[i]),
        n.node_type == NodeType::Directory,
{
    lemma_all_aggregated(n.children@);
}

/// `after` lists the elements of `before` so that elements of equal size keep their
/// relative order.
pub open spec fn stable_order(before: Seq<DirNode>, after: Seq<DirNode>) -> bool {
    exists|idx: Seq<int>| order_witness(before, after, idx)
}

/// `idx` maps each position of `after` to a distinct position of `before` holding the
/// same element, increasing among elements of equal size.
pub open spec fn order_witness(before: Seq<DirNode>, after: Seq<DirNode>, idx: Seq<int>) -> bool {
    idx.len() == after.len()
        && (forall|i: int| 0 <= i < after.len() ==> 0 <= #[trigger] idx[i] < before.len() && after[i] == before[idx[i]])
        && (forall|a: int, b: int| 0 <= a < b < after.len() && after[a].size == after[b].size ==> idx[a] < idx[b])
        && (forall|a: int, b: int| 0 <= a < b < after.len() ==> idx[a] != idx[b])
}

/// `x` and `y` are directories with the same path.
pub open spec fn same_dir(x: DirNode, y: DirNode) -> bool {
    x.node_type == NodeType::Directory && y.node_type == NodeType::Directory && x.full_path@ == y.full_path@
}

/// No two directories of `s` have the same path.
pub open spec fn distinct_dirs(s: Seq<DirNode>) -> bool {
    forall|a: int, b: int| 0 <= a < b < s.len() ==> !same_dir(#[trigger] s[a], #[trigger] s[b])
}

/// At every level, no directory has two directory children with the same path.
pub open spec fn dirs_unique(n: DirNode) -> bool
    decreases n,
{
    distinct_dirs(n.children@) && all_unique(n.children@)
}

pub open spec fn all_unique(s: Seq<DirNode>) -> bool
    decreases s,
{
    s.len() == 0 || (all_unique(s.drop_last()) && dirs_unique(s.last()))
}

proof fn lemma_all_unique(s: Seq<DirNode>)
    ensures
        all_unique(s) <==> forall|i: int| 0 <= i < s.len() ==> #[trigger] dirs_unique(s[i]),
    decreases s.len(),
{
    if s.len() > 0 {
        lemma_all_unique(s.drop_last());
        if forall|i: int| 0 <= i < s.len() ==> #[trigger] dirs_unique(s[i]) {
            assert forall|i: int| 0 <= i < s.drop_last().len() implies #[trigger] dirs_unique(s.drop_last()[i]) by {
                assert(s.drop_last()[i] == s[i]);
            }
            assert(dirs_unique(s[s.len() - 1]));
        }
        if all_unique(s) {
            assert forall|i: int| 0 <= i < s.len() implies #[trigger] dirs_unique(s[i]) by {
                if i < s.len() - 1 {
                    assert(s.drop_last()[i] == s[i]);
                }
            }
        }
    }
}

proof fn lemma_unique_leaf(n: DirNode)
    requires
        n.children@.len() == 0,
    ensures
        dirs_unique(n),
{
    lemma_all_unique(n.children@);
}

proof fn lemma_empty_multiset(s: Seq<DirNode>)
    requires
        s.len() == 0,
    ensures
        s.to_multiset() =~= Multiset::<DirNode>::empty(),
{
    broadcast use vstd::seq_lib::to_multiset_contains;
    assert forall|a: DirNode| s.to_multiset().count(a) == 0 by {
        if s.to_multiset().count(a) > 0 {
            assert(s.contains(a));
        }
    }
}

proof fn lemma_files_total_insert(s: Seq<DirNode>, p: int, x: DirNode)
    requires
        0 <= p <= s.len(),
    ensures
        files_total(s.insert(p, x)) == files_total(s) + file_total(x),
    decreases s.len(),
{
    if p == s.len() {
        assert(s.insert(p, x).drop_last() =~= s);
    } else {
        lemma_files_total_insert(s.drop_last(), p, x);
        assert(s.insert(p, x).drop_last() =~= s.drop_last().insert(p, x));
    }
}

proof fn lemma_files_total_remove(s: Seq<DirNode>, p: int)
    requires
        0 <= p < s.len(),
    ensures
        files_total(s) == files_total(s.remove(p)) + file_total(s[p]),
{
    lemma_files_total_insert(s.remove(p), p, s[p]);
    assert(s.remove(p).insert(p, s[p]) =~= s);
}

impl DirNode {
    /// A file node for `path` of `size` bytes.
    pub fn new_file(path: String, size: u64) -> (r: DirNode)
        ensures
            r.name@ == file_name(path@),
            r.full_path == path,
            r.node_type == NodeType::File,
            r.size == size,
            r.children@.len() == 0,
    {
        let name = file_name_of(path.as_str());
        DirNode { name, full_path: path, node_type: NodeType::File, size, children: Vec::new() }
    }

    /// An empty directory node for `path`.
    pub fn new_directory(path: String) -> (r: DirNode)
        ensures
            r.name@ == file_name(path@),
            r.full_path == path,
            r.node_type == NodeType::Directory,
            r.size == 0,
            r.children@.len() == 0,
    {
        let name = file_name_of(path.as_str());
        DirNode { name, full_path: path, node_type: NodeType::Directory, size: 0, children: Vec::new() }
    }

    /// Appends `child` and adds its size to this node's size.
    pub fn add_child(&mut self, child: DirNode)
        requires
            old(self).size + child.size <= u64::MAX,
        ensures
            final(self).children@ == old(self).children@.push(child),
            final(self).size == old(self).size + child.size,
            final(self).name == old(self).name,
            final(self).full_path == old(self).full_path,
            final(self).node_type == old(self).node_type,
    {
        self.size = self.size + child.size;
        self.children.push(child);
    }

    /// Detaches the child at `index` and takes its size off this node's size
    /// (saturating at zero); `None`, with nothing changed, when `index` is out of range.
    pub fn remove_child_at(&mut self, index: usize) -> (r: Option<DirNode>)
        ensures
            index >= old(self).children@.len() ==> r is None && *final(self) == *old(self),
            index < old(self).children@.len() ==> {
                let child = old(self).children@[index as int];
                &&& r == Some(child)
                &&& final(self).children@ == old(self).children@.remove(index as int)
                &&& final(self).size == (if old(self).size >= child.size { old(self).size - child.size } else { 0 })
                &&& final(self).name == old(self).name
                &&& final(self).full_path == old(self).full_path
                &&& final(self).node_type == old(self).node_type
            },
    {
        if index >= self.children.len() {
            return None;
        }
        let child = self.children.remove(index);
        self.size = self.size.saturating_sub(child.size);
        Some(child)
    }

    /// Orders the children largest first; children of equal size keep their order.
    #[verifier::rlimit(100)]
    #[verifier::spinoff_prover]
    pub fn sort_children(&mut self)
        ensures
            sorted_by_size(final(self).children@),
            final(self).children@.to_multiset() == old(self).children@.to_multiset(),
            final(self).children@.len() == old(self).children@.len(),
            files_total(final(self).children@) == files_total(old(self).children@),
            forall|i: int| 0 <= i < final(self).children@.len() ==> exists|j: int|
                0 <= j < old(self).children@.len() && #[trigger] final(self).children@[i] == old(self).children@[j],
            stable_order(old(self).children@, final(self).children@),
            final(self).size == old(self).size,
            final(self).name == old(self).name,
            final(self).full_path == old(self).full_path,
            final(self).node_type == old(self).node_type,
    {
        let ghost orig = self.children@;
        let mut kids: Vec<DirNode> = Vec::new();
        std::mem::swap(&mut kids, &mut self.children);
        let mut rev: Vec<DirNode> = Vec::new();
        while kids.len() > 0
            invariant
                kids@ + rev@.reverse() == orig,
            decreases kids.len(),
        {
            let ghost k0 = kids@;
            let ghost r0 = rev@;
            let x = kids.pop().unwrap();
            rev.push(x);
            assert(rev@.reverse() =~= seq![x] + r0.reverse());
            assert(kids@ + rev@.reverse() =~= k0 + r0.reverse());
        }
        assert(rev@.reverse() =~= orig);
        let mut out: Vec<DirNode> = Vec::new();
        proof {
            rev@.lemma_reverse_to_multiset();
            lemma_empty_multiset(out@);
            assert(out@.to_multiset().add(rev@.to_multiset()) =~= orig.to_multiset());
        }
        let ghost n = orig.len();
        let mut idx: Ghost<Seq<int>> = Ghost(Seq::empty());
        while rev.len() > 0
            invariant
                idx@.len() == out@.len(),
                forall|i: int| 0 <= i < out@.len() ==> 0 <= #[trigger] idx@[i] < n - rev@.len() && out@[i] == orig[idx@[i]],
                forall|a: int, b: int| 0 <= a < b < out@.len() && out@[a].size == out@[b].size ==> idx@[a] < idx@[b],
                forall|a: int, b: int| 0 <= a < b < out@.len() ==> idx@[a] != idx@[b],
                out@.to_multiset().add(rev@.to_multiset()) == orig.to_multiset(),
                rev@.reverse() == orig.skip(n - rev@.len()),
                rev@.len() <= n == orig.len(),
                out@.len() + rev@.len() == n,
                sorted_by_size(out@),
                files_total(out@) + files_total(rev@.reverse()) == files_total(orig),
                forall|i: int| 0 <= i < out@.len() ==> exists|j: int|
                    0 <= j < orig.len() && #[trigger] out@[i] == orig[j],
            decreases rev.len(),
        {
            let ghost r0 = rev@;
            let x = rev.pop().unwrap();
            assert(r0.reverse() =~= seq![x] + rev@.reverse());
            assert(x == orig[n - r0.len()]) by {
                assert(r0.reverse()[0] == x);
            }
            assert(rev@.reverse() =~= r0.reverse().subrange(1, r0.len() as int));
            assert(orig.skip(n - r0.len()).subrange(1, r0.len() as int) =~= orig.skip(n - rev@.len()));
            proof {
                lemma_files_total_insert(rev@.reverse(), 0, x);
                assert(rev@.reverse().insert(0, x) =~= r0.reverse());
            }
            let mut pos: usize = 0;
            while pos < out.len() && out[pos].size >= x.size
                invariant
                    pos <= out@.len(),
                    forall|a: int| 0 <= a < pos ==> out@[a].size >= x.size,
                decreases out@.len() - pos,
            {
                pos = pos + 1;
            }
            let ghost o0 = out@;
            proof {
                lemma_files_total_insert(o0, pos as int, x);
                vstd::seq_lib::to_multiset_insert(o0, pos as int, x);
                vstd::seq_lib::to_multiset_build(rev@, x);
                assert(r0 =~= rev@.push(x));
            }
            let ghost i0 = idx@;
            let ghost k = n - r0.len();
            out.insert(pos, x);
            idx = Ghost(i0.insert(pos as int, k));
            assert(out@ == o0.insert(pos as int, x));
            assert forall|i: int| 0 <= i < out@.len() implies 0 <= #[trigger] idx@[i] < n - rev@.len() && out@[i] == orig[idx@[i]] by {
                if i < pos {
                    assert(idx@[i] == i0[i] && out@[i] == o0[i]);
                } else if i > pos {
                    assert(idx@[i] == i0[i - 1] && out@[i] == o0[i - 1]);
                }
            }
            assert forall|a: int, b: int| 0 <= a < b < out@.len() implies idx@[a] != idx@[b] by {
                if b < pos {
                    assert(idx@[a] == i0[a] && idx@[b] == i0[b]);
                } else if b == pos {
                    assert(idx@[a] == i0[a] && i0[a] < k);
                } else if a < pos {
                    assert(idx@[a] == i0[a] && idx@[b] == i0[b - 1]);
                } else if a == pos {
                    assert(idx@[b] == i0[b - 1] && i0[b - 1] < k);
                } else {
                    assert(idx@[a] == i0[a - 1] && idx@[b] == i0[b - 1]);
                }
            }
            assert forall|a: int, b: int| 0 <= a < b < out@.len() && out@[a].size == out@[b].size implies idx@[a] < idx@[b] by {
                if b < pos {
                    assert(idx@[a] == i0[a] && idx@[b] == i0[b] && out@[a] == o0[a] && out@[b] == o0[b]);
                } else if b == pos {
                    assert(idx@[a] == i0[a]);
                } else if a < pos {
                    assert(idx@[a] == i0[a] && idx@[b] == i0[b - 1] && out@[a] == o0[a] && out@[b] == o0[b - 1]);
                } else if a == pos {
                    assert(out@[b] == o0[b - 1]);
                    assert(o0[pos as int].size < x.size);
                } else {
                    assert(idx@[a] == i0[a - 1] && idx@[b] == i0[b - 1] && out@[a] == o0[a - 1] && out@[b] == o0[b - 1]);
                }
            }
            assert forall|a: int, b: int| 0 <= a < b < out@.len() implies out@[a].size >= out@[b].size by {
                if b < pos {
                } else if b == pos {
                } else if a < pos {
                    assert(o0[pos as int].size < x.size);
                } else if a == pos {
                    assert(o0[pos as int].size < x.size);
                    assert(o0[pos as int].size >= o0[b - 1].size || pos as int == b - 1);
                } else {
                }
            }
            assert forall|i: int| 0 <= i < out@.len() implies exists|j: int|
                0 <= j < orig.len() && #[trigger] out@[i] == orig[j] by {
                if i < pos {
                    assert(out@[i] == o0[i]);
                } else if i == pos {
                    assert(out@[i] == orig[n - r0.len()]);
                } else {
                    assert(out@[i] == o0[i - 1]);
                }
            }
        }
        assert(rev@.reverse() =~= Seq::<DirNode>::empty());
        proof {
            lemma_empty_multiset(rev@);
            assert(out@.to_multiset() =~= orig.to_multiset());
            assert(idx@.len() == out@.len());
            assert(order_witness(orig, out@, idx@));
        }
        self.children = out;
    }

    /// The direct children of this node.
    pub fn children(&self) -> (r: &[DirNode])
        ensures
            r@ == self.children@,
    {
        self.children.as_slice()
    }

    pub fn is_file(&self) -> (r: bool)
        ensures
            r == (self.node_type == NodeType::File),
    {
        self.node_type == NodeType::File
    }

    pub fn is_directory(&self) -> (r: bool)
        ensures
            r == (self.node_type == NodeType::Directory),
    {
        self.node_type == NodeType::Directory
    }
}

/// `n` holds, below the directories `dirs` (top down, each a child of the one before), a
/// file leaf with path `f` and size `size`.
pub open spec fn holds_file(n: DirNode, dirs: Seq<Seq<char>>, f: Seq<char>, size: u64) -> bool
    decreases dirs.len(),
{
    if dirs.len() == 0 {
        exists|i: int| 0 <= i < n.children@.len() && is_leaf(#[trigger] n.children@[i], f, size)
    } else {
        exists|i: int| 0 <= i < n.children@.len() && is_dir_at(#[trigger] n.children@[i], dirs[0])
            && holds_file(n.children@[i], dirs.drop_first(), f, size)
    }
}

pub open spec fn is_leaf(c: DirNode, f: Seq<char>, size: u64) -> bool {
    c.node_type == NodeType::File && c.full_path@ == f && c.size == size
}

pub open spec fn is_dir_at(c: DirNode, p: Seq<char>) -> bool {
    c.node_type == NodeType::Directory && c.full_path@ == p
}

/// Every file that `a` holds, `b` holds at the same place.
pub open spec fn keeps(a: DirNode, b: DirNode) -> bool {
    forall|d: Seq<Seq<char>>, f: Seq<char>, sz: u64| #[trigger] holds_file(a, d, f, sz) ==> holds_file(b, d, f, sz)
}

pub open spec fn child_kept(x: DirNode, y: DirNode) -> bool {
    x.node_type == y.node_type && x.full_path == y.full_path && (x.node_type == NodeType::File ==> x.size == y.size)
        && keeps(x, y)
}

/// Directories below `root`, as the insertion of a file walks them.
pub open spec fn under_root(dirs: Seq<Seq<char>>, root: Seq<char>) -> bool {
    forall|k: int| 0 <= k < dirs.len() ==> within(#[trigger] dirs[k], root) && dirs[k] != root
}

pub open spec fn dir_views(v: Seq<String>) -> Seq<Seq<char>> {
    v.map_values(|d: String| d@)
}

proof fn lemma_keeps_children(a: DirNode, b: DirNode)
    requires
        forall|i: int| 0 <= i < a.children@.len() ==> exists|j: int| 0 <= j < b.children@.len()
            && child_kept(#[trigger] a.children@[i], b.children@[j]),
    ensures
        keeps(a, b),
{
    assert forall|d: Seq<Seq<char>>, f: Seq<char>, sz: u64| #[trigger] holds_file(a, d, f, sz) implies holds_file(b, d, f, sz) by {
        if d.len() == 0 {
            let i = choose|i: int| 0 <= i < a.children@.len() && is_leaf(#[trigger] a.children@[i], f, sz);
            let j = choose|j: int| 0 <= j < b.children@.len() && child_kept(a.children@[i], #[trigger] b.children@[j]);
            assert(is_leaf(b.children@[j], f, sz));
        } else {
            let i = choose|i: int| 0 <= i < a.children@.len() && is_dir_at(#[trigger] a.children@[i], d[0])
                && holds_file(a.children@[i], d.drop_first(), f, sz);
            let j = choose|j: int| 0 <= j < b.children@.len() && child_kept(a.children@[i], #[trigger] b.children@[j]);
            assert(holds_file(b.children@[j], d.drop_first(), f, sz));
            assert(is_dir_at(b.children@[j], d[0]));
        }
    }
}

/// `c` is a node the entries account for: a file that `file_ok` admits, or a directory
/// whose path `dir_ok` admits.
pub open spec fn node_allowed(c: DirNode, dir_ok: spec_fn(Seq<char>) -> bool, file_ok: spec_fn(Seq<char>, u64) -> bool) -> bool {
    if c.node_type == NodeType::File {
        file_ok(c.full_path@, c.size)
    } else {
        dir_ok(c.full_path@)
    }
}

/// Every node below `n` is accounted for.
pub open spec fn from_entries(n: DirNode, dir_ok: spec_fn(Seq<char>) -> bool, file_ok: spec_fn(Seq<char>, u64) -> bool) -> bool
    decreases n,
{
    all_from(n.children@, dir_ok, file_ok)
}

pub open spec fn all_from(s: Seq<DirNode>, dir_ok: spec_fn(Seq<char>) -> bool, file_ok: spec_fn(Seq<char>, u64) -> bool) -> bool
    decreases s,
{
    s.len() == 0 || (all_from(s.drop_last(), dir_ok, file_ok) && node_allowed(s.last(), dir_ok, file_ok)
        && from_entries(s.last(), dir_ok, file_ok))
}

proof fn lemma_all_from(s: Seq<DirNode>, d: spec_fn(Seq<char>) -> bool, f: spec_fn(Seq<char>, u64) -> bool)
    ensures
        all_from(s, d, f) <==> forall|i: int| 0 <= i < s.len() ==> node_allowed(#[trigger] s[i], d, f) && from_entries(s[i], d, f),
    decreases s.len(),
{
    if s.len() > 0 {
        lemma_all_from(s.drop_last(), d, f);
        if forall|i: int| 0 <= i < s.len() ==> node_allowed(#[trigger] s[i], d, f) && from_entries(s[i], d, f) {
            assert forall|i: int| 0 <= i < s.drop_last().len() implies node_allowed(#[trigger] s.drop_last()[i], d, f)
                && from_entries(s.drop_last()[i], d, f) by {
                assert(s.drop_last()[i] == s[i]);
            }
            assert(node_allowed(s[s.len() - 1], d, f));
        }
        if all_from(s, d, f) {
            assert forall|i: int| 0 <= i < s.len() implies node_allowed(#[trigger] s[i], d, f) && from_entries(s[i], d, f) by {
                if i < s.len() - 1 {
                    assert(s.drop_last()[i] == s[i]);
                }
            }
        }
    }
}

/// The directory paths that the entries' insertions walk.
pub open spec fn entry_dirs(root: Seq<char>, entries: Seq<FileEntry>) -> spec_fn(Seq<char>) -> bool {
    |p: Seq<char>| exists|i: int| 0 <= i < entries.len() && ancestors(root, (#[trigger] entries[i]).path@).contains(p)
}

/// The files (path and size) that the entries name.
pub open spec fn entry_files(entries: Seq<FileEntry>) -> spec_fn(Seq<char>, u64) -> bool {
    |p: Seq<char>, sz: u64| exists|i: int| 0 <= i < entries.len() && (#[trigger] entries[i]).path@ == p && entries[i].size == sz
}

/// The directories from just below `root` down to `d` (both ends as paths), or `None` when
/// the climb from `d` up leaves `root`. A climb that runs out of parents keeps what it has.
pub open spec fn climb(root: Seq<char>, d: Seq<char>) -> Option<Seq<Seq<char>>>
    decreases d.len(),
{
    if d == root {
        Some(Seq::empty())
    } else if !within(d, root) {
        None
    } else {
        match parent(d) {
            None => Some(seq![d]),
            Some(p) => {
                if p.len() < d.len() {
                    match climb(root, p) {
                        Some(c) => Some(c.push(d)),
                        None => None,
                    }
                } else {
                    None
                }
            },
        }
    }
}

/// The directories between `root` (excluded) and the file at `file` (excluded), top down,
/// that the insertion of the file walks; none when the file lies outside `root`.
pub open spec fn ancestors(root: Seq<char>, file: Seq<char>) -> Seq<Seq<char>> {
    match parent(file) {
        None => Seq::empty(),
        Some(d) => match climb(root, d) {
            Some(c) => c,
            None => Seq::empty(),
        },
    }
}

/// The directories between `root` (excluded) and the file at `file` (excluded), from the
/// top down; empty when the file does not lie below `root`.
fn ancestors_of(root: &str, file: &str) -> (r: Vec<String>)
    ensures
        forall|i: int| 0 <= i < r@.len() ==> within(#[trigger] r@[i]@, root@) && r@[i]@ != root@,
        dir_views(r@) == ancestors(root@, file@),
{
    let mut up: Vec<String> = Vec::new();
    let mut cur = parent_of(file);
    let root_text = root.to_string();
    loop
        invariant
            root_text@ == root@,
            forall|i: int| 0 <= i < up@.len() ==> within(#[trigger] up@[i]@, root@) && up@[i]@ != root@,
            match cur {
                None => ancestors(root@, file@) == dir_views(up@).reverse(),
                Some(d) => match climb(root@, d@) {
                    Some(c) => ancestors(root@, file@) == c + dir_views(up@).reverse(),
                    None => ancestors(root@, file@) == Seq::<Seq<char>>::empty(),
                },
            },
        ensures
            ancestors(root@, file@) == dir_views(up@).reverse(),
        decreases (match cur { Some(d) => d@.len() + 1, None => 0 }),
    {
        match cur {
            None => {
                break;
            },
            Some(dir) => {
                if dir == root_text {
                    assert(climb(root@, dir@) == Some(Seq::<Seq<char>>::empty()));
                    assert(Seq::<Seq<char>>::empty() + dir_views(up@).reverse() =~= dir_views(up@).reverse());
                    break;
                }
                if !is_within(dir.as_str(), root) {
                    up = Vec::new();
                    assert(dir_views(up@).reverse() =~= Seq::<Seq<char>>::empty());
                    break;
                }
                let ghost u0 = up@;
                cur = parent_of(dir.as_str());
                up.push(dir);
                proof {
                    assert(dir_views(up@) =~= dir_views(u0).push(dir@));
                    assert(dir_views(up@).reverse() =~= seq![dir@] + dir_views(u0).reverse());
                    if cur is None {
                        assert(seq![dir@] + dir_views(u0).reverse() =~= dir_views(up@).reverse());
                    } else if climb(root@, cur->0@) is Some {
                        let c = climb(root@, cur->0@)->0;
                        assert(c.push(dir@) + dir_views(u0).reverse() =~= c + dir_views(up@).reverse());
                    }
                }
            },
        }
    }
    let ghost u = up@;
    let mut down: Vec<String> = Vec::new();
    while up.len() > 0
        invariant
            up@ == u.take(up@.len() as int),
            up@.len() <= u.len(),
            dir_views(down@) == dir_views(u).reverse().take(down@.len() as int),
            down@.len() + up@.len() == u.len(),
            forall|i: int| 0 <= i < up@.len() ==> within(#[trigger] up@[i]@, root@) && up@[i]@ != root@,
            forall|i: int| 0 <= i < down@.len() ==> within(#[trigger] down@[i]@, root@) && down@[i]@ != root@,
        decreases up.len(),
    {
        let ghost d0 = down@;
        let d = up.pop().unwrap();
        down.push(d);
        assert(dir_views(down@) =~= dir_views(u).reverse().take(down@.len() as int));
        assert(up@ =~= u.take(up@.len() as int));
    }
    assert(dir_views(u).reverse().take(u.len() as int) =~= dir_views(u).reverse());
    down
}

/// What appending `x` to the children of `old` keeps.
proof fn lemma_push_child(old: DirNode, new: DirNode, x: DirNode, d: spec_fn(Seq<char>) -> bool, f: spec_fn(Seq<char>, u64) -> bool)
    requires
        old.node_type == NodeType::Directory,
        new.node_type == NodeType::Directory,
        new.children@ == old.children@.push(x),
    ensures
        keeps(old, new),
        files_total(new.children@) == files_total(old.children@) + file_total(x),
        aggregated(old) && aggregated(x) && new.size == files_total(new.children@) ==> aggregated(new),
        dirs_unique(old) && dirs_unique(x) && (forall|j: int| 0 <= j < old.children@.len()
            ==> !same_dir(#[trigger] old.children@[j], x)) ==> dirs_unique(new),
        from_entries(old, d, f) && node_allowed(x, d, f) && from_entries(x, d, f) ==> from_entries(new, d, f),
{
    let c0 = old.children@;
    if from_entries(old, d, f) && node_allowed(x, d, f) && from_entries(x, d, f) {
        lemma_all_from(c0, d, f);
        assert forall|i: int| 0 <= i < new.children@.len() implies node_allowed(#[trigger] new.children@[i], d, f)
            && from_entries(new.children@[i], d, f) by {
            if i < c0.len() {
                assert(new.children@[i] == c0[i]);
            }
        }
        lemma_all_from(new.children@, d, f);
    }
    lemma_files_total_insert(c0, c0.len() as int, x);
    assert(c0.insert(c0.len() as int, x) =~= new.children@);
    assert forall|i: int| 0 <= i < c0.len() implies exists|j: int| 0 <= j < new.children@.len()
        && child_kept(#[trigger] c0[i], new.children@[j]) by {
        assert(new.children@[i] == c0[i]);
        assert(child_kept(c0[i], new.children@[i]));
    }
    lemma_keeps_children(old, new);
    if aggregated(old) && aggregated(x) {
        assert forall|i: int| 0 <= i < new.children@.len() implies aggregated(#[trigger] new.children@[i]) by {
            if i < c0.len() {
                lemma_aggregated_child(old, i);
            }
        }
        lemma_all_aggregated(new.children@);
    }
    if dirs_unique(old) && dirs_unique(x) && (forall|j: int| 0 <= j < c0.len() ==> !same_dir(#[trigger] c0[j], x)) {
        lemma_all_unique(c0);
        assert forall|i: int| 0 <= i < new.children@.len() implies #[trigger] dirs_unique(new.children@[i]) by {
            if i < c0.len() {
                assert(new.children@[i] == c0[i]);
            }
        }
        lemma_all_unique(new.children@);
        assert forall|u: int, v: int| 0 <= u < v < new.children@.len() implies
            !same_dir(#[trigger] new.children@[u], #[trigger] new.children@[v]) by {
            assert(new.children@[u] == c0[u]);
            if v < c0.len() {
                assert(new.children@[v] == c0[v]);
            }
        }
    }
}

/// What replacing child `i` of `old` by `x`, of the same kind and path, keeps.
proof fn lemma_replace_child(old: DirNode, new: DirNode, i: int, x: DirNode, d: spec_fn(Seq<char>) -> bool, f: spec_fn(Seq<char>, u64) -> bool)
    requires
        old.node_type == NodeType::Directory,
        new.node_type == NodeType::Directory,
        0 <= i < old.children@.len(),
        new.children@ == old.children@.update(i, x),
        child_kept(old.children@[i], x),
    ensures
        keeps(old, new),
        files_total(new.children@) + file_total(old.children@[i]) == files_total(old.children@) + file_total(x),
        aggregated(old) && aggregated(x) && new.size == files_total(new.children@) ==> aggregated(new),
        dirs_unique(old) && dirs_unique(x) ==> dirs_unique(new),
        from_entries(old, d, f) && (from_entries(old.children@[i], d, f) ==> from_entries(x, d, f)) ==> from_entries(new, d, f),
{
    let c0 = old.children@;
    if from_entries(old, d, f) && (from_entries(c0[i], d, f) ==> from_entries(x, d, f)) {
        lemma_all_from(c0, d, f);
        assert forall|a: int| 0 <= a < new.children@.len() implies node_allowed(#[trigger] new.children@[a], d, f)
            && from_entries(new.children@[a], d, f) by {
            if a != i {
                assert(new.children@[a] == c0[a]);
            } else {
                assert(node_allowed(c0[i], d, f));
            }
        }
        lemma_all_from(new.children@, d, f);
    }
    lemma_files_total_remove(c0, i);
    lemma_files_total_insert(c0.remove(i), i, x);
    assert(c0.remove(i).insert(i, x) =~= new.children@);
    assert forall|a: int| 0 <= a < c0.len() implies exists|j: int| 0 <= j < new.children@.len()
        && child_kept(#[trigger] c0[a], new.children@[j]) by {
        if a != i {
            assert(new.children@[a] == c0[a]);
            assert(child_kept(c0[a], new.children@[a]));
        } else {
            assert(new.children@[a] == x);
        }
    }
    lemma_keeps_children(old, new);
    if aggregated(old) && aggregated(x) {
        assert forall|a: int| 0 <= a < new.children@.len() implies aggregated(#[trigger] new.children@[a]) by {
            if a != i {
                lemma_aggregated_child(old, a);
            }
        }
        lemma_all_aggregated(new.children@);
    }
    if dirs_unique(old) && dirs_unique(x) {
        lemma_all_unique(c0);
        assert forall|a: int| 0 <= a < new.children@.len() implies #[trigger] dirs_unique(new.children@[a]) by {
            if a != i {
                assert(new.children@[a] == c0[a]);
            }
        }
        lemma_all_unique(new.children@);
        assert forall|u: int, v: int| 0 <= u < v < new.children@.len() implies
            !same_dir(#[trigger] new.children@[u], #[trigger] new.children@[v]) by {
            if u != i {
                assert(new.children@[u] == c0[u]);
            }
            if v != i {
                assert(new.children@[v] == c0[v]);
            }
            assert(!same_dir(c0[u], c0[v]));
        }
    }
}

/// Adds `size` to `node` and to the directories along `dirs[k..]` below it (creating the
/// missing ones), and puts a file leaf for `file` at the end of that chain.
#[verifier::rlimit(100)]
#[verifier::spinoff_prover]
fn insert_along(
    node: DirNode,
    dirs: &Vec<String>,
    k: usize,
    file: &String,
    size: u64,
    dir_ok: Ghost<spec_fn(Seq<char>) -> bool>,
    file_ok: Ghost<spec_fn(Seq<char>, u64) -> bool>,
) -> (r: DirNode)
    requires
        node.node_type == NodeType::Directory,
        k <= dirs@.len(),
    ensures
        r.node_type == NodeType::Directory,
        r.full_path == node.full_path,
        r.name == node.name,
        aggregated(node) && file_total(node) + size <= u64::MAX ==> aggregated(r) && file_total(r)
            == file_total(node) + size,
        keeps(node, r),
        holds_file(r, dir_views(dirs@).skip(k as int), file@, size),
        dirs_unique(node) ==> dirs_unique(r),
        from_entries(node, dir_ok@, file_ok@) && file_ok@(file@, size)
            && (forall|j: int| k <= j < dirs@.len() ==> dir_ok@(#[trigger] dirs@[j]@)) ==> from_entries(r, dir_ok@, file_ok@),
    decreases dirs@.len() - k,
{
    let ghost start = node;
    let ghost exact = aggregated(start) && file_total(start) + size <= u64::MAX;
    let ghost c0 = node.children@;
    let mut node = node;
    node.size = node.size.saturating_add(size);
    assert(exact ==> node.size == files_total(c0) + size);
    if k == dirs.len() {
        let leaf = DirNode::new_file(file.clone(), size);
        proof {
            lemma_unique_leaf(leaf);
        }
        node.children.push(leaf);
        proof {
            lemma_all_from(leaf.children@, dir_ok@, file_ok@);
            lemma_push_child(start, node, leaf, dir_ok@, file_ok@);
            assert(is_leaf(node.children@[c0.len() as int], file@, size));
            assert(dir_views(dirs@).skip(k as int).len() == 0);
        }
        return node;
    }
    let mut idx: usize = 0;
    while idx < node.children.len() && !(node.children[idx].node_type == NodeType::Directory
        && node.children[idx].full_path == dirs[k])
        invariant
            idx <= node.children@.len(),
            k < dirs@.len(),
            node.children@ == c0,
            forall|j: int| 0 <= j < idx ==> !is_dir_at(#[trigger] c0[j], dirs@[k as int]@),
        decreases node.children@.len() - idx,
    {
        idx = idx + 1;
    }
    let ghost ds = dir_views(dirs@).skip(k as int);
    proof {
        assert(ds[0] == dirs@[k as int]@);
        assert(ds.drop_first() =~= dir_views(dirs@).skip(k + 1));
    }
    if idx < node.children.len() {
        let child = node.children.remove(idx);
        proof {
            if exact {
                lemma_aggregated_child(start, idx as int);
                lemma_files_total_remove(c0, idx as int);
            }
            if dirs_unique(start) {
                lemma_all_unique(c0);
            }
        }
        let child2 = insert_along(child, dirs, k + 1, file, size, dir_ok, file_ok);
        node.children.insert(idx, child2);
        proof {
            assert(node.children@ =~= c0.update(idx as int, child2));
            lemma_replace_child(start, node, idx as int, child2, dir_ok@, file_ok@);
            assert(is_dir_at(node.children@[idx as int], ds[0]));
            assert(holds_file(node.children@[idx as int], ds.drop_first(), file@, size));
        }
    } else {
        let fresh = DirNode::new_directory(dirs[k].clone());
        proof {
            lemma_unique_leaf(fresh);
            lemma_all_aggregated(fresh.children@);
            lemma_all_from(fresh.children@, dir_ok@, file_ok@);
        }
        let fresh2 = insert_along(fresh, dirs, k + 1, file, size, dir_ok, file_ok);
        node.children.push(fresh2);
        proof {
            assert forall|j: int| 0 <= j < c0.len() implies !same_dir(#[trigger] c0[j], fresh2) by {
                assert(!is_dir_at(c0[j], dirs@[k as int]@));
            }
            if from_entries(start, dir_ok@, file_ok@) && file_ok@(file@, size)
                && (forall|j: int| k <= j < dirs@.len() ==> dir_ok@(#[trigger] dirs@[j]@)) {
                assert(dir_ok@(dirs@[k as int]@));
            }
            lemma_push_child(start, node, fresh2, dir_ok@, file_ok@);
            assert(is_dir_at(node.children@[c0.len() as int], ds[0]));
            assert(holds_file(node.children@[c0.len() as int], ds.drop_first(), file@, size));
        }
    }
    node

}

/// Inserts the file `file_path` of `size` bytes below `root`, adding its size to `root` and
/// to every directory on the way; a file outside `root_path` hangs directly under `root`.
fn insert_file_into_tree(
    root: &mut DirNode,
    root_path: &str,
    file_path: &str,
    size: u64,
    dir_ok: Ghost<spec_fn(Seq<char>) -> bool>,
    file_ok: Ghost<spec_fn(Seq<char>, u64) -> bool>,
)
    requires
        old(root).node_type == NodeType::Directory,
    ensures
        final(root).node_type == NodeType::Directory,
        final(root).full_path == old(root).full_path,
        aggregated(*old(root)) && file_total(*old(root)) + size <= u64::MAX ==> aggregated(*final(root))
            && file_total(*final(root)) == file_total(*old(root)) + size,
        keeps(*old(root), *final(root)),
        dirs_unique(*old(root)) ==> dirs_unique(*final(root)),
        from_entries(*old(root), dir_ok@, file_ok@) && file_ok@(file_path@, size)
            && (forall|p: Seq<char>| #[trigger] ancestors(root_path@, file_path@).contains(p) ==> dir_ok@(p))
            ==> from_entries(*final(root), dir_ok@, file_ok@),
        under_root(ancestors(root_path@, file_path@), root_path@),
        holds_file(*final(root), ancestors(root_path@, file_path@), file_path@, size),
{
    let dirs = ancestors_of(root_path, file_path);
    let mut node = DirNode::new_directory(String::new());
    std::mem::swap(&mut node, root);
    let file = file_path.to_string();
    proof {
        if forall|p: Seq<char>| #[trigger] ancestors(root_path@, file_path@).contains(p) ==> dir_ok@(p) {
            assert forall|j: int| 0 <= j < dirs@.len() implies dir_ok@(#[trigger] dirs@[j]@) by {
                assert(dir_views(dirs@)[j] == dirs@[j]@);
                assert(ancestors(root_path@, file_path@).contains(dirs@[j]@));
            }
        }
    }
    let mut grown = insert_along(node, &dirs, 0, &file, size, dir_ok, file_ok);
    proof {
        let ds = dir_views(dirs@);
        assert(ds.skip(0) =~= ds);
        assert(under_root(ds, root_path@)) by {
            assert forall|k: int| 0 <= k < ds.len() implies within(#[trigger] ds[k], root_path@) && ds[k] != root_path@ by {
                assert(ds[k] == dirs@[k]@);
            }
        }
    }
    std::mem::swap(&mut grown, root);
}

/// `node` with the children of every directory ordered largest first.
#[verifier::spinoff_prover]
fn sorted_tree(tree: DirNode, dir_ok: Ghost<spec_fn(Seq<char>) -> bool>, file_ok: Ghost<spec_fn(Seq<char>, u64) -> bool>) -> (r: DirNode)
    ensures
        tree_sorted(r),
        r.full_path == tree.full_path,
        r.name == tree.name,
        r.node_type == tree.node_type,
        r.size == tree.size,
        file_total(r) == file_total(tree),
        aggregated(tree) ==> aggregated(r),
        keeps(tree, r),
        dirs_unique(tree) ==> dirs_unique(r),
        from_entries(tree, dir_ok@, file_ok@) ==> from_entries(r, dir_ok@, file_ok@),
    decreases node_count(tree),
{
    let ghost before_all = tree;
    let mut node = tree;
    let ghost orig = node.children@;
    let ghost n = orig.len();
    let mut kids: Vec<DirNode> = Vec::new();
    std::mem::swap(&mut kids, &mut node.children);
    let mut rev: Vec<DirNode> = Vec::new();
    while kids.len() > 0
        invariant
            kids@ + rev@.reverse() == orig,
        decreases kids.len(),
    {
        let ghost k0 = kids@;
        let ghost r0 = rev@;
        let x = kids.pop().unwrap();
        rev.push(x);
        assert(rev@.reverse() =~= seq![x] + r0.reverse());
        assert(kids@ + rev@.reverse() =~= k0 + r0.reverse());
    }
    assert(rev@.reverse() =~= orig);
    let mut done: Vec<DirNode> = Vec::new();
    assert(orig == before_all.children@);
    while rev.len() > 0
        invariant
            rev@.reverse() == orig.skip(done@.len() as int),
            done@.len() + rev@.len() == n == orig.len(),
            forall|i: int| 0 <= i < done@.len() ==> tree_sorted(#[trigger] done@[i]),
            forall|i: int| 0 <= i < done@.len() ==> file_total(#[trigger] done@[i]) == file_total(orig[i]),
            forall|i: int| 0 <= i < done@.len() ==> (#[trigger] done@[i]).size == orig[i].size,
            forall|i: int| 0 <= i < done@.len() ==> aggregated(orig[i]) ==> aggregated(#[trigger] done@[i]),
            forall|i: int| 0 <= i < done@.len() ==> (#[trigger] done@[i]).node_type == orig[i].node_type,
            forall|i: int| 0 <= i < done@.len() ==> child_kept(orig[i], #[trigger] done@[i]),
            forall|i: int| 0 <= i < done@.len() ==> dirs_unique(orig[i]) ==> dirs_unique(#[trigger] done@[i]),
            forall|i: int| 0 <= i < done@.len() ==> from_entries(orig[i], dir_ok@, file_ok@)
                ==> from_entries(#[trigger] done@[i], dir_ok@, file_ok@),
            orig == before_all.children@,
            before_all == tree,
        decreases rev.len(),
    {
        let ghost r0 = rev@;
        let x = rev.pop().unwrap();
        assert(r0.reverse() =~= seq![x] + rev@.reverse());
        assert(x == orig[done@.len() as int]) by {
            assert(r0.reverse()[0] == x);
        }
        assert(rev@.reverse() =~= r0.reverse().subrange(1, r0.len() as int));
        assert(orig.skip(done@.len() as int).subrange(1, r0.len() as int) =~= orig.skip(done@.len() as int + 1));
        proof {
            lemma_child_count(tree.children@, done@.len() as int);
            assert(x == tree.children@[done@.len() as int]);
        }
        let y = sorted_tree(x, dir_ok, file_ok);
        done.push(y);
    }
    proof {
        assert(done@.len() == n);
        lemma_files_total_pointwise(done@, orig);
    }
    node.children = done;
    let ghost before = node;
    node.sort_children();
    proof {
        assert forall|i: int| 0 <= i < node.children@.len() implies tree_sorted(#[trigger] node.children@[i]) by {
            let j = choose|j: int| 0 <= j < before.children@.len() && node.children@[i] == before.children@[j];
            assert(tree_sorted(before.children@[j]));
        }
        lemma_all_sorted(node.children@);
        assert forall|i: int| 0 <= i < before_all.children@.len() implies exists|j: int| 0 <= j < node.children@.len()
            && child_kept(#[trigger] before_all.children@[i], node.children@[j]) by {
            broadcast use vstd::seq_lib::to_multiset_contains;
            let c = before.children@[i];
            assert(before.children@.contains(c));
            assert(node.children@.to_multiset().count(c) > 0);
            assert(node.children@.contains(c));
            let j = choose|j: int| 0 <= j < node.children@.len() && node.children@[j] == c;
            assert(child_kept(before_all.children@[i], node.children@[j]));
        }
        lemma_keeps_children(before_all, node);
        if from_entries(before_all, dir_ok@, file_ok@) {
            lemma_all_from(orig, dir_ok@, file_ok@);
            let idx = choose|idx: Seq<int>| order_witness(before.children@, node.children@, idx);
            assert forall|i: int| 0 <= i < node.children@.len() implies node_allowed(#[trigger] node.children@[i], dir_ok@, file_ok@)
                && from_entries(node.children@[i], dir_ok@, file_ok@) by {
                let p = idx[i];
                assert(0 <= p < before.children@.len());
                assert(child_kept(orig[p], done@[p]));
                assert(node_allowed(orig[p], dir_ok@, file_ok@) && from_entries(orig[p], dir_ok@, file_ok@));
            }
            lemma_all_from(node.children@, dir_ok@, file_ok@);
        }
        if dirs_unique(before_all) {
            lemma_all_unique(orig);
            let idx = choose|idx: Seq<int>| order_witness(before.children@, node.children@, idx);
            assert forall|i: int| 0 <= i < node.children@.len() implies #[trigger] dirs_unique(node.children@[i]) by {
                assert(0 <= idx[i] < before.children@.len());
                assert(dirs_unique(orig[idx[i]]));
            }
            lemma_all_unique(node.children@);
            assert forall|x: int, y: int| 0 <= x < y < node.children@.len() implies
                !same_dir(#[trigger] node.children@[x], #[trigger] node.children@[y]) by {
                let p = idx[x];
                let q = idx[y];
                assert(0 <= p < before.children@.len() && 0 <= q < before.children@.len());
                assert(p != q);
                assert(child_kept(orig[p], done@[p]) && child_kept(orig[q], done@[q]));
                if p < q {
                    assert(!same_dir(orig[p], orig[q]));
                } else {
                    assert(!same_dir(orig[q], orig[p]));
                }
            }
        }
        if aggregated(before_all) {
            assert forall|i: int| 0 <= i < node.children@.len() implies aggregated(#[trigger] node.children@[i]) by {
                let j = choose|j: int| 0 <= j < before.children@.len() && node.children@[i] == before.children@[j];
                lemma_aggregated_child(before_all, j);
            }
            lemma_all_aggregated(node.children@);
        }
    }
    node
}

proof fn lemma_files_total_pointwise(a: Seq<DirNode>, b: Seq<DirNode>)
    requires
        a.len() == b.len(),
        forall|i: int| 0 <= i < a.len() ==> file_total(#[trigger] a[i]) == file_total(b[i]),
    ensures
        files_total(a) == files_total(b),
    decreases a.len(),
{
    if a.len() > 0 {
        lemma_files_total_pointwise(a.drop_last(), b.drop_last());
    }
}

proof fn lemma_sum_prefix(s: Seq<FileEntry>, i: int)
    requires
        0 <= i <= s.len(),
    ensures
        sum_sizes(s.take(i)) <= sum_sizes(s),
    decreases s.len(),
{
    if i < s.len() {
        lemma_sum_prefix(s.drop_last(), i);
        assert(s.drop_last().take(i) =~= s.take(i));
    } else {
        assert(s.take(i) =~= s);
    }
}

/// Builds the tree of `entries` below `root_path`: every file hangs under the chain of its
/// directories, each directory's size is the total of the files below it, and children are
/// ordered largest first. Files outside `root_path` hang directly under the root.
pub fn build_tree(root_path: &str, entries: Vec<FileEntry>) -> (r: DirNode)
    ensures
        r.full_path@ == root_path@,
        r.node_type == NodeType::Directory,
        tree_sorted(r),
        sum_sizes(entries@) <= u64::MAX ==> aggregated(r) && file_total(r) == sum_sizes(entries@),
        dirs_unique(r),
        from_entries(r, entry_dirs(root_path@, entries@), entry_files(entries@)),
        forall|i: int| 0 <= i < entries@.len() ==> holds_file(r, ancestors(root_path@, (#[trigger] entries@[i]).path@),
            entries@[i].path@, entries@[i].size),
{
    let mut root = DirNode::new_directory(root_path.to_string());
    assert(aggregated(root));
    proof {
        lemma_unique_leaf(root);
        lemma_all_from(root.children@, entry_dirs(root_path@, entries@), entry_files(entries@));
    }
    let mut i: usize = 0;
    while i < entries.len()
        invariant
            i <= entries@.len(),
            root.node_type == NodeType::Directory,
            root.full_path@ == root_path@,
            sum_sizes(entries@.take(i as int)) <= u64::MAX ==> aggregated(root) && file_total(root)
                == sum_sizes(entries@.take(i as int)),
            forall|j: int| 0 <= j < i ==> holds_file(root, ancestors(root_path@, (#[trigger] entries@[j]).path@),
                entries@[j].path@, entries@[j].size),
            dirs_unique(root),
            from_entries(root, entry_dirs(root_path@, entries@), entry_files(entries@)),
        decreases entries@.len() - i,
    {
        proof {
            assert(entries@.take(i + 1).drop_last() =~= entries@.take(i as int));
            lemma_sum_prefix(entries@.take(i + 1), i as int);
            assert(entries@.take(i + 1).take(i as int) =~= entries@.take(i as int));
        }
        let ghost before = root;
        let ghost d = entry_dirs(root_path@, entries@);
        let ghost f = entry_files(entries@);
        proof {
            assert(f(entries@[i as int].path@, entries@[i as int].size));
            assert forall|p: Seq<char>| #[trigger] ancestors(root_path@, entries@[i as int].path@).contains(p) implies d(p) by {
                assert(0 <= i < entries@.len() && ancestors(root_path@, entries@[i as int].path@).contains(p));
            }
        }
        insert_file_into_tree(&mut root, root_path, entries[i].path.as_str(), entries[i].size, Ghost(d), Ghost(f));
        proof {
            assert forall|j: int| 0 <= j < i + 1 implies holds_file(root, ancestors(root_path@, (#[trigger] entries@[j]).path@),
                entries@[j].path@, entries@[j].size) by {
                if j < i {
                    assert(holds_file(before, ancestors(root_path@, entries@[j].path@), entries@[j].path@, entries@[j].size));
                }
            }
        }
        i = i + 1;
    }
    assert(entries@.take(entries@.len() as int) =~= entries@);
    let ghost unsorted = root;
    sort_tree_by_size(&mut root, Ghost(entry_dirs(root_path@, entries@)), Ghost(entry_files(entries@)));
    proof {
        assert forall|j: int| 0 <= j < entries@.len() implies holds_file(root, ancestors(root_path@, (#[trigger] entries@[j]).path@),
            entries@[j].path@, entries@[j].size) by {
            assert(holds_file(unsorted, ancestors(root_path@, entries@[j].path@), entries@[j].path@, entries@[j].size));
        }
    }
    root
}

/// Orders the children of every directory of the tree largest first.
fn sort_tree_by_size(node: &mut DirNode, dir_ok: Ghost<spec_fn(Seq<char>) -> bool>, file_ok: Ghost<spec_fn(Seq<char>, u64) -> bool>)
    ensures
        tree_sorted(*final(node)),
        final(node).full_path == old(node).full_path,
        final(node).node_type == old(node).node_type,
        final(node).size == old(node).size,
        file_total(*final(node)) == file_total(*old(node)),
        aggregated(*old(node)) ==> aggregated(*final(node)),
        keeps(*old(node), *final(node)),
        dirs_unique(*old(node)) ==> dirs_unique(*final(node)),
        from_entries(*old(node), dir_ok@, file_ok@) ==> from_entries(*final(node), dir_ok@, file_ok@),
{
    let mut taken = DirNode::new_file(String::new(), 0);
    std::mem::swap(&mut taken, node);
    let mut sorted = sorted_tree(taken, dir_ok, file_ok);
    std::mem::swap(&mut sorted, node);
}

/// `b` is `a` with only directory sizes changed: names, paths, kinds, file sizes and
/// the order of children are the same at every level.
pub open spec fn resized(a: DirNode, b: DirNode) -> bool
    decreases a,
{
    &&& a.name == b.name
    &&& a.full_path == b.full_path
    &&& a.node_type == b.node_type
    &&& (a.node_type == NodeType::File ==> a.size == b.size)
    &&& all_resized(a.children@, b.children@)
}

pub open spec fn all_resized(s: Seq<DirNode>, t: Seq<DirNode>) -> bool
    decreases s,
{
    s.len() == t.len() && (s.len() == 0 || (all_resized(s.drop_last(), t.drop_last()) && resized(s.last(), t.last())))
}

proof fn lemma_all_resized(s: Seq<DirNode>, t: Seq<DirNode>)
    requires
        s.len() == t.len(),
        forall|i: int| 0 <= i < s.len() ==> resized(#[trigger] s[i], t[i]),
    ensures
        all_resized(s, t),
    decreases s.len(),
{
    if s.len() > 0 {
        assert forall|i: int| 0 <= i < s.drop_last().len() implies resized(#[trigger] s.drop_last()[i], t.drop_last()[i]) by {
            assert(s.drop_last()[i] == s[i] && t.drop_last()[i] == t[i]);
        }
        lemma_all_resized(s.drop_last(), t.drop_last());
        assert(resized(s[s.len() - 1], t[t.len() - 1]));
    }
}

proof fn lemma_resized_refl(n: DirNode)
    ensures
        resized(n, n),
    decreases node_count(n),
{
    assert forall|i: int| 0 <= i < n.children@.len() implies resized(#[trigger] n.children@[i], n.children@[i]) by {
        lemma_child_count(n.children@, i);
        lemma_resized_refl(n.children@[i]);
    }
    lemma_all_resized(n.children@, n.children@);
}

/// `n` with every directory's size set to the total of the files below it (saturating at
/// `u64::MAX`), and that total.
fn recomputed(n: DirNode) -> (r: (DirNode, u64))
    ensures
        r.1 == (if file_total(n) <= u64::MAX { file_total(n) } else { u64::MAX as nat }),
        r.0.size == r.1,
        file_total(r.0) == file_total(n),
        r.0.full_path == n.full_path,
        r.0.name == n.name,
        r.0.node_type == n.node_type,
        r.0.children@.len() == n.children@.len(),
        files_are_leaves(n) && file_total(n) <= u64::MAX ==> aggregated(r.0),
        resized(n, r.0),
    decreases node_count(n),
{
    if n.node_type == NodeType::File {
        proof {
            lemma_resized_refl(n);
        }
        let sz = n.size;
        return (n, sz);
    }
    let ghost before = n;
    let ghost orig = n.children@;
    let ghost cnt = orig.len();
    let mut node = n;
    let mut kids: Vec<DirNode> = Vec::new();
    std::mem::swap(&mut kids, &mut node.children);
    let mut rev: Vec<DirNode> = Vec::new();
    while kids.len() > 0
        invariant
            kids@ + rev@.reverse() == orig,
        decreases kids.len(),
    {
        let ghost k0 = kids@;
        let ghost r0 = rev@;
        let x = kids.pop().unwrap();
        rev.push(x);
        assert(rev@.reverse() =~= seq![x] + r0.reverse());
        assert(kids@ + rev@.reverse() =~= k0 + r0.reverse());
    }
    assert(rev@.reverse() =~= orig);
    let mut done: Vec<DirNode> = Vec::new();
    let mut total: u64 = 0;
    while rev.len() > 0
        invariant
            rev@.reverse() == orig.skip(done@.len() as int),
            done@.len() + rev@.len() == cnt == orig.len(),
            orig == before.children@,
            before == n,
            total == (if files_total(orig.take(done@.len() as int)) <= u64::MAX {
                files_total(orig.take(done@.len() as int))
            } else {
                u64::MAX as nat
            }),
            forall|i: int| 0 <= i < done@.len() ==> file_total(#[trigger] done@[i]) == file_total(orig[i]),
            forall|i: int| 0 <= i < done@.len() ==> resized(orig[i], #[trigger] done@[i]),
            forall|i: int| 0 <= i < done@.len() ==> files_are_leaves(orig[i]) && file_total(orig[i])
                <= u64::MAX ==> aggregated(#[trigger] done@[i]),
        decreases rev.len(),
    {
        let ghost r0 = rev@;
        let ghost k = done@.len() as int;
        let x = rev.pop().unwrap();
        assert(r0.reverse() =~= seq![x] + rev@.reverse());
        assert(x == orig[k]) by {
            assert(r0.reverse()[0] == x);
        }
        assert(rev@.reverse() =~= r0.reverse().subrange(1, r0.len() as int));
        assert(orig.skip(k).subrange(1, r0.len() as int) =~= orig.skip(k + 1));
        proof {
            lemma_child_count(n.children@, k);
            assert(orig.take(k + 1).drop_last() =~= orig.take(k));
        }
        let (y, t) = recomputed(x);
        total = total.saturating_add(t);
        done.push(y);
    }
    proof {
        assert(orig.take(cnt as int) =~= orig);
        lemma_files_total_pointwise(done@, orig);
        lemma_all_resized(orig, done@);
    }
    node.children = done;
    node.size = total;
    proof {
        if files_are_leaves(before) && file_total(before) <= u64::MAX {
            lemma_all_leafy(orig);
            assert forall|i: int| 0 <= i < node.children@.len() implies aggregated(#[trigger] node.children@[i]) by {
                lemma_files_total_remove(orig, i);
            }
            lemma_all_aggregated(node.children@);
        }
    }
    (node, total)
}

/// Sets every directory's size to the total size of the files below it, from the leaves
/// up, and returns the total of the whole tree (sizes saturate at `u64::MAX`).
pub fn recompute_aggregated_sizes(node: &mut DirNode) -> (r: u64)
    ensures
        r == (if file_total(*old(node)) <= u64::MAX { file_total(*old(node)) } else { u64::MAX as nat }),
        final(node).size == r,
        file_total(*final(node)) == file_total(*old(node)),
        final(node).full_path == old(node).full_path,
        final(node).node_type == old(node).node_type,
        files_are_leaves(*old(node)) && file_total(*old(node)) <= u64::MAX ==> aggregated(*final(node)),
        resized(*old(node), *final(node)),
{
    let mut taken = DirNode::new_file(String::new(), 0);
    std::mem::swap(&mut taken, node);
    let (mut fresh, total) = recomputed(taken);
    std::mem::swap(&mut fresh, node);
    total
}

proof fn lemma_find_among_skip(s: Seq<DirNode>, i: int, t: Seq<char>)
    requires
        0 <= i < s.len(),
    ensures
        find_among(s.skip(i), t) == (match find_in(s[i], t) {
            Some(x) => Some(x),
            None => find_among(s.skip(i + 1), t),
        }),
{
    assert(s.skip(i)[0] == s[i]);
    assert(s.skip(i).drop_first() =~= s.skip(i + 1));
}

fn find_rec<'a>(n: &'a DirNode, t: &String) -> (r: Option<&'a DirNode>)
    ensures
        match r {
            Some(x) => find_in(*n, t@) == Some(*x),
            None => find_in(*n, t@) is None,
        },
    decreases node_count(*n),
{
    if n.full_path == *t {
        return Some(n);
    }
    if n.node_type == NodeType::File {
        return None;
    }
    let mut i: usize = 0;
    assert(n.children@.skip(0) =~= n.children@);
    while i < n.children.len()
        invariant
            i <= n.children@.len(),
            n.full_path@ != t@,
            n.node_type == NodeType::Directory,
            find_in(*n, t@) == find_among(n.children@.skip(i as int), t@),
        decreases n.children@.len() - i,
    {
        proof {
            lemma_find_among_skip(n.children@, i as int, t@);
            lemma_child_count(n.children@, i as int);
        }
        let found = find_rec(&n.children[i], t);
        if found.is_some() {
            return found;
        }
        i = i + 1;
    }
    assert(n.children@.skip(i as int) =~= Seq::<DirNode>::empty());
    None
}

/// The first node of the tree, in pre-order, whose full path is `target`.
pub fn find_node<'a>(root: &'a DirNode, target: &str) -> (r: Option<&'a DirNode>)
    ensures
        match r {
            Some(x) => find_in(*root, target@) == Some(*x),
            None => find_in(*root, target@) is None,
        },
{
    let t = target.to_string();
    find_rec(root, &t)
}

/// The directory that `remove_child_of(root, t, index)` takes a child from, if it can.
pub open spec fn removal_target(root: DirNode, t: Seq<char>, index: int) -> Option<DirNode> {
    match find_in(root, t) {
        Some(d) => if d.node_type == NodeType::Directory && 0 <= index < d.children@.len() {
            Some(d)
        } else {
            None
        },
        None => None,
    }
}

/// Removes child `index` of the first node (in pre-order) whose path is `t`.
fn removed_in(tree: DirNode, t: &String, index: usize) -> (r: (DirNode, DirNode))
    requires
        removal_target(tree, t@, index as int) is Some,
    ensures
        r.1 == removal_target(tree, t@, index as int)->0.children@[index as int],
        file_total(r.0) + file_total(r.1) == file_total(tree),
        files_are_leaves(tree) ==> files_are_leaves(r.0),
        r.0.full_path == tree.full_path,
        r.0.node_type == tree.node_type,
    decreases node_count(tree),
{
    let ghost orig = tree.children@;
    let ghost start = tree;
    let mut n = tree;
    if n.full_path == *t {
        let ghost c0 = n.children@;
        let removed = n.remove_child_at(index);
        proof {
            lemma_files_total_remove(c0, index as int);
            if files_are_leaves(start) {
                lemma_all_leafy(c0);
                assert forall|i: int| 0 <= i < n.children@.len() implies #[trigger] files_are_leaves(n.children@[i]) by {
                    if i < index {
                        assert(n.children@[i] == c0[i]);
                    } else {
                        assert(n.children@[i] == c0[i + 1]);
                    }
                }
                lemma_all_leafy(n.children@);
            }
        }
        return (n, removed.unwrap());
    }
    let mut i: usize = 0;
    assert(orig.skip(0) =~= orig);
    while i < n.children.len() && find_rec(&n.children[i], t).is_none()
        invariant
            i <= n.children@.len(),
            n == start,
            orig == start.children@,
            start.full_path@ != t@,
            start.node_type == NodeType::Directory,
            find_in(start, t@) == find_among(orig.skip(i as int), t@),
        decreases n.children@.len() - i,
    {
        proof {
            lemma_find_among_skip(orig, i as int, t@);
        }
        i = i + 1;
    }
    if i == n.children.len() {
        assert(orig.skip(i as int) =~= Seq::<DirNode>::empty());
        assert(false);
    }
    proof {
        lemma_find_among_skip(orig, i as int, t@);
        lemma_child_count(orig, i as int);
    }
    let child = n.children.remove(i);
    assert(child == orig[i as int]);
    let (c2, removed) = removed_in(child, t, index);
    let ghost c1 = n.children@;
    n.children.insert(i, c2);
    proof {
        lemma_files_total_remove(orig, i as int);
        lemma_files_total_insert(c1, i as int, c2);
        assert(c1 =~= orig.remove(i as int));
        if files_are_leaves(start) {
            lemma_all_leafy(orig);
            assert forall|j: int| 0 <= j < n.children@.len() implies #[trigger] files_are_leaves(n.children@[j]) by {
                if j != i {
                    assert(n.children@[j] == orig[j]);
                }
            }
            lemma_all_leafy(n.children@);
        }
    }
    (n, removed)
}

/// Detaches child `index` of the directory whose path is `dir_path` (the first node with
/// that path in pre-order) and returns it; `None`, with the tree untouched, when that node
/// is missing, is a file or has no such child. Directory sizes are left as they are, for
/// `recompute_aggregated_sizes`.
pub fn remove_child_of(root: &mut DirNode, dir_path: &str, index: usize) -> (r: Option<DirNode>)
    ensures
        match removal_target(*old(root), dir_path@, index as int) {
            Some(d) => r == Some(d.children@[index as int]),
            None => r is None,
        },
        r is None ==> *final(root) == *old(root),
        r is Some ==> file_total(*final(root)) + file_total(r->0) == file_total(*old(root)),
        files_are_leaves(*old(root)) ==> files_are_leaves(*final(root)),
        final(root).full_path == old(root).full_path,
        final(root).node_type == old(root).node_type,
{
    let t = dir_path.to_string();
    let possible = match find_rec(root, &t) {
        Some(d) => d.node_type == NodeType::Directory && index < d.children.len(),
        None => false,
    };
    if !possible {
        return None;
    }
    let mut taken = DirNode::new_file(String::new(), 0);
    std::mem::swap(&mut taken, root);
    let (mut back, removed) = removed_in(taken, &t, index);
    std::mem::swap(&mut back, root);
    Some(removed)
}

/// The full path of `node`, for display.
pub fn get_node_display_path(node: &DirNode) -> (r: String)
    ensures
        r@ == node.full_path@,
{
    node.full_path.clone()
}

/// The size of `node` in bytes, for display: `"{size} 字节"`.
pub fn get_node_display_size(node: &DirNode) -> (r: String)
    ensures
        r@ == crate::text::decimal(node.size as nat) + " 字节"@,
{
    let s = crate::text::decimal_string(node.size);
    s.concat(" 字节")
}

/// The kind of `node`, for display: `"文件"` for a file, `"目录"` for a directory.
pub fn get_node_display_type(node: &DirNode) -> (r: String)
    ensures
        r@ == (if node.node_type == NodeType::File { "文件"@ } else { "目录"@ }),
{
    match node.node_type {
        NodeType::File => "文件".to_string(),
        NodeType::Directory => "目录".to_string(),
    }
}

} // verus!
