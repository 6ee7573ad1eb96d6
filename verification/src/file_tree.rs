//! The file tree of the sidebar: built from the diff's paths, sorted,
//! collapsed and expanded, and flattened for display under a filter.
use vstd::prelude::*;
use vstd::multiset::Multiset;

use crate::domain::{Diff, DiffStats, FileDiff};
use crate::text::{
    chars_of, chars_of_string, contains_chars, contains_seq, lowercase, push_chars, seqs_of,
    string_of, sub_vec, to_lowercase,
};

verus! {

/// The kind of change of a file.
#[derive(Debug, Clone, Copy, PartialEq, Eq, Structural)]
pub enum ChangeType {
    Added,
    Modified,
    Deleted,
}

/// Only additions: added; only deletions: deleted; otherwise modified.
pub open spec fn change_of(stats: DiffStats) -> ChangeType {
    if stats.deletions == 0 && stats.additions > 0 {
        ChangeType::Added
    } else if stats.additions == 0 && stats.deletions > 0 {
        ChangeType::Deleted
    } else {
        ChangeType::Modified
    }
}

impl ChangeType {
    pub fn from_stats(stats: DiffStats) -> (r: Self)
        ensures
            r == change_of(stats),
    {
        if stats.deletions == 0 && stats.additions > 0 {
            ChangeType::Added
        } else if stats.additions == 0 && stats.deletions > 0 {
            ChangeType::Deleted
        } else {
            ChangeType::Modified
        }
    }

    /// The marker drawn beside a file (the same dot, coloured by kind).
    pub fn icon(&self) -> (r: &'static str)
        ensures
            r@ == "●"@,
    {
        match self {
            ChangeType::Added => "●",
            ChangeType::Modified => "●",
            ChangeType::Deleted => "●",
        }
    }
}

/// A node of the file tree.
#[derive(Debug)]
pub enum TreeNode {
    Directory { name: String, path: String, expanded: bool, children: Vec<TreeNode> },
    File {
        name: String,
        path: String,
        stats: DiffStats,
        change_type: ChangeType,
        file_index: usize,
    },
}

/// A node of the file tree as plain values.
pub ghost enum NodeV {
    Dir { name: Seq<char>, path: Seq<char>, expanded: bool, children: Seq<NodeV> },
    File {
        name: Seq<char>,
        path: Seq<char>,
        stats: DiffStats,
        change_type: ChangeType,
        file_index: usize,
    },
}

pub open spec fn node_v(n: TreeNode) -> NodeV
    decreases n,
{
    match n {
        TreeNode::Directory { name, path, expanded, children } => NodeV::Dir {
            name: name@,
            path: path@,
            expanded,
            children: nodes_v(children@),
        },
        TreeNode::File { name, path, stats, change_type, file_index } => NodeV::File {
            name: name@,
            path: path@,
            stats,
            change_type,
            file_index,
        },
    }
}

pub open spec fn nodes_v(ns: Seq<TreeNode>) -> Seq<NodeV>
    decreases ns,
{
    if ns.len() == 0 {
        seq![]
    } else {
        nodes_v(ns.drop_last()).push(node_v(ns.last()))
    }
}

pub proof fn lemma_nodes_v_props(ns: Seq<TreeNode>)
    ensures
        nodes_v(ns).len() == ns.len(),
        forall|i: int| 0 <= i < ns.len() ==> #[trigger] nodes_v(ns)[i] == node_v(ns[i]),
    decreases ns.len(),
{
    if ns.len() > 0 {
        lemma_nodes_v_props(ns.drop_last());
        assert forall|i: int| 0 <= i < ns.len() implies #[trigger] nodes_v(ns)[i] == node_v(ns[i]) by {
            if i < ns.len() - 1 {
                assert(nodes_v(ns)[i] == nodes_v(ns.drop_last())[i]);
            }
        }
    }
}

pub proof fn lemma_nodes_v_push(ns: Seq<TreeNode>, n: TreeNode)
    ensures
        nodes_v(ns.push(n)) == nodes_v(ns).push(node_v(n)),
{
    assert(ns.push(n).drop_last() =~= ns);
}

pub open spec fn node_name(n: NodeV) -> Seq<char> {
    match n {
        NodeV::Dir { name, .. } => name,
        NodeV::File { name, .. } => name,
    }
}

pub open spec fn node_path(n: NodeV) -> Seq<char> {
    match n {
        NodeV::Dir { path, .. } => path,
        NodeV::File { path, .. } => path,
    }
}

impl TreeNode {
    pub fn name(&self) -> (r: &str)
        ensures
            r@ == node_name(node_v(*self)),
    {
        match self {
            TreeNode::Directory { name, .. } => name.as_str(),
            TreeNode::File { name, .. } => name.as_str(),
        }
    }

    pub fn path(&self) -> (r: &str)
        ensures
            r@ == node_path(node_v(*self)),
    {
        match self {
            TreeNode::Directory { path, .. } => path.as_str(),
            TreeNode::File { path, .. } => path.as_str(),
        }
    }

    pub fn is_directory(&self) -> (r: bool)
        ensures
            r == (node_v(*self) is Dir),
    {
        match self {
            TreeNode::Directory { .. } => true,
            TreeNode::File { .. } => false,
        }
    }
}

// ───────────────────────── building ─────────────────────────

/// The pieces of `s` between `/` separators (what `str::split('/')`
/// yields), the current piece being `cur`.
pub open spec fn split_slash_from(s: Seq<char>, cur: Seq<char>) -> Seq<Seq<char>>
    decreases s.len(),
{
    if s.len() == 0 {
        seq![cur]
    } else if s[0] == '/' {
        seq![cur] + split_slash_from(s.drop_first(), seq![])
    } else {
        split_slash_from(s.drop_first(), cur.push(s[0]))
    }
}

pub open spec fn path_parts(s: Seq<char>) -> Seq<Seq<char>> {
    split_slash_from(s, seq![])
}

fn split_slash(v: &Vec<char>) -> (r: Vec<Vec<char>>)
    ensures
        seqs_of(r@) == path_parts(v@),
{
    let mut r: Vec<Vec<char>> = Vec::new();
    let mut cur: Vec<char> = Vec::new();
    let mut i: usize = 0;
    assert(v@.skip(0) =~= v@);
    assert(seqs_of(r@) =~= Seq::<Seq<char>>::empty());
    assert(cur@ =~= Seq::<char>::empty());
    while i < v.len()
        invariant
            i <= v.len(),
            path_parts(v@) == seqs_of(r@) + split_slash_from(v@.skip(i as int), cur@),
        decreases v.len() - i,
    {
        let ghost rest = v@.skip(i as int);
        assert(rest.drop_first() =~= v@.skip(i + 1));
        assert(rest[0] == v@[i as int]);
        if v[i] == '/' {
            let ghost before = seqs_of(r@);
            let ghost c = cur@;
            r.push(cur);
            assert(seqs_of(r@) =~= before.push(c));
            cur = Vec::new();
            assert(cur@ =~= Seq::<char>::empty());
            assert(before + split_slash_from(rest, c) =~= seqs_of(r@) + split_slash_from(
                v@.skip(i + 1),
                cur@,
            ));
        } else {
            let ghost c = cur@;
            cur.push(v[i]);
            assert(cur@ == c.push(rest[0]));
        }
        i = i + 1;
    }
    assert(v@.skip(i as int) =~= Seq::<char>::empty());
    let ghost before = seqs_of(r@);
    let ghost c = cur@;
    r.push(cur);
    assert(seqs_of(r@) =~= before + seq![c]);
    r
}

/// Whether a node is a directory with this name.
pub open spec fn is_dir_named(n: NodeV, name: Seq<char>) -> bool {
    match n {
        NodeV::Dir { name: m, .. } => m == name,
        _ => false,
    }
}

/// The position of the first directory named `name`.
pub open spec fn dir_index(nodes: Seq<NodeV>, name: Seq<char>) -> Option<int>
    decreases nodes.len(),
{
    if nodes.len() == 0 {
        None
    } else {
        match dir_index(nodes.drop_last(), name) {
            Some(k) => Some(k),
            None => if is_dir_named(nodes.last(), name) {
                Some(nodes.len() - 1)
            } else {
                None
            },
        }
    }
}

/// The nodes with the file at `parts` added: under the first directory of
/// each name, new directories (expanded) made where none exists.
pub open spec fn insert_v(nodes: Seq<NodeV>, parts: Seq<Seq<char>>, stats: DiffStats, idx: usize) -> Seq<NodeV>
    decreases parts.len(),
{
    if parts.len() == 0 {
        nodes
    } else if parts.len() == 1 {
        nodes.push(
            NodeV::File {
                name: parts[0],
                path: parts[0],
                stats,
                change_type: change_of(stats),
                file_index: idx,
            },
        )
    } else {
        match dir_index(nodes, parts[0]) {
            Some(k) => match nodes[k] {
                NodeV::Dir { name, path, expanded, children } => nodes.update(
                    k,
                    NodeV::Dir {
                        name,
                        path,
                        expanded,
                        children: insert_v(children, parts.drop_first(), stats, idx),
                    },
                ),
                _ => nodes,
            },
            None => nodes.push(
                NodeV::Dir {
                    name: parts[0],
                    path: parts[0],
                    expanded: true,
                    children: insert_v(seq![], parts.drop_first(), stats, idx),
                },
            ),
        }
    }
}

proof fn lemma_dir_index(nodes: Seq<NodeV>, name: Seq<char>)
    ensures
        match dir_index(nodes, name) {
            Some(k) => 0 <= k < nodes.len() && is_dir_named(nodes[k], name) && forall|j: int|
                0 <= j < k ==> !is_dir_named(#[trigger] nodes[j], name),
            None => forall|j: int| 0 <= j < nodes.len() ==> !is_dir_named(#[trigger] nodes[j], name),
        },
    decreases nodes.len(),
{
    if nodes.len() > 0 {
        lemma_dir_index(nodes.drop_last(), name);
        assert forall|j: int| 0 <= j < nodes.len() - 1 implies nodes[j] == #[trigger] nodes.drop_last()[j] by {}
        match dir_index(nodes.drop_last(), name) {
            Some(k) => {
                assert(nodes[k] == nodes.drop_last()[k]);
                assert forall|j: int| 0 <= j < k implies !is_dir_named(#[trigger] nodes[j], name) by {
                    assert(nodes[j] == nodes.drop_last()[j]);
                }
            },
            None => {
                assert forall|j: int| 0 <= j < nodes.len() - 1 implies !is_dir_named(#[trigger] nodes[j], name) by {
                    assert(nodes[j] == nodes.drop_last()[j]);
                }
            },
        }
    }
}

fn find_dir(nodes: &Vec<TreeNode>, name: &Vec<char>) -> (r: Option<usize>)
    ensures
        match r {
            Some(k) => dir_index(nodes_v(nodes@), name@) == Some(k as int),
            None => dir_index(nodes_v(nodes@), name@) is None,
        },
{
    proof {
        lemma_nodes_v_props(nodes@);
        lemma_dir_index(nodes_v(nodes@), name@);
    }
    let ghost nv = nodes_v(nodes@);
    let mut i: usize = 0;
    while i < nodes.len()
        invariant
            i <= nodes@.len(),
            nv == nodes_v(nodes@),
            nv.len() == nodes@.len(),
            forall|j: int| 0 <= j < nodes@.len() ==> #[trigger] nv[j] == node_v(nodes@[j]),
            forall|j: int| 0 <= j < i ==> !is_dir_named(#[trigger] nv[j], name@),
        decreases nodes.len() - i,
    {
        let hit = match &nodes[i] {
            TreeNode::Directory { name: n, .. } => {
                let nc = chars_of_string(n);
                crate::text::chars_eq(&nc, name)
            },
            TreeNode::File { .. } => false,
        };
        assert(nv[i as int] == node_v(nodes@[i as int]));
        assert(hit == is_dir_named(nv[i as int], name@));
        if hit {
            proof {
                lemma_dir_index(nv, name@);
                match dir_index(nv, name@) {
                    Some(k) => {
                        if k < i {
                            assert(!is_dir_named(nv[k], name@));
                        }
                        if k > i {
                            assert(is_dir_named(nv[i as int], name@));
                        }
                    },
                    None => {
                        assert(is_dir_named(nv[i as int], name@));
                    },
                }
            }
            return Some(i);
        }
        i = i + 1;
    }
    proof {
        lemma_dir_index(nv, name@);
        match dir_index(nv, name@) {
            Some(k) => {
                assert(!is_dir_named(nv[k], name@));
            },
            None => {},
        }
    }
    None
}

fn insert_into_tree(
    nodes: &mut Vec<TreeNode>,
    parts: &Vec<Vec<char>>,
    from: usize,
    stats: DiffStats,
    file_index: usize,
)
    requires
        from <= parts.len(),
    ensures
        nodes_v(final(nodes)@) == insert_v(
            nodes_v(old(nodes)@),
            seqs_of(parts@).skip(from as int),
            stats,
            file_index,
        ),
    decreases parts.len() - from,
{
    let ghost ps = seqs_of(parts@).skip(from as int);
    if from == parts.len() {
        assert(ps.len() == 0);
        return;
    }
    assert(ps[0] == parts@[from as int]@);
    assert(ps.drop_first() =~= seqs_of(parts@).skip(from + 1));
    if from + 1 == parts.len() {
        let name = string_of(&parts[from]);
        let path = string_of(&parts[from]);
        let n = TreeNode::File {
            name,
            path,
            stats,
            change_type: ChangeType::from_stats(stats),
            file_index,
        };
        let ghost before = nodes@;
        nodes.push(n);
        proof {
            lemma_nodes_v_push(before, n);
        }
        return;
    }
    match find_dir(nodes, &parts[from]) {
        Some(k) => {
            let ghost before = nodes@;
            proof {
                lemma_nodes_v_props(before);
                lemma_dir_index(nodes_v(before), ps[0]);
            }
            let node = nodes.remove(k);
            match node {
                TreeNode::Directory { name, path, expanded, mut children } => {
                    insert_into_tree(&mut children, parts, from + 1, stats, file_index);
                    let nn = TreeNode::Directory { name, path, expanded, children };
                    nodes.insert(k, nn);
                    proof {
                        assert(nodes@ =~= before.update(k as int, nn));
                        lemma_nodes_v_props(nodes@);
                        assert(nodes_v(nodes@) =~= nodes_v(before).update(k as int, node_v(nn)));
                    }
                },
                TreeNode::File { .. } => {
                    proof {
                        lemma_dir_index(nodes_v(before), ps[0]);
                    }
                    nodes.insert(k, node);
                    assert(nodes@ =~= before);
                },
            }
        },
        None => {
            let mut children: Vec<TreeNode> = Vec::new();
            assert(nodes_v(children@) =~= Seq::<NodeV>::empty());
            insert_into_tree(&mut children, parts, from + 1, stats, file_index);
            let name = string_of(&parts[from]);
            let path = string_of(&parts[from]);
            let n = TreeNode::Directory { name, path, expanded: true, children };
            let ghost before = nodes@;
            nodes.push(n);
            proof {
                lemma_nodes_v_push(before, n);
            }
        },
    }
}

/// The tree of the diff's files before sorting: each path inserted in turn.
pub open spec fn unsorted_tree(files: Seq<FileDiff>) -> Seq<NodeV>
    decreases files.len(),
{
    if files.len() == 0 {
        seq![]
    } else {
        insert_v(
            unsorted_tree(files.drop_last()),
            path_parts(files.last().path@),
            files.last().stats,
            (files.len() - 1) as usize,
        )
    }
}

// ───────────────────────── sorting ─────────────────────────

/// Lexicographic order of names by code point (the order of `str`).
pub open spec fn name_lt(a: Seq<char>, b: Seq<char>) -> bool
    decreases a.len(),
{
    if a.len() == 0 {
        b.len() > 0
    } else if b.len() == 0 {
        false
    } else if a[0] != b[0] {
        (a[0] as u32) < (b[0] as u32)
    } else {
        name_lt(a.drop_first(), b.drop_first())
    }
}

/// Display order: directories before files, then by name.
pub open spec fn node_lt(x: NodeV, y: NodeV) -> bool {
    ||| (x is Dir && y is File)
    ||| ((x is Dir) == (y is Dir) && name_lt(node_name(x), node_name(y)))
}

/// The position after every entry not above `x` in display order.
pub open spec fn first_above(sorted: Seq<NodeV>, x: NodeV) -> nat
    decreases sorted.len(),
{
    if sorted.len() == 0 || node_lt(x, sorted[0]) {
        0
    } else {
        1 + first_above(sorted.drop_first(), x)
    }
}

/// The nodes in display order (a stable sort).
pub open spec fn sort_level(s: Seq<NodeV>) -> Seq<NodeV>
    decreases s.len(),
{
    if s.len() == 0 {
        s
    } else {
        let sorted = sort_level(s.drop_last());
        sorted.insert(first_above(sorted, s.last()) as int, s.last())
    }
}

/// Every level of the tree in display order.
pub open spec fn sort_tree_v(nodes: Seq<NodeV>) -> Seq<NodeV> {
    sort_level(sort_children(nodes))
}

/// The nodes with the levels below them sorted.
pub open spec fn sort_children(nodes: Seq<NodeV>) -> Seq<NodeV>
    decreases nodes,
{
    if nodes.len() == 0 {
        nodes
    } else {
        sort_children(nodes.drop_last()).push(sort_node(nodes.last()))
    }
}

pub open spec fn sort_node(n: NodeV) -> NodeV
    decreases n,
{
    match n {
        NodeV::Dir { name, path, expanded, children } => NodeV::Dir {
            name,
            path,
            expanded,
            children: sort_level(sort_children(children)),
        },
        _ => n,
    }
}

fn name_lt_exec(a: &Vec<char>, b: &Vec<char>) -> (r: bool)
    ensures
        r == name_lt(a@, b@),
{
    let mut i: usize = 0;
    assert(a@.skip(0) =~= a@);
    assert(b@.skip(0) =~= b@);
    while i < a.len() && i < b.len() && a[i] == b[i]
        invariant
            i <= a.len(),
            i <= b.len(),
            name_lt(a@, b@) == name_lt(a@.skip(i as int), b@.skip(i as int)),
        decreases a.len() - i,
    {
        assert(a@.skip(i as int).drop_first() =~= a@.skip(i + 1));
        assert(b@.skip(i as int).drop_first() =~= b@.skip(i + 1));
        i = i + 1;
    }
    if i == a.len() {
        i < b.len()
    } else if i == b.len() {
        false
    } else {
        assert(a@.skip(i as int)[0] == a@[i as int]);
        assert(b@.skip(i as int)[0] == b@[i as int]);
        (a[i] as u32) < (b[i] as u32)
    }
}

fn node_lt_exec(x: &TreeNode, y: &TreeNode) -> (r: bool)
    ensures
        r == node_lt(node_v(*x), node_v(*y)),
{
    let xd = x.is_directory();
    let yd = y.is_directory();
    if xd && !yd {
        return true;
    }
    if xd != yd {
        return false;
    }
    let xn = chars_of(x.name());
    let yn = chars_of(y.name());
    name_lt_exec(&xn, &yn)
}

proof fn lemma_first_above_props(sorted: Seq<NodeV>, x: NodeV)
    ensures
        first_above(sorted, x) <= sorted.len(),
        forall|k: int| 0 <= k < first_above(sorted, x) ==> !node_lt(x, #[trigger] sorted[k]),
        first_above(sorted, x) < sorted.len() ==> node_lt(x, sorted[first_above(sorted, x) as int]),
    decreases sorted.len(),
{
    if sorted.len() > 0 && !node_lt(x, sorted[0]) {
        lemma_first_above_props(sorted.drop_first(), x);
        assert forall|k: int| 0 <= k < first_above(sorted, x) implies !node_lt(x, #[trigger] sorted[k]) by {
            if k > 0 {
                assert(sorted[k] == sorted.drop_first()[k - 1]);
            }
        }
    }
}

proof fn lemma_nodes_v_insert(v: Seq<TreeNode>, j: int, x: TreeNode)
    requires
        0 <= j <= v.len(),
    ensures
        nodes_v(v.insert(j, x)) == nodes_v(v).insert(j, node_v(x)),
{
    lemma_nodes_v_props(v);
    lemma_nodes_v_props(v.insert(j, x));
    assert(nodes_v(v.insert(j, x)) =~= nodes_v(v).insert(j, node_v(x)));
}

fn sort_level_exec(nodes: Vec<TreeNode>) -> (r: Vec<TreeNode>)
    ensures
        nodes_v(r@) == sort_level(nodes_v(nodes@)),
{
    let ghost orig = nodes@;
    let ghost nv = nodes_v(orig);
    proof {
        lemma_nodes_v_props(orig);
    }
    let mut rest = nodes;
    let mut sorted: Vec<TreeNode> = Vec::new();
    let ghost mut k: int = 0;
    assert(nv.take(0) =~= Seq::<NodeV>::empty());
    assert(nodes_v(sorted@) =~= Seq::<NodeV>::empty());
    assert(rest@ =~= orig.skip(0));
    while rest.len() > 0
        invariant
            0 <= k <= orig.len(),
            rest@ == orig.skip(k),
            nv == nodes_v(orig),
            nv.len() == orig.len(),
            forall|j: int| 0 <= j < orig.len() ==> #[trigger] nv[j] == node_v(orig[j]),
            nodes_v(sorted@) == sort_level(nv.take(k)),
        decreases rest.len(),
    {
        let x = rest.remove(0);
        assert(x == orig[k]);
        let ghost sv = nodes_v(sorted@);
        proof {
            lemma_nodes_v_props(sorted@);
            lemma_first_above_props(sv, node_v(x));
        }
        let mut j: usize = 0;
        while j < sorted.len() && !node_lt_exec(&x, &sorted[j])
            invariant
                j <= sorted@.len(),
                sv == nodes_v(sorted@),
                sv.len() == sorted@.len(),
                forall|m: int| 0 <= m < sorted@.len() ==> #[trigger] sv[m] == node_v(sorted@[m]),
                forall|m: int| 0 <= m < j ==> !node_lt(node_v(x), #[trigger] sv[m]),
                first_above(sv, node_v(x)) <= sv.len(),
                forall|m: int| 0 <= m < first_above(sv, node_v(x)) ==> !node_lt(node_v(x), #[trigger] sv[m]),
                first_above(sv, node_v(x)) < sv.len() ==> node_lt(
                    node_v(x),
                    sv[first_above(sv, node_v(x)) as int],
                ),
            decreases sorted.len() - j,
        {
            assert(sv[j as int] == node_v(sorted@[j as int]));
            j = j + 1;
        }
        proof {
            if j < first_above(sv, node_v(x)) {
                assert(sv[j as int] == node_v(sorted@[j as int]));
            }
            if j > first_above(sv, node_v(x)) {
                let fa = first_above(sv, node_v(x)) as int;
                assert(!node_lt(node_v(x), sv[fa]));
            }
        }
        let ghost before = sorted@;
        sorted.insert(j, x);
        proof {
            lemma_nodes_v_insert(before, j as int, x);
            assert(nv.take(k + 1).drop_last() =~= nv.take(k));
            assert(nv.take(k + 1).last() == node_v(x));
            k = k + 1;
            assert(rest@ =~= orig.skip(k));
        }
    }
    assert(nv.take(k) =~= nv);
    sorted
}

proof fn lemma_sort_children_props(ns: Seq<NodeV>)
    ensures
        sort_children(ns).len() == ns.len(),
        forall|i: int| 0 <= i < ns.len() ==> #[trigger] sort_children(ns)[i] == sort_node(ns[i]),
    decreases ns.len(),
{
    if ns.len() > 0 {
        lemma_sort_children_props(ns.drop_last());
        assert forall|i: int| 0 <= i < ns.len() implies #[trigger] sort_children(ns)[i] == sort_node(ns[i]) by {
            if i < ns.len() - 1 {
                assert(sort_children(ns)[i] == sort_children(ns.drop_last())[i]);
            }
        }
    }
}

fn sort_tree_vec(nodes: Vec<TreeNode>) -> (r: Vec<TreeNode>)
    ensures
        nodes_v(r@) == sort_tree_v(nodes_v(nodes@)),
    decreases nodes@,
{
    let ghost orig = nodes@;
    proof {
        lemma_nodes_v_props(orig);
        lemma_sort_children_props(nodes_v(orig));
    }
    let mut rest = nodes;
    let mut out: Vec<TreeNode> = Vec::new();
    let ghost mut k: int = 0;
    assert(rest@ =~= orig.skip(0));
    while rest.len() > 0
        invariant
            orig == nodes@,
            0 <= k <= orig.len(),
            rest@ == orig.skip(k),
            out@.len() == k,
            nodes_v(orig).len() == orig.len(),
            forall|j: int| 0 <= j < orig.len() ==> #[trigger] nodes_v(orig)[j] == node_v(orig[j]),
            sort_children(nodes_v(orig)).len() == orig.len(),
            forall|j: int|
                0 <= j < orig.len() ==> #[trigger] sort_children(nodes_v(orig))[j] == sort_node(
                    nodes_v(orig)[j],
                ),
            forall|j: int| 0 <= j < k ==> #[trigger] node_v(out@[j]) == sort_node(node_v(orig[j])),
        decreases rest.len(),
    {
        let x = rest.remove(0);
        assert(x == orig[k]);
        let y = match x {
            TreeNode::Directory { name, path, expanded, children } => {
                assert(decreases_to!(orig => orig[k]));
                assert(decreases_to!(orig[k] => children));
                assert(decreases_to!(children => children@));
                assert(decreases_to!(orig => children@));
                let sorted_children = sort_tree_vec(children);
                TreeNode::Directory { name, path, expanded, children: sorted_children }
            },
            TreeNode::File { name, path, stats, change_type, file_index } => TreeNode::File {
                name,
                path,
                stats,
                change_type,
                file_index,
            },
        };
        out.push(y);
        proof {
            k = k + 1;
            assert(rest@ =~= orig.skip(k));
        }
    }
    proof {
        lemma_nodes_v_props(out@);
        assert(nodes_v(out@) =~= sort_children(nodes_v(orig)));
    }
    sort_level_exec(out)
}

/// The tree of the diff's files, each level in display order.
pub fn build_tree(diff: &Diff) -> (r: Vec<TreeNode>)
    ensures
        nodes_v(r@) == sort_tree_v(unsorted_tree(diff.files@)),
{
    let mut root: Vec<TreeNode> = Vec::new();
    let mut i: usize = 0;
    assert(diff.files@.take(0) =~= Seq::<FileDiff>::empty());
    assert(nodes_v(root@) =~= Seq::<NodeV>::empty());
    while i < diff.files.len()
        invariant
            i <= diff.files@.len(),
            nodes_v(root@) == unsorted_tree(diff.files@.take(i as int)),
        decreases diff.files.len() - i,
    {
        let f = &diff.files[i];
        let parts = split_slash(&chars_of_string(&f.path));
        assert(seqs_of(parts@).skip(0) =~= seqs_of(parts@));
        insert_into_tree(&mut root, &parts, 0, f.stats, i);
        assert(diff.files@.take(i + 1).drop_last() =~= diff.files@.take(i as int));
        i = i + 1;
    }
    assert(diff.files@.take(i as int) =~= diff.files@);
    sort_tree_vec(root)
}


// ───────────────────────── filtering and flattening ─────────────────────────

/// Whether some file below matches the (lower-cased) filter by its name.
pub open spec fn has_match_v(nodes: Seq<NodeV>, filter: Seq<char>) -> bool
    decreases nodes,
{
    if nodes.len() == 0 {
        false
    } else {
        has_match_v(nodes.drop_last(), filter) || node_has_match(nodes.last(), filter)
    }
}

pub open spec fn node_has_match(n: NodeV, filter: Seq<char>) -> bool
    decreases n,
{
    match n {
        NodeV::Dir { children, .. } => has_match_v(children, filter),
        NodeV::File { name, .. } => contains_seq(lowercase(name), filter),
    }
}

proof fn lemma_has_match_take(nodes: Seq<NodeV>, filter: Seq<char>, i: int)
    requires
        0 <= i < nodes.len(),
    ensures
        has_match_v(nodes.take(i + 1), filter) == (has_match_v(nodes.take(i), filter) || node_has_match(nodes[i], filter)),
{
    assert(nodes.take(i + 1).drop_last() =~= nodes.take(i));
}

fn directory_has_matching_files(nodes: &Vec<TreeNode>, filter: &Vec<char>) -> (r: bool)
    ensures
        r == has_match_v(nodes_v(nodes@), filter@),
    decreases nodes@,
{
    proof {
        lemma_nodes_v_props(nodes@);
    }
    let ghost nv = nodes_v(nodes@);
    let mut i: usize = 0;
    assert(nv.take(0) =~= Seq::<NodeV>::empty());
    while i < nodes.len()
        invariant
            i <= nodes@.len(),
            nv == nodes_v(nodes@),
            nv.len() == nodes@.len(),
            forall|j: int| 0 <= j < nodes@.len() ==> #[trigger] nv[j] == node_v(nodes@[j]),
            !has_match_v(nv.take(i as int), filter@),
        decreases nodes.len() - i,
    {
        proof {
            lemma_has_match_take(nv, filter@, i as int);
        }
        assert(nv[i as int] == node_v(nodes@[i as int]));
        match &nodes[i] {
            TreeNode::Directory { children, .. } => {
                assert(decreases_to!(nodes@ => nodes@[i as int]));
                assert(decreases_to!(nodes@[i as int] => *children));
                assert(decreases_to!(*children => children@));
                assert(decreases_to!(nodes@ => children@));
                if directory_has_matching_files(children, filter) {
                    assert(has_match_v(nv.take(i + 1), filter@));
                    assert(nv.take(i + 1) =~= nv.take(i + 1));
                    proof {
                        lemma_has_match_prefix(nv, filter@, i + 1);
                    }
                    return true;
                }
            },
            TreeNode::File { name, .. } => {
                let l = chars_of_string(&to_lowercase(name.as_str()));
                if contains_chars(&l, filter) {
                    proof {
                        lemma_has_match_prefix(nv, filter@, i + 1);
                    }
                    return true;
                }
            },
        }
        i = i + 1;
    }
    assert(nv.take(i as int) =~= nv);
    false
}

proof fn lemma_has_match_prefix(nodes: Seq<NodeV>, filter: Seq<char>, k: int)
    requires
        0 <= k <= nodes.len(),
        has_match_v(nodes.take(k), filter),
    ensures
        has_match_v(nodes, filter),
    decreases nodes.len() - k,
{
    if k < nodes.len() {
        lemma_has_match_take(nodes, filter, k);
        lemma_has_match_prefix(nodes, filter, k + 1);
    } else {
        assert(nodes.take(k) =~= nodes);
    }
}

/// A display row of the file tree.
#[derive(Debug, Clone)]
pub struct FlatItem {
    pub depth: usize,
    pub is_directory: bool,
    pub is_expanded: bool,
    pub name: String,
    pub full_path: String,
    pub stats: Option<DiffStats>,
    pub change_type: Option<ChangeType>,
    pub file_index: Option<usize>,
    /// The position of the node in the tree, one index per level.
    pub tree_path: Vec<usize>,
}

/// A display row as plain values.
pub ghost struct FlatV {
    pub depth: int,
    pub is_directory: bool,
    pub is_expanded: bool,
    pub name: Seq<char>,
    pub full_path: Seq<char>,
    pub stats: Option<DiffStats>,
    pub change_type: Option<ChangeType>,
    pub file_index: Option<usize>,
    pub tree_path: Seq<usize>,
}

pub open spec fn flat_item_v(f: FlatItem) -> FlatV {
    FlatV {
        depth: f.depth as int,
        is_directory: f.is_directory,
        is_expanded: f.is_expanded,
        name: f.name@,
        full_path: f.full_path@,
        stats: f.stats,
        change_type: f.change_type,
        file_index: f.file_index,
        tree_path: f.tree_path@,
    }
}

pub open spec fn flat_items_v(s: Seq<FlatItem>) -> Seq<FlatV> {
    s.map_values(|f: FlatItem| flat_item_v(f))
}

/// `parent/name`, or `name` at the top.
pub open spec fn join_path(parent: Seq<char>, name: Seq<char>) -> Seq<char> {
    if parent.len() == 0 {
        name
    } else {
        parent + "/"@ + name
    }
}

/// The rows of a level: each node in turn, with its position appended to
/// `prefix`.
pub open spec fn flat_v(nodes: Seq<NodeV>, depth: int, filter: Seq<char>, prefix: Seq<usize>, parent: Seq<char>) -> Seq<FlatV>
    decreases nodes,
{
    if nodes.len() == 0 {
        seq![]
    } else {
        flat_v(nodes.drop_last(), depth, filter, prefix, parent) + flat_node(
            nodes.last(),
            depth,
            filter,
            prefix.push((nodes.len() - 1) as usize),
            parent,
        )
    }
}

/// The rows of a node: a directory shows when the filter is empty or some
/// file below it matches by name, and its children show when it is
/// expanded; a file shows when the filter is empty or its full path matches.
pub open spec fn flat_node(n: NodeV, depth: int, filter: Seq<char>, path: Seq<usize>, parent: Seq<char>) -> Seq<FlatV>
    decreases n,
{
    match n {
        NodeV::Dir { name, expanded, children, .. } => {
            let full = join_path(parent, name);
            if filter.len() == 0 || has_match_v(children, filter) {
                seq![
                    FlatV {
                        depth,
                        is_directory: true,
                        is_expanded: expanded,
                        name,
                        full_path: full,
                        stats: None,
                        change_type: None,
                        file_index: None,
                        tree_path: path,
                    },
                ] + if expanded {
                    flat_v(children, depth + 1, filter, path, full)
                } else {
                    seq![]
                }
            } else {
                seq![]
            }
        },
        NodeV::File { name, stats, change_type, file_index, .. } => {
            let full = join_path(parent, name);
            if filter.len() == 0 || contains_seq(lowercase(full), filter) {
                seq![
                    FlatV {
                        depth,
                        is_directory: false,
                        is_expanded: false,
                        name,
                        full_path: full,
                        stats: Some(stats),
                        change_type: Some(change_type),
                        file_index: Some(file_index),
                        tree_path: path,
                    },
                ]
            } else {
                seq![]
            }
        },
    }
}

/// The depth of the deepest node.
pub open spec fn height_v(nodes: Seq<NodeV>) -> nat
    decreases nodes,
{
    if nodes.len() == 0 {
        0
    } else {
        let a = height_v(nodes.drop_last());
        let b = node_height(nodes.last());
        if a >= b {
            a
        } else {
            b
        }
    }
}

pub open spec fn node_height(n: NodeV) -> nat
    decreases n,
{
    match n {
        NodeV::Dir { children, .. } => 1 + height_v(children),
        NodeV::File { .. } => 1,
    }
}

proof fn lemma_height_take(nodes: Seq<NodeV>, i: int)
    requires
        0 <= i <= nodes.len(),
    ensures
        height_v(nodes.take(i)) <= height_v(nodes),
        i < nodes.len() ==> node_height(nodes[i]) <= height_v(nodes),
    decreases nodes.len() - i,
{
    if i < nodes.len() {
        lemma_height_take(nodes, i + 1);
        assert(nodes.take(i + 1).drop_last() =~= nodes.take(i));
    } else {
        assert(nodes.take(i) =~= nodes);
    }
}

proof fn lemma_height_update(nodes: Seq<NodeV>, idx: int, n: NodeV)
    requires
        0 <= idx < nodes.len(),
        node_height(n) == node_height(nodes[idx]),
    ensures
        height_v(nodes.update(idx, n)) == height_v(nodes),
    decreases nodes.len(),
{
    let u = nodes.update(idx, n);
    if idx == nodes.len() - 1 {
        assert(u.drop_last() =~= nodes.drop_last());
    } else {
        lemma_height_update(nodes.drop_last(), idx, n);
        assert(u.drop_last() =~= nodes.drop_last().update(idx, n));
    }
}

/// The height of the tree, where it fits in `usize` (`None` where not).
pub fn tree_height(nodes: &Vec<TreeNode>) -> (r: Option<usize>)
    ensures
        height_v(nodes_v(nodes@)) <= usize::MAX ==> r == Some(height_v(nodes_v(nodes@)) as usize),
        height_v(nodes_v(nodes@)) > usize::MAX ==> r is None,
    decreases nodes@,
{
    proof {
        lemma_nodes_v_props(nodes@);
    }
    let ghost nv = nodes_v(nodes@);
    let mut h: usize = 0;
    let mut i: usize = 0;
    assert(nv.take(0) =~= Seq::<NodeV>::empty());
    while i < nodes.len()
        invariant
            i <= nodes@.len(),
            nv == nodes_v(nodes@),
            nv.len() == nodes@.len(),
            forall|j: int| 0 <= j < nodes@.len() ==> #[trigger] nv[j] == node_v(nodes@[j]),
            h == height_v(nv.take(i as int)),
        decreases nodes.len() - i,
    {
        proof {
            lemma_height_take(nv, i as int);
            assert(nv.take(i + 1).drop_last() =~= nv.take(i as int));
            assert(nv.take(i + 1).last() == nv[i as int]);
        }
        assert(nv[i as int] == node_v(nodes@[i as int]));
        let nh: usize = match &nodes[i] {
            TreeNode::Directory { children, .. } => {
                assert(decreases_to!(nodes@ => nodes@[i as int]));
                assert(decreases_to!(nodes@[i as int] => *children));
                assert(decreases_to!(*children => children@));
                assert(decreases_to!(nodes@ => children@));
                match tree_height(children) {
                    Some(c) => {
                        if c < usize::MAX {
                            c + 1
                        } else {
                            return None;
                        }
                    },
                    None => {
                        return None;
                    },
                }
            },
            TreeNode::File { .. } => 1,
        };
        if nh > h {
            h = nh;
        }
        i = i + 1;
    }
    assert(nv.take(i as int) =~= nv);
    Some(h)
}

/// Expanding or collapsing a directory leaves the height of the tree as
/// it was.
pub proof fn lemma_toggle_height(nodes: Seq<NodeV>, path: Seq<usize>)
    ensures
        height_v(toggle_v(nodes, path)) == height_v(nodes),
    decreases path.len(),
{
    if path.len() > 0 && path[0] < nodes.len() {
        let idx = path[0] as int;
        match nodes[idx] {
            NodeV::Dir { name, path: p, expanded, children } => {
                if path.len() == 1 {
                    lemma_height_update(
                        nodes,
                        idx,
                        NodeV::Dir { name, path: p, expanded: !expanded, children },
                    );
                } else {
                    lemma_toggle_height(children, path.drop_first());
                    lemma_height_update(
                        nodes,
                        idx,
                        NodeV::Dir { name, path: p, expanded, children: toggle_v(children, path.drop_first()) },
                    );
                }
            },
            NodeV::File { .. } => {},
        }
    }
}

fn join_path_exec(parent: &Vec<char>, name: &String) -> (r: Vec<char>)
    ensures
        r@ == join_path(parent@, name@),
{
    let nv = chars_of_string(name);
    if parent.len() == 0 {
        return nv;
    }
    let mut r = sub_vec(parent, 0, parent.len());
    r.push('/');
    push_chars(&mut r, &nv);
    proof {
        reveal_strlit("/");
    }
    assert(r@ =~= parent@ + "/"@ + name@);
    r
}

fn clone_path(v: &Vec<usize>) -> (r: Vec<usize>)
    ensures
        r@ == v@,
{
    sub_vec(v, 0, v.len())
}

fn flatten_recursive(
    nodes: &Vec<TreeNode>,
    depth: usize,
    items: &mut Vec<FlatItem>,
    filter: &Vec<char>,
    tree_path: &mut Vec<usize>,
    parent_path: &Vec<char>,
)
    requires
        depth + height_v(nodes_v(nodes@)) <= usize::MAX,
    ensures
        flat_items_v(final(items)@) == flat_items_v(old(items)@) + flat_v(
            nodes_v(nodes@),
            depth as int,
            filter@,
            old(tree_path)@,
            parent_path@,
        ),
        final(tree_path)@ == old(tree_path)@,
    decreases nodes@,
{
    proof {
        lemma_nodes_v_props(nodes@);
    }
    let ghost nv = nodes_v(nodes@);
    let ghost items0 = flat_items_v(items@);
    let ghost prefix = tree_path@;
    let mut i: usize = 0;
    assert(nv.take(0) =~= Seq::<NodeV>::empty());
    assert(flat_items_v(items@) =~= items0 + Seq::<FlatV>::empty());
    while i < nodes.len()
        invariant
            i <= nodes@.len(),
            nv == nodes_v(nodes@),
            nv.len() == nodes@.len(),
            forall|j: int| 0 <= j < nodes@.len() ==> #[trigger] nv[j] == node_v(nodes@[j]),
            depth + height_v(nv) <= usize::MAX,
            tree_path@ == prefix,
            flat_items_v(items@) == items0 + flat_v(nv.take(i as int), depth as int, filter@, prefix, parent_path@),
        decreases nodes.len() - i,
    {
        proof {
            lemma_height_take(nv, i as int);
            assert(nv.take(i + 1).drop_last() =~= nv.take(i as int));
            assert(nv.take(i + 1).last() == nv[i as int]);
        }
        assert(nv[i as int] == node_v(nodes@[i as int]));
        tree_path.push(i);
        let ghost path_i = tree_path@;
        assert(path_i == prefix.push(i));
        let ghost items1 = flat_items_v(items@);
        match &nodes[i] {
            TreeNode::Directory { name, expanded, children, .. } => {
                let full_path = join_path_exec(parent_path, name);
                let has_matching = filter.len() == 0 || directory_has_matching_files(children, filter);
                if has_matching {
                    let item = FlatItem {
                        depth,
                        is_directory: true,
                        is_expanded: *expanded,
                        name: string_of(&chars_of_string(name)),
                        full_path: string_of(&full_path),
                        stats: None,
                        change_type: None,
                        file_index: None,
                        tree_path: clone_path(tree_path),
                    };
                    items.push(item);
                    assert(flat_items_v(items@) =~= items1.push(flat_item_v(item)));
                    if *expanded {
                        assert(decreases_to!(nodes@ => nodes@[i as int]));
                        assert(decreases_to!(nodes@[i as int] => *children));
                        assert(decreases_to!(*children => children@));
                        assert(decreases_to!(nodes@ => children@));
                        flatten_recursive(children, depth + 1, items, filter, tree_path, &full_path);
                    }
                }
            },
            TreeNode::File { name, stats, change_type, file_index, .. } => {
                let full_path = join_path_exec(parent_path, name);
                let fs = string_of(&full_path);
                let keep = filter.len() == 0 || {
                    let l = chars_of_string(&to_lowercase(fs.as_str()));
                    contains_chars(&l, filter)
                };
                if keep {
                    let item = FlatItem {
                        depth,
                        is_directory: false,
                        is_expanded: false,
                        name: string_of(&chars_of_string(name)),
                        full_path: fs,
                        stats: Some(*stats),
                        change_type: Some(*change_type),
                        file_index: Some(*file_index),
                        tree_path: clone_path(tree_path),
                    };
                    items.push(item);
                    assert(flat_items_v(items@) =~= items1.push(flat_item_v(item)));
                }
            },
        }
        assert(flat_items_v(items@) =~= items1 + flat_node(
            nv[i as int],
            depth as int,
            filter@,
            prefix.push(i),
            parent_path@,
        ));
        assert(flat_v(nv.take(i + 1), depth as int, filter@, prefix, parent_path@) == flat_v(
            nv.take(i as int),
            depth as int,
            filter@,
            prefix,
            parent_path@,
        ) + flat_node(nv[i as int], depth as int, filter@, prefix.push(i), parent_path@));
        tree_path.pop();
        assert(tree_path@ =~= prefix);
        i = i + 1;
    }
    assert(nv.take(i as int) =~= nv);
}

/// The rows of the tree for display: expanded directories show their
/// children; a non-empty filter (compared in lower case) keeps the files
/// whose path contains it and the directories with a file whose name does.
pub fn flatten_tree(nodes: &Vec<TreeNode>, filter: &str) -> (r: Vec<FlatItem>)
    requires
        height_v(nodes_v(nodes@)) <= usize::MAX,
    ensures
        flat_items_v(r@) == flat_v(nodes_v(nodes@), 0, lowercase(filter@), seq![], seq![]),
{
    let mut items: Vec<FlatItem> = Vec::new();
    let filter_lower = chars_of_string(&to_lowercase(filter));
    let mut tree_path: Vec<usize> = Vec::new();
    let parent: Vec<char> = Vec::new();
    assert(flat_items_v(items@) =~= Seq::<FlatV>::empty());
    assert(tree_path@ =~= Seq::<usize>::empty());
    assert(parent@ =~= Seq::<char>::empty());
    flatten_recursive(nodes, 0, &mut items, &filter_lower, &mut tree_path, &parent);
    assert(flat_items_v(items@) =~= flat_v(nodes_v(nodes@), 0, lowercase(filter@), seq![], seq![]));
    items
}

// ───────────────────────── expanding and collapsing ─────────────────────────

/// The tree with the directory at `path` flipped between expanded and
/// collapsed (a path to a file, or past the end, changes nothing).
pub open spec fn toggle_v(nodes: Seq<NodeV>, path: Seq<usize>) -> Seq<NodeV>
    decreases path.len(),
{
    if path.len() == 0 || path[0] >= nodes.len() {
        nodes
    } else {
        let idx = path[0] as int;
        match nodes[idx] {
            NodeV::Dir { name, path: p, expanded, children } => if path.len() == 1 {
                nodes.update(idx, NodeV::Dir { name, path: p, expanded: !expanded, children })
            } else {
                nodes.update(
                    idx,
                    NodeV::Dir { name, path: p, expanded, children: toggle_v(children, path.drop_first()) },
                )
            },
            NodeV::File { .. } => nodes,
        }
    }
}

/// Toggles expand/collapse for the directory at the given tree path.
pub fn toggle_directory(nodes: &mut Vec<TreeNode>, tree_path: &[usize])
    ensures
        nodes_v(final(nodes)@) == toggle_v(nodes_v(old(nodes)@), tree_path@),
{
    assert(tree_path@.skip(0) =~= tree_path@);
    toggle_from(nodes, tree_path, 0);
}

fn toggle_from(nodes: &mut Vec<TreeNode>, tree_path: &[usize], from: usize)
    requires
        from <= tree_path@.len(),
    ensures
        nodes_v(final(nodes)@) == toggle_v(nodes_v(old(nodes)@), tree_path@.skip(from as int)),
    decreases tree_path@.len() - from,
{
    proof {
        lemma_nodes_v_props(nodes@);
    }
    let ghost p = tree_path@.skip(from as int);
    if from == tree_path.len() {
        return;
    }
    let idx = tree_path[from];
    assert(p[0] == idx);
    if idx >= nodes.len() {
        return;
    }
    let ghost before = nodes@;
    let node = nodes.remove(idx);
    assert(node_v(node) == nodes_v(before)[idx as int]);
    let nn = match node {
        TreeNode::Directory { name, path, expanded, mut children } => {
            if from + 1 == tree_path.len() {
                TreeNode::Directory { name, path, expanded: !expanded, children }
            } else {
                assert(p.drop_first() =~= tree_path@.skip(from + 1));
                toggle_from(&mut children, tree_path, from + 1);
                TreeNode::Directory { name, path, expanded, children }
            }
        },
        TreeNode::File { name, path, stats, change_type, file_index } => TreeNode::File {
            name,
            path,
            stats,
            change_type,
            file_index,
        },
    };
    nodes.insert(idx, nn);
    proof {
        assert(nodes@ =~= before.update(idx as int, nn));
        lemma_nodes_v_props(nodes@);
        assert(nodes_v(nodes@) =~= toggle_v(nodes_v(before), p));
    }
}

// ───────────────────────── display order ─────────────────────────

proof fn lemma_name_lt_trans(a: Seq<char>, b: Seq<char>, c: Seq<char>)
    requires
        name_lt(a, b),
        name_lt(b, c),
    ensures
        name_lt(a, c),
    decreases a.len(),
{
    if a.len() > 0 && b.len() > 0 && c.len() > 0 {
        if a[0] == b[0] && b[0] == c[0] {
            lemma_name_lt_trans(a.drop_first(), b.drop_first(), c.drop_first());
        }
    }
}

proof fn lemma_name_lt_irrefl(a: Seq<char>)
    ensures
        !name_lt(a, a),
    decreases a.len(),
{
    if a.len() > 0 {
        lemma_name_lt_irrefl(a.drop_first());
    }
}

proof fn lemma_node_lt_trans(x: NodeV, y: NodeV, z: NodeV)
    requires
        node_lt(x, y),
        node_lt(y, z),
    ensures
        node_lt(x, z),
{
    if (x is Dir) == (y is Dir) && (y is Dir) == (z is Dir) {
        lemma_name_lt_trans(node_name(x), node_name(y), node_name(z));
    }
}

/// Whether no node comes after one it should precede.
pub open spec fn in_display_order(s: Seq<NodeV>) -> bool {
    forall|i: int, j: int| 0 <= i < j < s.len() ==> !node_lt(#[trigger] s[j], #[trigger] s[i])
}

/// Each level of the tree shows its directories first, then its files,
/// each group ordered by name.
pub proof fn law_level_in_display_order(s: Seq<NodeV>)
    ensures
        in_display_order(sort_level(s)),
        sort_level(s).len() == s.len(),
    decreases s.len(),
{
    if s.len() > 0 {
        let sorted = sort_level(s.drop_last());
        law_level_in_display_order(s.drop_last());
        let x = s.last();
        lemma_first_above_props(sorted, x);
        let p = first_above(sorted, x) as int;
        let r = sorted.insert(p, x);
        assert(sort_level(s) == r);
        assert forall|i: int, j: int| 0 <= i < j < r.len() implies !node_lt(#[trigger] r[j], #[trigger] r[i]) by {
            if j < p {
                assert(r[i] == sorted[i] && r[j] == sorted[j]);
            } else if j == p {
                assert(r[i] == sorted[i]);
                assert(r[j] == x);
            } else if i < p {
                assert(r[i] == sorted[i] && r[j] == sorted[j - 1]);
            } else if i == p {
                assert(r[j] == sorted[j - 1]);
                assert(r[i] == x);
                if node_lt(sorted[j - 1], x) {
                    lemma_node_lt_trans(sorted[j - 1], x, sorted[p]);
                    if j - 1 == p {
                        lemma_name_lt_irrefl(node_name(x));
                        lemma_name_lt_irrefl(node_name(sorted[p]));
                    } else {
                        assert(!node_lt(sorted[j - 1], sorted[p]));
                    }
                }
            } else {
                assert(r[i] == sorted[i - 1] && r[j] == sorted[j - 1]);
            }
        }
    }
}

/// Whether every level, from this one down, is in display order.
pub open spec fn levels_in_display_order(nodes: Seq<NodeV>) -> bool
    decreases nodes,
{
    &&& in_display_order(nodes)
    &&& forall|k: int|
        0 <= k < nodes.len() ==> match #[trigger] nodes[k] {
            NodeV::Dir { children, .. } => levels_in_display_order(children),
            NodeV::File { .. } => true,
        }
}

proof fn lemma_sort_level_elements(s: Seq<NodeV>)
    ensures
        forall|k: int| 0 <= k < sort_level(s).len() ==> s.contains(#[trigger] sort_level(s)[k]),
    decreases s.len(),
{
    if s.len() > 0 {
        lemma_sort_level_elements(s.drop_last());
        law_level_in_display_order(s.drop_last());
        let sorted = sort_level(s.drop_last());
        lemma_first_above_props(sorted, s.last());
        let p = first_above(sorted, s.last()) as int;
        let r = sorted.insert(p, s.last());
        assert forall|k: int| 0 <= k < r.len() implies s.contains(#[trigger] r[k]) by {
            if k < p {
                assert(r[k] == sorted[k]);
                assert(s.drop_last().contains(sorted[k]));
            } else if k == p {
                assert(r[k] == s[s.len() - 1]);
            } else {
                assert(r[k] == sorted[k - 1]);
                assert(s.drop_last().contains(sorted[k - 1]));
            }
        }
    }
}

proof fn lemma_sort_children_elements(nodes: Seq<NodeV>)
    ensures
        sort_children(nodes).len() == nodes.len(),
        forall|k: int| 0 <= k < nodes.len() ==> #[trigger] sort_children(nodes)[k] == sort_node(nodes[k]),
    decreases nodes.len(),
{
    if nodes.len() > 0 {
        lemma_sort_children_elements(nodes.drop_last());
    }
}

/// The tree as built is in display order at every level: in each
/// directory, the directories before the files, each group by name.
pub proof fn law_tree_in_display_order(nodes: Seq<NodeV>)
    ensures
        levels_in_display_order(sort_tree_v(nodes)),
    decreases nodes,
{
    let c = sort_children(nodes);
    let r = sort_level(c);
    law_level_in_display_order(c);
    lemma_sort_level_elements(c);
    lemma_sort_children_elements(nodes);
    assert forall|k: int| 0 <= k < r.len() implies match #[trigger] r[k] {
        NodeV::Dir { children, .. } => levels_in_display_order(children),
        NodeV::File { .. } => true,
    } by {
        let e = r[k];
        assert(c.contains(e));
        let m = choose|m: int| 0 <= m < c.len() && c[m] == e;
        assert(c[m] == sort_node(nodes[m]));
        match nodes[m] {
            NodeV::Dir { children, .. } => {
                assert(decreases_to!(nodes => nodes[m]));
                law_tree_in_display_order(children);
            },
            NodeV::File { .. } => {},
        }
    }
}

// ───────────────────────── one leaf per file ─────────────────────────

/// The file indices of the leaves under the nodes.
pub open spec fn leaf_indices(nodes: Seq<NodeV>) -> Multiset<usize>
    decreases nodes,
{
    if nodes.len() == 0 {
        Multiset::empty()
    } else {
        leaf_indices(nodes.drop_last()).add(
            match nodes.last() {
                NodeV::Dir { children, .. } => leaf_indices(children),
                NodeV::File { file_index, .. } => Multiset::singleton(file_index),
            },
        )
    }
}

pub open spec fn node_leaf_indices(n: NodeV) -> Multiset<usize> {
    leaf_indices(seq![n])
}

/// The indices `0..n`, each once.
pub open spec fn first_indices(n: nat) -> Multiset<usize>
    decreases n,
{
    if n == 0 {
        Multiset::empty()
    } else {
        first_indices((n - 1) as nat).insert((n - 1) as usize)
    }
}

proof fn lemma_leaves_concat(a: Seq<NodeV>, b: Seq<NodeV>)
    ensures
        leaf_indices(a + b) == leaf_indices(a).add(leaf_indices(b)),
    decreases b.len(),
{
    if b.len() == 0 {
        assert(a + b =~= a);
        assert(leaf_indices(a).add(Multiset::empty()) =~= leaf_indices(a));
    } else {
        lemma_leaves_concat(a, b.drop_last());
        assert((a + b).drop_last() =~= a + b.drop_last());
        assert(seq![b.last()].drop_last() =~= Seq::<NodeV>::empty());
        assert(leaf_indices(a).add(leaf_indices(b.drop_last())).add(node_leaf_indices(b.last())) =~= leaf_indices(
            a,
        ).add(leaf_indices(b.drop_last()).add(node_leaf_indices(b.last()))));
    }
}

proof fn lemma_leaves_one(n: NodeV)
    ensures
        node_leaf_indices(n) == match n {
            NodeV::Dir { children, .. } => leaf_indices(children),
            NodeV::File { file_index, .. } => Multiset::singleton(file_index),
        },
{
    let s = seq![n];
    assert(s.drop_last() =~= Seq::<NodeV>::empty());
    assert(s.last() == n);
    assert(leaf_indices(Seq::<NodeV>::empty()) == Multiset::<usize>::empty());
    assert(leaf_indices(s) == leaf_indices(s.drop_last()).add(
        match s.last() {
            NodeV::Dir { children, .. } => leaf_indices(children),
            NodeV::File { file_index, .. } => Multiset::singleton(file_index),
        },
    ));
    assert(Multiset::<usize>::empty().add(
        match n {
            NodeV::Dir { children, .. } => leaf_indices(children),
            NodeV::File { file_index, .. } => Multiset::singleton(file_index),
        },
    ) =~= match n {
        NodeV::Dir { children, .. } => leaf_indices(children),
        NodeV::File { file_index, .. } => Multiset::singleton(file_index),
    });
}

/// Replacing one node changes the leaves by that node's leaves.
proof fn lemma_leaves_update(nodes: Seq<NodeV>, k: int, n: NodeV)
    requires
        0 <= k < nodes.len(),
    ensures
        leaf_indices(nodes.update(k, n)).add(node_leaf_indices(nodes[k])) == leaf_indices(nodes).add(
            node_leaf_indices(n),
        ),
{
    let pre = nodes.take(k);
    let post = nodes.skip(k + 1);
    assert(nodes =~= pre + seq![nodes[k]] + post);
    assert(nodes.update(k, n) =~= pre + seq![n] + post);
    lemma_leaves_concat(pre + seq![nodes[k]], post);
    lemma_leaves_concat(pre, seq![nodes[k]]);
    lemma_leaves_concat(pre + seq![n], post);
    lemma_leaves_concat(pre, seq![n]);
    let (a, b, x, y) = (leaf_indices(pre), leaf_indices(post), node_leaf_indices(nodes[k]), node_leaf_indices(n));
    assert(a.add(y).add(b).add(x) =~= a.add(x).add(b).add(y));
}

/// Adding a file adds its index once to the leaves.
proof fn lemma_insert_leaves(nodes: Seq<NodeV>, parts: Seq<Seq<char>>, stats: DiffStats, idx: usize)
    requires
        parts.len() > 0,
    ensures
        leaf_indices(insert_v(nodes, parts, stats, idx)) == leaf_indices(nodes).insert(idx),
    decreases parts.len(),
{
    if parts.len() == 1 {
        let f = NodeV::File { name: parts[0], path: parts[0], stats, change_type: change_of(stats), file_index: idx };
        assert(nodes.push(f).drop_last() =~= nodes);
        assert(leaf_indices(nodes).add(Multiset::singleton(idx)) =~= leaf_indices(nodes).insert(idx));
    } else {
        lemma_dir_index(nodes, parts[0]);
        match dir_index(nodes, parts[0]) {
            Some(k) => match nodes[k] {
                NodeV::Dir { name, path, expanded, children } => {
                    let c2 = insert_v(children, parts.drop_first(), stats, idx);
                    let n2 = NodeV::Dir { name, path, expanded, children: c2 };
                    lemma_insert_leaves(children, parts.drop_first(), stats, idx);
                    lemma_leaves_update(nodes, k, n2);
                    lemma_leaves_one(nodes[k]);
                    lemma_leaves_one(n2);
                    let u = leaf_indices(nodes.update(k, n2));
                    let x = leaf_indices(children);
                    let l = leaf_indices(nodes);
                    assert(u.add(x) == l.add(x.insert(idx)));
                    assert forall|v: usize| u.count(v) == l.insert(idx).count(v) by {
                        assert(u.add(x).count(v) == u.count(v) + x.count(v));
                        assert(l.add(x.insert(idx)).count(v) == l.count(v) + x.insert(idx).count(v));
                    }
                    assert(u =~= l.insert(idx));
                },
                _ => {},
            },
            None => {
                lemma_insert_leaves(seq![], parts.drop_first(), stats, idx);
                let d = NodeV::Dir {
                    name: parts[0],
                    path: parts[0],
                    expanded: true,
                    children: insert_v(seq![], parts.drop_first(), stats, idx),
                };
                assert(nodes.push(d).drop_last() =~= nodes);
                assert(leaf_indices(Seq::<NodeV>::empty()) =~= Multiset::<usize>::empty());
                assert(leaf_indices(nodes).add(Multiset::<usize>::empty().insert(idx)) =~= leaf_indices(nodes).insert(
                    idx,
                ));
            },
        }
    }
}

proof fn lemma_path_parts_nonempty(s: Seq<char>, cur: Seq<char>)
    ensures
        split_slash_from(s, cur).len() > 0,
    decreases s.len(),
{
    if s.len() > 0 {
        lemma_path_parts_nonempty(s.drop_first(), if s[0] == '/' { seq![] } else { cur.push(s[0]) });
    }
}

proof fn lemma_unsorted_leaves(files: Seq<FileDiff>)
    ensures
        leaf_indices(unsorted_tree(files)) == first_indices(files.len()),
    decreases files.len(),
{
    if files.len() > 0 {
        lemma_unsorted_leaves(files.drop_last());
        lemma_path_parts_nonempty(files.last().path@, seq![]);
        lemma_insert_leaves(
            unsorted_tree(files.drop_last()),
            path_parts(files.last().path@),
            files.last().stats,
            (files.len() - 1) as usize,
        );
    } else {
        assert(leaf_indices(Seq::<NodeV>::empty()) =~= Multiset::<usize>::empty());
    }
}

proof fn lemma_sort_level_leaves(s: Seq<NodeV>)
    ensures
        leaf_indices(sort_level(s)) == leaf_indices(s),
    decreases s.len(),
{
    if s.len() > 0 {
        lemma_sort_level_leaves(s.drop_last());
        let sorted = sort_level(s.drop_last());
        lemma_first_above_props(sorted, s.last());
        let p = first_above(sorted, s.last()) as int;
        let pre = sorted.take(p);
        let post = sorted.skip(p);
        assert(sorted =~= pre + post);
        assert(sorted.insert(p, s.last()) =~= pre + seq![s.last()] + post);
        lemma_leaves_concat(pre, post);
        lemma_leaves_concat(pre + seq![s.last()], post);
        lemma_leaves_concat(pre, seq![s.last()]);
        let (a, b, x) = (leaf_indices(pre), leaf_indices(post), node_leaf_indices(s.last()));
        assert(a.add(x).add(b) =~= a.add(b).add(x));
        lemma_leaves_one(s.last());
    }
}

proof fn lemma_sort_children_leaves(nodes: Seq<NodeV>)
    ensures
        leaf_indices(sort_children(nodes)) == leaf_indices(nodes),
    decreases nodes,
{
    if nodes.len() > 0 {
        lemma_sort_children_leaves(nodes.drop_last());
        let n = nodes.last();
        let sc = sort_children(nodes);
        assert(sc == sort_children(nodes.drop_last()).push(sort_node(n)));
        assert(sc.drop_last() =~= sort_children(nodes.drop_last()));
        assert(sc.last() == sort_node(n));
        match n {
            NodeV::Dir { children, .. } => {
                assert(decreases_to!(nodes => nodes[nodes.len() - 1]));
                lemma_sort_children_leaves(children);
                lemma_sort_level_leaves(sort_children(children));
            },
            NodeV::File { .. } => {},
        }
    }
}

/// The tree has one leaf per file of the diff: the leaves' file indices
/// are `0..n`, each once.
pub proof fn law_one_leaf_per_file(files: Seq<FileDiff>)
    ensures
        leaf_indices(sort_tree_v(unsorted_tree(files))) == first_indices(files.len()),
{
    let t = unsorted_tree(files);
    lemma_unsorted_leaves(files);
    lemma_sort_children_leaves(t);
    lemma_sort_level_leaves(sort_children(t));
}

/// Expanding or collapsing the same directory twice gives back the tree.
pub proof fn law_toggle_twice(nodes: Seq<NodeV>, path: Seq<usize>)
    ensures
        toggle_v(toggle_v(nodes, path), path) == nodes,
    decreases path.len(),
{
    if path.len() > 0 && path[0] < nodes.len() {
        let idx = path[0] as int;
        match nodes[idx] {
            NodeV::Dir { name, path: p, expanded, children } => {
                if path.len() == 1 {
                    let once = nodes.update(idx, NodeV::Dir { name, path: p, expanded: !expanded, children });
                    assert(once[idx] == NodeV::Dir { name, path: p, expanded: !expanded, children });
                    assert(once.update(idx, NodeV::Dir { name, path: p, expanded, children }) =~= nodes);
                } else {
                    law_toggle_twice(children, path.drop_first());
                    let inner = toggle_v(children, path.drop_first());
                    let once = nodes.update(idx, NodeV::Dir { name, path: p, expanded, children: inner });
                    assert(once[idx] == NodeV::Dir { name, path: p, expanded, children: inner });
                    assert(once.update(idx, NodeV::Dir { name, path: p, expanded, children: toggle_v(inner, path.drop_first()) }) =~= nodes);
                }
            },
            NodeV::File { .. } => {},
        }
    }
}

// ───────────────────────── what the filter keeps ─────────────────────────

/// The node reached from `n` by going down to the children at `route`,
/// one index per level.
pub open spec fn node_at(n: NodeV, route: Seq<usize>) -> Option<NodeV>
    decreases route.len(),
{
    if route.len() == 0 {
        Some(n)
    } else {
        match n {
            NodeV::Dir { children, .. } => if route[0] < children.len() {
                node_at(children[route[0] as int], route.drop_first())
            } else {
                None
            },
            NodeV::File { .. } => None,
        }
    }
}

/// Every directory on the way down `route` from `n` is expanded.
pub open spec fn open_along(n: NodeV, route: Seq<usize>) -> bool
    decreases route.len(),
{
    if route.len() == 0 {
        true
    } else {
        match n {
            NodeV::Dir { expanded, children, .. } => expanded && route[0] < children.len() && open_along(
                children[route[0] as int],
                route.drop_first(),
            ),
            NodeV::File { .. } => false,
        }
    }
}

/// The node at `route` is a file whose lower-cased name contains `filter`.
pub open spec fn matching_file_at(n: NodeV, route: Seq<usize>, filter: Seq<char>) -> bool {
    node_at(n, route) matches Some(NodeV::File { name, .. }) && contains_seq(lowercase(name), filter)
}

/// Whether some row of `rows` is a directory row at `tree_path`.
pub open spec fn has_dir_row(rows: Seq<FlatV>, tree_path: Seq<usize>) -> bool {
    exists|k: int| 0 <= k < rows.len() && (#[trigger] rows[k]).is_directory && rows[k].tree_path == tree_path
}

proof fn lemma_matching_file_below(n: NodeV, route: Seq<usize>, filter: Seq<char>)
    requires
        matching_file_at(n, route, filter),
    ensures
        node_has_match(n, filter),
    decreases route.len(),
{
    if route.len() > 0 {
        match n {
            NodeV::Dir { children, .. } => {
                let i = route[0] as int;
                lemma_matching_file_below(children[i], route.drop_first(), filter);
                lemma_has_match_take(children, filter, i);
                lemma_has_match_prefix(children, filter, i + 1);
            },
            NodeV::File { .. } => {},
        }
    }
}

proof fn lemma_level_has_node_rows(nodes: Seq<NodeV>, depth: int, filter: Seq<char>, prefix: Seq<usize>, parent: Seq<char>, i: int, tree_path: Seq<usize>)
    requires
        0 <= i < nodes.len(),
        has_dir_row(flat_node(nodes[i], depth, filter, prefix.push(i as usize), parent), tree_path),
    ensures
        has_dir_row(flat_v(nodes, depth, filter, prefix, parent), tree_path),
    decreases nodes.len(),
{
    let head = flat_v(nodes.drop_last(), depth, filter, prefix, parent);
    let all = flat_v(nodes, depth, filter, prefix, parent);
    if i == nodes.len() - 1 {
        let rows = flat_node(nodes[i], depth, filter, prefix.push(i as usize), parent);
        let k = choose|k: int| 0 <= k < rows.len() && (#[trigger] rows[k]).is_directory && rows[k].tree_path == tree_path;
        assert(all[head.len() + k] == rows[k]);
    } else {
        assert(nodes.drop_last()[i] == nodes[i]);
        lemma_level_has_node_rows(nodes.drop_last(), depth, filter, prefix, parent, i, tree_path);
        let k = choose|k: int| 0 <= k < head.len() && (#[trigger] head[k]).is_directory && head[k].tree_path == tree_path;
        assert(all[k] == head[k]);
    }
}

proof fn lemma_ancestor_rows(n: NodeV, depth: int, filter: Seq<char>, path: Seq<usize>, parent: Seq<char>, route: Seq<usize>, j: int)
    requires
        matching_file_at(n, route, filter),
        0 <= j < route.len(),
        open_along(n, route.take(j)),
    ensures
        has_dir_row(flat_node(n, depth, filter, path, parent), path + route.take(j)),
    decreases route.len(),
{
    match n {
        NodeV::Dir { name, expanded, children, .. } => {
            lemma_matching_file_below(n, route, filter);
            let rows = flat_node(n, depth, filter, path, parent);
            if j == 0 {
                assert(path + route.take(0) =~= path);
                assert(rows[0].is_directory && rows[0].tree_path == path);
            } else {
                let r0 = route[0];
                let c = children[r0 as int];
                let rest = route.drop_first();
                assert(route.take(j).drop_first() =~= rest.take(j - 1));
                assert(route.take(j)[0] == r0);
                lemma_ancestor_rows(c, depth + 1, filter, path.push(r0), join_path(parent, name), rest, j - 1);
                assert(path.push(r0) + rest.take(j - 1) =~= path + route.take(j));
                lemma_level_has_node_rows(children, depth + 1, filter, path, join_path(parent, name), r0 as int, path + route.take(j));
                let sub = flat_v(children, depth + 1, filter, path, join_path(parent, name));
                let k = choose|k: int| 0 <= k < sub.len() && (#[trigger] sub[k]).is_directory && sub[k].tree_path == path + route.take(j);
                assert(rows[1 + k] == sub[k]);
            }
        },
        NodeV::File { .. } => {},
    }
}

/// A file whose lower-cased name contains the filter keeps every
/// directory above it in the rows: the directory at the top of the route
/// and each one below it down to the file, as far as the directories on
/// the way are expanded, each with its own position in the tree.
pub proof fn law_filter_keeps_ancestors(nodes: Seq<NodeV>, filter: Seq<char>, i: int, route: Seq<usize>, j: int)
    requires
        0 <= i < nodes.len(),
        matching_file_at(nodes[i], route, filter),
        0 <= j < route.len(),
        open_along(nodes[i], route.take(j)),
    ensures
        has_dir_row(flat_v(nodes, 0, filter, seq![], seq![]), seq![i as usize] + route.take(j)),
{
    lemma_ancestor_rows(nodes[i], 0, filter, seq![i as usize], seq![], route, j);
    assert(Seq::<usize>::empty().push(i as usize) =~= seq![i as usize]);
    lemma_level_has_node_rows(nodes, 0, filter, seq![], seq![], i, seq![i as usize] + route.take(j));
}

} // verus!
