//! The fingerprint builder: the ordered API calls of a class, their
//! content hash, and the package tree that organizes class
//! fingerprints by namespace.
//!
//! The content hash digests the API list in call order, not sorted:
//! the order instructions appear in is part of the fingerprint's
//! identity.

use vstd::prelude::*;
use vstd::slice::slice_to_vec;
use vstd::utf8::encode_utf8;

use crate::callgraph::{spec_invoked_names, get_invoked_methods_names, SymbolTables};
use crate::digest::{md5_digest, md5_of};
use crate::textfmt::{hex_encode, spec_hex, find_char, lemma_find, spec_find};

verus! {

/// The hierarchical namespace index of class fingerprints.
///
/// The root is a branch named `L`; a class with descriptor
/// `La/b/C;` hangs as the leaf `a/b/C` under the branches `a` and
/// `a/b`.  A node's name is its full path; a child's name extends
/// its parent's by one `/`-separated segment.
pub enum Tree {
    /// An interior namespace node.
    Branch {
        /// The full path of this node.
        name: String,
        /// The child nodes, at most one branch and one leaf per
        /// path segment.
        children: Vec<Tree>,
    },
    /// One class's fingerprint.
    Leaf {
        /// The full path of this node, matching the class
        /// descriptor without its `L` prefix and `;` suffix.
        name: String,
        /// The class's content hash.
        hash: Vec<u8>,
        /// The class's API-call count.
        weight: usize,
    },
}

/// Why a leaf could not be inserted.
#[derive(Clone, Copy, PartialEq, Eq, Structural, Debug)]
pub enum TreeError {
    /// The class name is no slash-delimited type descriptor of the
    /// form `Lsegment/…/segment;` with nonempty segments.
    BadDescriptor,
}

/// The full path of a node.
pub open spec fn node_name(t: Tree) -> Seq<char> {
    match t {
        Tree::Branch { name, .. } => name@,
        Tree::Leaf { name, .. } => name@,
    }
}

/// Whether a node is a leaf.
pub open spec fn is_leaf(t: Tree) -> bool {
    t is Leaf
}

/// What one leaf stores: the content hash and the weight.
pub open spec fn leaf_data(t: Tree) -> (Seq<u8>, int) {
    match t {
        Tree::Leaf { hash, weight, .. } => (hash@, weight as int),
        Tree::Branch { .. } => (Seq::empty(), 0),
    }
}

/// The classes a subtree holds: full path to hash and weight.
pub open spec fn leaves(t: Tree) -> Map<Seq<char>, (Seq<u8>, int)>
    decreases t,
{
    match t {
        Tree::Leaf { name, hash, weight } => Map::empty().insert(name@, (hash@, weight as int)),
        Tree::Branch { children, .. } => leaves_of(children@),
    }
}

/// The classes a forest holds.
pub open spec fn leaves_of(s: Seq<Tree>) -> Map<Seq<char>, (Seq<u8>, int)>
    decreases s,
{
    if s.len() == 0 {
        Map::empty()
    } else {
        leaves_of(s.drop_last()).union_prefer_right(leaves(s.last()))
    }
}

/// A valid path segment: nonempty, without a separator.
pub open spec fn seg_valid(s: Seq<char>) -> bool {
    s.len() > 0 && !s.contains('/')
}

/// A node under `prefix` is named `prefix` plus one valid segment,
/// and its children are in order under its own name.
pub open spec fn wf(t: Tree, prefix: Seq<char>) -> bool
    decreases t,
{
    &&& node_name(t).len() > prefix.len()
    &&& node_name(t).take(prefix.len() as int) == prefix
    &&& seg_valid(node_name(t).skip(prefix.len() as int))
    &&& match t {
        Tree::Leaf { .. } => true,
        Tree::Branch { name, children } => children_ok(children@, name@ + seq!['/']),
    }
}

/// A forest of siblings under a common prefix: each node
/// well-formed, no two of the same kind sharing a name.
pub open spec fn children_ok(s: Seq<Tree>, prefix: Seq<char>) -> bool
    decreases s,
{
    &&& forall|i: int| 0 <= i < s.len() ==> wf(#[trigger] s[i], prefix)
    &&& forall|i: int, j: int|
        0 <= i < j < s.len() ==> !(is_leaf(s[i]) == is_leaf(s[j]) && node_name(s[i]) == node_name(
            s[j],
        ))
}

/// A well-formed package tree: a root branch named `L` whose
/// children are named by their first segment alone.
pub open spec fn wf_root(t: Tree) -> bool {
    match t {
        Tree::Branch { name, children } => name@ == "L"@ && children_ok(
            children@,
            Seq::empty(),
        ),
        Tree::Leaf { .. } => false,
    }
}

/// The classes a package tree holds.
pub open spec fn tree_leaves(t: Tree) -> Map<Seq<char>, (Seq<u8>, int)> {
    leaves(t)
}

/// The parts of `s` between occurrences of `c`.
pub open spec fn spec_split(s: Seq<char>, c: char) -> Seq<Seq<char>>
    decreases s.len(),
    via spec_split_dec
{
    match spec_find(s, c) {
        None => seq![s],
        Some(i) => seq![s.take(i)] + spec_split(s.skip(i + 1), c),
    }
}

#[via_fn]
proof fn spec_split_dec(s: Seq<char>, c: char) {
    lemma_find(s, c);
}

/// Joining path segments with separators.
pub open spec fn join_path(segs: Seq<Seq<char>>) -> Seq<char>
    decreases segs.len(),
{
    if segs.len() == 0 {
        Seq::empty()
    } else if segs.len() == 1 {
        segs[0]
    } else {
        segs[0] + seq!['/'] + join_path(segs.drop_first())
    }
}

/// A class descriptor the tree accepts: `L`, one or more nonempty
/// `/`-separated segments, `;`.
pub open spec fn is_class_descriptor(s: Seq<char>) -> bool {
    &&& s.len() >= 3
    &&& s[0] == 'L'
    &&& s.last() == ';'
    &&& forall|i: int|
        0 <= i < spec_split(descriptor_path(s), '/').len() ==> seg_valid(
            #[trigger] spec_split(descriptor_path(s), '/')[i],
        )
}

/// The full leaf path a descriptor names: everything between the
/// `L` and the `;`.
pub open spec fn descriptor_path(s: Seq<char>) -> Seq<char> {
    s.subrange(1, s.len() - 1)
}

/// `k` strictly extends `n`: it continues `n` past a separator.
pub open spec fn strict_ext(n: Seq<char>, k: Seq<char>) -> bool {
    k.len() > n.len() && k.take(n.len() as int) == n && k[n.len() as int] == '/'
}

/// Where a node's leaf keys may live: a leaf holds exactly its own
/// name, a branch holds only strict extensions of its name.
pub open spec fn in_scope(t: Tree, k: Seq<char>) -> bool {
    if is_leaf(t) {
        k == node_name(t)
    } else {
        strict_ext(node_name(t), k)
    }
}

/// Every key a well-formed node holds is in its scope.
proof fn lemma_leaves_scope(t: Tree, prefix: Seq<char>)
    requires
        wf(t, prefix),
    ensures
        forall|k: Seq<char>| #[trigger] leaves(t).dom().contains(k) ==> in_scope(t, k),
    decreases t,
{
    match t {
        Tree::Leaf { .. } => {},
        Tree::Branch { name, children } => {
            let p1 = name@ + seq!['/'];
            lemma_leaves_of_scope(children@, p1);
            assert forall|k: Seq<char>| #[trigger]
                leaves(t).dom().contains(k) implies in_scope(t, k) by {
                assert(leaves_of(children@).dom().contains(k));
                let i = choose|i: int|
                    0 <= i < children@.len() && in_scope(#[trigger] children@[i], k);
                let c = children@[i];
                assert(wf(c, p1));
                let cn = node_name(c);
                assert(cn.take(p1.len() as int) == p1);
                assert(cn[name@.len() as int] == p1[name@.len() as int]);
                assert(cn.take(name@.len() as int) =~= name@);
                if is_leaf(c) {
                    assert(k == cn);
                    assert(strict_ext(name@, k));
                } else {
                    assert(k.take(cn.len() as int) == cn);
                    assert(k.take(name@.len() as int) =~= name@);
                    assert(k[name@.len() as int] == cn[name@.len() as int]);
                    assert(strict_ext(name@, k));
                }
            }
        },
    }
}

/// Every key a well-formed forest holds is in some sibling's scope.
proof fn lemma_leaves_of_scope(s: Seq<Tree>, prefix: Seq<char>)
    requires
        children_ok(s, prefix),
    ensures
        forall|k: Seq<char>| #[trigger]
            leaves_of(s).dom().contains(k) ==> exists|i: int|
                0 <= i < s.len() && in_scope(#[trigger] s[i], k),
    decreases s,
{
    if s.len() > 0 {
        assert(children_ok(s.drop_last(), prefix));
        lemma_leaves_of_scope(s.drop_last(), prefix);
        lemma_leaves_scope(s.last(), prefix);
        assert forall|k: Seq<char>| #[trigger]
            leaves_of(s).dom().contains(k) implies exists|i: int|
            0 <= i < s.len() && in_scope(#[trigger] s[i], k) by {
            if leaves(s.last()).dom().contains(k) {
                assert(in_scope(s[s.len() - 1], k));
            } else {
                assert(leaves_of(s.drop_last()).dom().contains(k));
                let i = choose|i: int|
                    0 <= i < s.drop_last().len() && in_scope(#[trigger] s.drop_last()[i], k);
                assert(in_scope(s[i], k));
            }
        }
    }
}

/// The key sits on a segment boundary of `n`: it starts with `n`
/// and either ends there or continues with a separator.
pub open spec fn on_boundary(n: Seq<char>, k: Seq<char>) -> bool {
    k.len() >= n.len() && k.take(n.len() as int) == n && (k.len() == n.len() || k[n.len() as int]
        == '/')
}

/// Two siblings that are not the same node share no key.
proof fn lemma_scope_disjoint(c1: Tree, c2: Tree, prefix: Seq<char>, k: Seq<char>)
    requires
        wf(c1, prefix),
        wf(c2, prefix),
        !(is_leaf(c1) == is_leaf(c2) && node_name(c1) == node_name(c2)),
    ensures
        !(in_scope(c1, k) && in_scope(c2, k)),
{
    if in_scope(c1, k) && in_scope(c2, k) {
        let n1 = node_name(c1);
        let n2 = node_name(c2);
        // In either kind the key sits on the name's boundary.
        assert(on_boundary(n1, k)) by {
            if is_leaf(c1) {
                assert(k.take(n1.len() as int) =~= n1);
            }
        }
        assert(on_boundary(n2, k)) by {
            if is_leaf(c2) {
                assert(k.take(n2.len() as int) =~= n2);
            }
        }
        if n1.len() < n2.len() {
            lemma_name_boundary(prefix, n1, n2, k);
        } else if n2.len() < n1.len() {
            lemma_name_boundary(prefix, n2, n1, k);
        } else {
            assert(n1 =~= n2);
            // Same name, so the kinds differ: one holds exactly the
            // name, the other only longer keys.
            if is_leaf(c1) {
                assert(k.len() == n1.len());
                assert(k.len() > n2.len());
            } else {
                assert(k.len() == n2.len());
                assert(k.len() > n1.len());
            }
        }
    }
}

/// Two sibling names of different lengths cannot both sit on a
/// segment boundary of the same key.
proof fn lemma_name_boundary(prefix: Seq<char>, na: Seq<char>, nb: Seq<char>, k: Seq<char>)
    requires
        na.len() < nb.len(),
        na.len() > prefix.len(),
        na.take(prefix.len() as int) == prefix,
        seg_valid(na.skip(prefix.len() as int)),
        nb.len() > prefix.len(),
        nb.take(prefix.len() as int) == prefix,
        seg_valid(nb.skip(prefix.len() as int)),
        on_boundary(na, k),
    ensures
        !on_boundary(nb, k),
{
    if on_boundary(nb, k) {
        // The key continues past `na`, so a separator stands there;
        // but that position lies inside `nb`'s separator-free
        // segment.
        assert(k.len() >= nb.len());
        assert(k[na.len() as int] == '/');
        assert(nb[na.len() as int] == k[na.len() as int]);
        let segb = nb.skip(prefix.len() as int);
        assert(segb[na.len() - prefix.len()] == nb[na.len() as int]);
        assert(segb.contains('/'));
    }
}

/// Replacing one sibling's leaves pointwise replaces the forest's.
proof fn lemma_leaves_of_update(
    s: Seq<Tree>,
    idx: int,
    c: Tree,
    key: Seq<char>,
    v: (Seq<u8>, int),
)
    requires
        0 <= idx < s.len(),
        leaves(c) == leaves(s[idx]).insert(key, v),
        forall|j: int| 0 <= j < s.len() && j != idx ==> !leaves(#[trigger] s[j]).dom().contains(
            key,
        ),
    ensures
        leaves_of(s.update(idx, c)) == leaves_of(s).insert(key, v),
    decreases s,
{
    let s2 = s.update(idx, c);
    if idx == s.len() - 1 {
        assert(s2.drop_last() =~= s.drop_last());
        assert(s2.last() == c);
        assert(leaves_of(s.drop_last()).union_prefer_right(leaves(s[idx]).insert(key, v))
            =~= leaves_of(s.drop_last()).union_prefer_right(leaves(s[idx])).insert(key, v));
    } else {
        assert(s2.drop_last() =~= s.drop_last().update(idx, c));
        assert(s2.last() == s.last());
        assert(s.drop_last()[idx] == s[idx]);
        assert(forall|j: int|
            0 <= j < s.drop_last().len() && j != idx ==> !leaves(
                #[trigger] s.drop_last()[j],
            ).dom().contains(key));
        lemma_leaves_of_update(s.drop_last(), idx, c, key, v);
        assert(!leaves(s.last()).dom().contains(key));
        assert(leaves_of(s.drop_last()).insert(key, v).union_prefer_right(leaves(s.last()))
            =~= leaves_of(s.drop_last()).union_prefer_right(leaves(s.last())).insert(key, v));
    }
}

/// Appending a sibling adds its leaves on the right.
proof fn lemma_leaves_of_push(s: Seq<Tree>, c: Tree)
    ensures
        leaves_of(s.push(c)) == leaves_of(s).union_prefer_right(leaves(c)),
{
    assert(s.push(c).drop_last() =~= s);
    assert(s.push(c).last() == c);
}

/// No part of a split contains the separator.
proof fn lemma_split_no_sep(s: Seq<char>, c: char)
    ensures
        forall|i: int|
            0 <= i < spec_split(s, c).len() ==> !(#[trigger] spec_split(s, c)[i]).contains(c),
    decreases s.len(),
{
    lemma_find(s, c);
    match spec_find(s, c) {
        None => {
            assert forall|i: int|
                0 <= i < spec_split(s, c).len() implies !(#[trigger] spec_split(
                s,
                c,
            )[i]).contains(c) by {
                if spec_split(s, c)[i].contains(c) {
                    let j = choose|j: int| 0 <= j < s.len() && s[j] == c;
                    assert(s[j] != c);
                }
            }
        },
        Some(f) => {
            lemma_split_no_sep(s.skip(f + 1), c);
            assert forall|i: int|
                0 <= i < spec_split(s, c).len() implies !(#[trigger] spec_split(
                s,
                c,
            )[i]).contains(c) by {
                if i == 0 {
                    let part = s.take(f);
                    if part.contains(c) {
                        let j = choose|j: int| 0 <= j < part.len() && part[j] == c;
                        assert(s[j] == c);
                        assert(s[j] != c);
                    }
                } else {
                    assert(spec_split(s, c)[i] == spec_split(s.skip(f + 1), c)[i - 1]);
                }
            }
        },
    }
}

/// Joining the parts of a split restores the string.
proof fn lemma_split_join(s: Seq<char>)
    ensures
        join_path(spec_split(s, '/')) == s,
    decreases s.len(),
{
    lemma_find(s, '/');
    match spec_find(s, '/') {
        None => {
            assert(join_path(spec_split(s, '/')) == s);
        },
        Some(f) => {
            lemma_split_join(s.skip(f + 1));
            let parts = spec_split(s, '/');
            assert(parts.drop_first() =~= spec_split(s.skip(f + 1), '/'));
            assert(join_path(parts) =~= s);
        },
    }
}

/// Split a string at every separator.
fn split_slash(s: &str) -> (r: Vec<String>)
    ensures
        r.deep_view() == spec_split(s@, '/'),
    decreases s@.len(),
{
    proof {
        lemma_find(s@, '/');
    }
    let n = s.unicode_len();
    match find_char(s, '/') {
        None => {
            let mut v: Vec<String> = Vec::new();
            v.push(String::from_str(s));
            proof {
                assert(v.deep_view() =~~= spec_split(s@, '/'));
            }
            v
        },
        Some(i) => {
            let head = s.substring_char(0, i);
            let tail = s.substring_char(i + 1, n);
            proof {
                assert(tail@ =~= s@.skip(i + 1));
            }
            let mut rest = split_slash(tail);
            let mut v: Vec<String> = Vec::new();
            v.push(String::from_str(head));
            v.append(&mut rest);
            proof {
                assert(head@ =~= s@.take(i as int));
                assert(v.deep_view() =~~= spec_split(s@, '/'));
            }
            v
        },
    }
}

/// The children of a branch; a leaf has none.
pub open spec fn branch_children(t: Tree) -> Seq<Tree> {
    match t {
        Tree::Branch { children, .. } => children@,
        Tree::Leaf { .. } => Seq::empty(),
    }
}

/// Find the child of the given kind and name.
fn find_child(children: &Vec<Tree>, target: &String, want_leaf: bool) -> (r: Option<usize>)
    ensures
        match r {
            Some(i) => i < children@.len() && is_leaf(children@[i as int]) == want_leaf
                && node_name(children@[i as int]) == target@,
            None => forall|j: int|
                0 <= j < children@.len() ==> !(is_leaf(#[trigger] children@[j]) == want_leaf
                    && node_name(children@[j]) == target@),
        },
{
    let n = children.len();
    let mut i: usize = 0;
    while i < n
        invariant
            i <= n,
            n == children@.len(),
            forall|j: int|
                0 <= j < i ==> !(is_leaf(#[trigger] children@[j]) == want_leaf && node_name(
                    children@[j],
                ) == target@),
        decreases n - i,
    {
        match &children[i] {
            Tree::Leaf { name, .. } => {
                if want_leaf && name.eq(target) {
                    return Some(i);
                }
            },
            Tree::Branch { name, .. } => {
                if !want_leaf && name.eq(target) {
                    return Some(i);
                }
            },
        }
        i = i + 1;
    }
    None
}

impl Tree {
    /// A fresh package tree: a root branch named `L` with no
    /// children.
    pub fn new() -> (t: Tree)
        ensures
            wf_root(t),
            tree_leaves(t) == Map::<Seq<char>, (Seq<u8>, int)>::empty(),
    {
        Tree::Branch { name: String::from_str("L"), children: Vec::new() }
    }

    /// Insert one class's fingerprint.
    ///
    /// The branches along the descriptor's path are created on
    /// demand; inserting the same class again replaces its leaf
    /// rather than duplicating it.  A malformed descriptor is
    /// rejected and the tree stays as it was.
    pub fn add_leaf(&mut self, class_name: &String, hash: &Vec<u8>, weight: usize) -> (r: Result<
        (),
        TreeError,
    >)
        requires
            wf_root(*old(self)),
        ensures
            wf_root(*final(self)),
            is_class_descriptor(class_name@) ==> r == Ok::<(), TreeError>(()) && tree_leaves(
                *final(self),
            ) == tree_leaves(*old(self)).insert(
                descriptor_path(class_name@),
                (hash@, weight as int),
            ),
            !is_class_descriptor(class_name@) ==> r == Err::<(), TreeError>(
                TreeError::BadDescriptor,
            ) && *final(self) == *old(self),
    {
        let sref = class_name.as_str();
        let n = sref.unicode_len();
        if n < 3 {
            return Err(TreeError::BadDescriptor);
        }
        if sref.get_char(0) != 'L' {
            return Err(TreeError::BadDescriptor);
        }
        if sref.get_char(n - 1) != ';' {
            return Err(TreeError::BadDescriptor);
        }
        let inner = sref.substring_char(1, n - 1);
        proof {
            assert(inner@ =~= descriptor_path(class_name@));
        }
        let segs = split_slash(inner);
        match first_empty_seg(&segs) {
            Some(i) => {
                proof {
                    assert(!seg_valid(spec_split(descriptor_path(class_name@), '/')[i as int]));
                }
                return Err(TreeError::BadDescriptor);
            },
            None => {},
        }
        proof {
            lemma_split_no_sep(inner@, '/');
            assert(is_class_descriptor(class_name@));
            assert(segs.deep_view().len() >= 1);
        }
        let root_prefix = String::new();
        insert_rec(self, &segs, 0, &root_prefix, hash, weight);
        proof {
            lemma_split_join(inner@);
            assert(segs.deep_view().skip(0) =~= segs.deep_view());
            assert(join_path(segs.deep_view()) == descriptor_path(class_name@));
            assert(Seq::<char>::empty() + join_path(segs.deep_view().skip(0)) =~= descriptor_path(
                class_name@,
            ));
        }
        Ok(())
    }
}

/// The position of the first empty path segment, if any.
fn first_empty_seg(segs: &Vec<String>) -> (r: Option<usize>)
    ensures
        match r {
            Some(i) => i < segs@.len() && segs.deep_view()[i as int].len() == 0,
            None => forall|j: int|
                0 <= j < segs@.len() ==> (#[trigger] segs.deep_view()[j]).len() > 0,
        },
{
    let m = segs.len();
    let mut i: usize = 0;
    while i < m
        invariant
            i <= m,
            m == segs@.len(),
            forall|j: int| 0 <= j < i ==> (#[trigger] segs.deep_view()[j]).len() > 0,
        decreases m - i,
    {
        if segs[i].as_str().unicode_len() == 0 {
            return Some(i);
        }
        i = i + 1;
    }
    None
}

/// Walk or create the branches for the path segments from `k` on,
/// then place the leaf at the final segment.
fn insert_rec(
    node: &mut Tree,
    segs: &Vec<String>,
    k: usize,
    prefix: &String,
    hash: &Vec<u8>,
    weight: usize,
)
    requires
        (*old(node)) is Branch,
        k < segs@.len(),
        forall|j: int| k <= j < segs@.len() ==> seg_valid(#[trigger] segs.deep_view()[j]),
        children_ok(branch_children(*old(node)), prefix@),
    ensures
        (*final(node)) is Branch,
        node_name(*final(node)) == node_name(*old(node)),
        children_ok(branch_children(*final(node)), prefix@),
        leaves(*final(node)) == leaves(*old(node)).insert(
            prefix@ + join_path(segs.deep_view().skip(k as int)),
            (hash@, weight as int),
        ),
    decreases segs@.len() - k,
{
    let ghost p = prefix@;
    let ghost segsd = segs.deep_view();
    let ghost key = p + join_path(segsd.skip(k as int));
    let ghost v = (hash@, weight as int);

    let mut target = prefix.clone();
    target.append(segs[k].as_str());
    proof {
        assert(target@ == p + segsd[k as int]);
    }
    let seg_count = segs.len();
    let last = k + 1 == seg_count;

    let mut tmp = Tree::Branch { name: String::new(), children: Vec::new() };
    core::mem::swap(node, &mut tmp);
    match tmp {
        Tree::Leaf { name, hash: h0, weight: w0 } => {
            // Does not arise: the node walked into is a branch.
            *node = Tree::Leaf { name, hash: h0, weight: w0 };
        },
        Tree::Branch { name, children } => {
            let mut children = children;
            let ghost s0 = children@;
            if last {
                proof {
                    assert(segsd.skip(k as int) =~= seq![segsd[k as int]]);
                    assert(key == target@);
                }
                let new_leaf = Tree::Leaf {
                    name: target.clone(),
                    hash: slice_to_vec(hash.as_slice()),
                    weight,
                };
                proof {
                    assert(node_name(new_leaf) == key);
                    assert(leaves(new_leaf) =~= Map::empty().insert(key, v));
                    assert(key.take(p.len() as int) =~= p);
                    assert(key.skip(p.len() as int) =~= segsd[k as int]);
                    assert(wf(new_leaf, p));
                    assert(in_scope(new_leaf, key));
                }
                match find_child(&children, &target, true) {
                    Some(i) => {
                        let ghost old_child = s0[i as int];
                        let _ = children.remove(i);
                        children.insert(i, new_leaf);
                        proof {
                            assert(children@ =~= s0.update(i as int, new_leaf));
                            assert(leaves(old_child) =~= Map::empty().insert(
                                key,
                                leaf_data(old_child),
                            ));
                            assert(leaves(new_leaf) =~= leaves(old_child).insert(key, v));
                            assert forall|j: int|
                                0 <= j < s0.len() && j != i implies !leaves(
                                #[trigger] s0[j],
                            ).dom().contains(key) by {
                                lemma_leaves_scope(s0[j], p);
                                lemma_scope_disjoint(s0[j], new_leaf, p, key);
                            }
                            lemma_leaves_of_update(s0, i as int, new_leaf, key, v);
                            assert forall|a: int|
                                0 <= a < children@.len() implies wf(
                                #[trigger] children@[a],
                                p,
                            ) by {
                                if a != i {
                                    assert(children@[a] == s0[a]);
                                }
                            }
                            assert(children_ok(children@, p));
                        }
                    },
                    None => {
                        children.push(new_leaf);
                        proof {
                            lemma_leaves_of_push(s0, new_leaf);
                            assert(leaves_of(children@) =~= leaves_of(s0).insert(key, v));
                            assert forall|a: int|
                                0 <= a < children@.len() implies wf(
                                #[trigger] children@[a],
                                p,
                            ) by {
                                if a < s0.len() {
                                    assert(children@[a] == s0[a]);
                                }
                            }
                            assert(children_ok(children@, p));
                        }
                    },
                }
            } else {
                proof {
                    assert(segsd.skip(k as int).drop_first() =~= segsd.skip(k + 1));
                    assert(segsd.skip(k as int)[0] == segsd[k as int]);
                    assert(segsd.skip(k as int).len() >= 2);
                }
                let mut child_prefix = target.clone();
                child_prefix.append("/");
                proof {
                    reveal_strlit("/");
                    assert(child_prefix@ =~= target@ + seq!['/']);
                    assert(key =~= child_prefix@ + join_path(segsd.skip(k + 1)));
                    assert(key.take(target@.len() as int) =~= target@);
                    assert(key[target@.len() as int] == '/');
                    assert(join_path(segsd.skip(k + 1)).len() >= segsd[k + 1].len() >= 1) by {
                        lemma_join_path_len(segsd.skip(k + 1));
                        assert(segsd.skip(k + 1)[0] == segsd[k + 1]);
                        assert(seg_valid(segsd[k + 1]));
                    }
                    assert(strict_ext(target@, key));
                }
                match find_child(&children, &target, false) {
                    Some(i) => {
                        let mut child = children.remove(i);
                        let ghost c_old = s0[i as int];
                        proof {
                            assert(wf(c_old, p));
                            assert(node_name(c_old) =~= target@);
                            assert(child_prefix@ =~= node_name(c_old) + seq!['/']);
                        }
                        insert_rec(&mut child, segs, k + 1, &child_prefix, hash, weight);
                        children.insert(i, child);
                        proof {
                            assert(children@ =~= s0.update(i as int, child));
                            assert(leaves(child) == leaves(c_old).insert(key, v));
                            assert(node_name(child) == target@);
                            assert(wf(child, p)) by {
                                assert(node_name(child).take(p.len() as int) == node_name(
                                    c_old,
                                ).take(p.len() as int));
                                assert(node_name(child).skip(p.len() as int) == node_name(
                                    c_old,
                                ).skip(p.len() as int));
                            }
                            assert(in_scope(child, key));
                            assert forall|j: int|
                                0 <= j < s0.len() && j != i implies !leaves(
                                #[trigger] s0[j],
                            ).dom().contains(key) by {
                                lemma_leaves_scope(s0[j], p);
                                lemma_scope_disjoint(s0[j], child, p, key);
                            }
                            lemma_leaves_of_update(s0, i as int, child, key, v);
                            assert forall|a: int|
                                0 <= a < children@.len() implies wf(
                                #[trigger] children@[a],
                                p,
                            ) by {
                                if a != i {
                                    assert(children@[a] == s0[a]);
                                }
                            }
                            assert(children_ok(children@, p));
                        }
                    },
                    None => {
                        let mut child = Tree::Branch { name: target.clone(), children: Vec::new() };
                        proof {
                            assert(branch_children(child) =~= Seq::<Tree>::empty());
                        }
                        insert_rec(&mut child, segs, k + 1, &child_prefix, hash, weight);
                        children.push(child);
                        proof {
                            assert(leaves(child) =~= Map::empty().insert(key, v)) by {
                                assert(leaves_of(Seq::<Tree>::empty()) =~= Map::<
                                    Seq<char>,
                                    (Seq<u8>, int),
                                >::empty());
                            }
                            lemma_leaves_of_push(s0, child);
                            assert(leaves_of(children@) =~= leaves_of(s0).insert(key, v));
                            assert(node_name(child) == target@);
                            assert(wf(child, p)) by {
                                assert(target@.take(p.len() as int) =~= p);
                                assert(target@.skip(p.len() as int) =~= segsd[k as int]);
                            }
                            assert forall|a: int|
                                0 <= a < children@.len() implies wf(
                                #[trigger] children@[a],
                                p,
                            ) by {
                                if a < s0.len() {
                                    assert(children@[a] == s0[a]);
                                }
                            }
                            assert(children_ok(children@, p));
                        }
                    },
                }
            }
            *node = Tree::Branch { name, children };
        },
    }
}

/// The tree a list of fingerprints builds: later classes replace
/// earlier ones with the same descriptor; malformed descriptors are
/// skipped.
pub open spec fn spec_build(fps: Seq<ClassFingerprint>) -> Map<Seq<char>, (Seq<u8>, int)>
    decreases fps.len(),
{
    if fps.len() == 0 {
        Map::empty()
    } else {
        let m = spec_build(fps.drop_last());
        let fp = fps.last();
        if is_class_descriptor(fp.name@) {
            m.insert(descriptor_path(fp.name@), (fp.hash@, fp.weight as int))
        } else {
            m
        }
    }
}

/// Build the package tree of a list of class fingerprints.
pub fn build_tree(fps: &Vec<ClassFingerprint>) -> (t: Tree)
    ensures
        wf_root(t),
        tree_leaves(t) == spec_build(fps@),
{
    let n = fps.len();
    let mut t = Tree::new();
    let mut i: usize = 0;
    while i < n
        invariant
            i <= n,
            n == fps@.len(),
            wf_root(t),
            tree_leaves(t) == spec_build(fps@.take(i as int)),
        decreases n - i,
    {
        let fp = &fps[i];
        let _ = t.add_leaf(&fp.name, &fp.hash, fp.weight);
        proof {
            assert(fps@.take(i + 1).drop_last() =~= fps@.take(i as int));
            assert(fps@.take(i + 1).last() == fps@[i as int]);
        }
        i = i + 1;
    }
    proof {
        assert(fps@.take(n as int) =~= fps@);
    }
    t
}

/// A joined path is at least as long as its first segment.
proof fn lemma_join_path_len(segs: Seq<Seq<char>>)
    requires
        segs.len() >= 1,
    ensures
        join_path(segs).len() >= segs[0].len(),
{
}

/// The UTF-8 bytes of a list of strings, concatenated in order.
pub open spec fn spec_concat_bytes(l: Seq<Seq<char>>) -> Seq<u8>
    decreases l.len(),
{
    if l.len() == 0 {
        Seq::empty()
    } else {
        spec_concat_bytes(l.drop_last()) + encode_utf8(l.last())
    }
}

/// The ordered sub-list of `names` whose members belong to `apis`.
pub open spec fn spec_filter_apis(names: Seq<Seq<char>>, apis: Seq<Seq<char>>) -> Seq<Seq<char>>
    decreases names.len(),
{
    if names.len() == 0 {
        Seq::empty()
    } else {
        let rest = spec_filter_apis(names.drop_last(), apis);
        if apis.contains(names.last()) {
            rest.push(names.last())
        } else {
            rest
        }
    }
}

/// Whether the string list holds `s`.
pub fn contains_string(v: &Vec<String>, s: &String) -> (r: bool)
    ensures
        r == v.deep_view().contains(s@),
{
    let n = v.len();
    let mut i: usize = 0;
    while i < n
        invariant
            i <= n,
            n == v@.len(),
            forall|j: int| 0 <= j < i ==> v.deep_view()[j] != s@,
        decreases n - i,
    {
        if v[i].eq(s) {
            proof {
                assert(v.deep_view()[i as int] == s@);
            }
            return true;
        }
        i = i + 1;
    }
    proof {
        if v.deep_view().contains(s@) {
            let j = choose|j: int| 0 <= j < v.deep_view().len() && v.deep_view()[j] == s@;
            assert(v.deep_view()[j] != s@);
        }
    }
    false
}

/// The ordered sub-list of the invoked names that belong to the
/// configured API surface.
pub fn get_invoked_apis(names: &Vec<String>, api_set: &Vec<String>) -> (r: Vec<String>)
    ensures
        r.deep_view() == spec_filter_apis(names.deep_view(), api_set.deep_view()),
{
    let n = names.len();
    let mut r: Vec<String> = Vec::new();
    let mut i: usize = 0;
    while i < n
        invariant
            i <= n,
            n == names@.len(),
            r.deep_view() == spec_filter_apis(
                names.deep_view().take(i as int),
                api_set.deep_view(),
            ),
        decreases n - i,
    {
        let ghost r0 = r.deep_view();
        if contains_string(api_set, &names[i]) {
            r.push(names[i].clone());
            proof {
                assert(r.deep_view() =~~= r0.push(names.deep_view()[i as int]));
            }
        }
        proof {
            let d = names.deep_view();
            assert(d.take(i + 1).drop_last() =~= d.take(i as int));
            assert(d.take(i + 1).last() == d[i as int]);
            assert(r.deep_view() =~~= spec_filter_apis(d.take(i + 1), api_set.deep_view()));
        }
        i = i + 1;
    }
    proof {
        assert(names.deep_view().take(n as int) =~= names.deep_view());
    }
    r
}

/// The bytes a fingerprint digests: the UTF-8 of the filtered API
/// list, concatenated in call order.
fn concat_bytes(l: &Vec<String>) -> (r: Vec<u8>)
    ensures
        r@ == spec_concat_bytes(l.deep_view()),
{
    let n = l.len();
    let mut r: Vec<u8> = Vec::new();
    let mut i: usize = 0;
    while i < n
        invariant
            i <= n,
            n == l@.len(),
            r@ == spec_concat_bytes(l.deep_view().take(i as int)),
        decreases n - i,
    {
        let mut piece = l[i].as_str().as_bytes_vec();
        r.append(&mut piece);
        proof {
            let d = l.deep_view();
            assert(d.take(i + 1).drop_last() =~= d.take(i as int));
            assert(d.take(i + 1).last() == d[i as int]);
            assert(r@ =~= spec_concat_bytes(d.take(i + 1)));
        }
        i = i + 1;
    }
    proof {
        assert(l.deep_view().take(n as int) =~= l.deep_view());
    }
    r
}

/// The content hash of an ordered API list: the MD5 of its
/// concatenated UTF-8 bytes.
pub fn class_hash(lst: &Vec<String>) -> (r: Vec<u8>)
    ensures
        r@ == md5_of(spec_concat_bytes(lst.deep_view())),
        r@.len() == 16,
{
    let bytes = concat_bytes(lst);
    md5_digest(bytes.as_slice())
}

/// The content hash of an ordered API list, rendered in lower-case
/// hex.
pub fn calc_hash(lst: &Vec<String>) -> (r: String)
    ensures
        r@ == spec_hex(md5_of(spec_concat_bytes(lst.deep_view()))),
{
    let h = class_hash(lst);
    hex_encode(h.as_slice())
}

/// One class's content fingerprint: its descriptor, the hash of its
/// filtered API-call list, and a weight equal to that list's
/// length.
#[derive(Debug)]
pub struct ClassFingerprint {
    /// The class's type descriptor.
    pub name: String,
    /// MD5 of the filtered, ordered API list.
    pub hash: Vec<u8>,
    /// Length of the filtered API list.
    pub weight: usize,
}

/// The class's ordered API calls: the invoked names of each of its
/// methods, in method order, filtered to the API surface.
pub open spec fn spec_class_calls(codes: Seq<Seq<u16>>, t: &SymbolTables) -> Seq<Seq<char>>
    decreases codes.len(),
{
    if codes.len() == 0 {
        Seq::empty()
    } else {
        spec_class_calls(codes.drop_last(), t) + spec_invoked_names(
            crate::disass::spec_units_to_bytes(codes.last()),
            0,
            2 * codes.last().len() as int,
            t,
        )
    }
}

/// Build one class's fingerprint from the code of its methods.
///
/// A class whose filtered API list is empty carries no signal and
/// yields `None`.
pub fn class_fingerprint(
    name: &String,
    codes: &Vec<Vec<u16>>,
    t: &SymbolTables,
    api_set: &Vec<String>,
) -> (r: Option<ClassFingerprint>)
    requires
        forall|i: int| 0 <= i < codes@.len() ==> 2 * #[trigger] codes@[i]@.len() <= usize::MAX,
    ensures
        ({
            let apis = spec_filter_apis(
                spec_class_calls(codes.deep_view(), t),
                api_set.deep_view(),
            );
            match r {
                None => apis.len() == 0,
                Some(fp) => {
                    &&& apis.len() > 0
                    &&& fp.name@ == name@
                    &&& fp.hash@ == md5_of(spec_concat_bytes(apis))
                    &&& fp.weight == apis.len()
                },
            }
        }),
{
    let n = codes.len();
    let mut calls: Vec<String> = Vec::new();
    let mut i: usize = 0;
    while i < n
        invariant
            i <= n,
            n == codes@.len(),
            forall|k: int| 0 <= k < codes@.len() ==> 2 * #[trigger] codes@[k]@.len() <= usize::MAX,
            calls.deep_view() == spec_class_calls(codes.deep_view().take(i as int), t),
        decreases n - i,
    {
        let ghost c0 = calls.deep_view();
        let mut names = get_invoked_methods_names(codes[i].as_slice(), t);
        calls.append(&mut names);
        proof {
            let d = codes.deep_view();
            assert(d.take(i + 1).drop_last() =~= d.take(i as int));
            assert(d.take(i + 1).last() =~= d[i as int]);
            assert(d[i as int] =~= codes@[i as int]@);
            assert(calls.deep_view() =~~= spec_class_calls(d.take(i + 1), t));
        }
        i = i + 1;
    }
    proof {
        assert(codes.deep_view().take(n as int) =~= codes.deep_view());
    }
    let apis = get_invoked_apis(&calls, api_set);
    if apis.len() == 0 {
        proof {
            assert(spec_filter_apis(spec_class_calls(codes.deep_view(), t), api_set.deep_view())
                =~= apis.deep_view());
        }
        None
    } else {
        let weight = apis.len();
        let hash = class_hash(&apis);
        Some(ClassFingerprint { name: name.clone(), hash, weight })
    }
}

} // verus!
