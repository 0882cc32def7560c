//! Package-tree insertion and the fingerprint helpers.

use libradar::callgraph::{MethodSym, SymbolTables};
use libradar::pkgtree::{
    build_tree, calc_hash, class_fingerprint, class_hash, get_invoked_apis, ClassFingerprint,
    Tree, TreeError,
};

fn h(byte: u8) -> Vec<u8> {
    vec![byte; 16]
}

fn find_child<'a>(children: &'a [Tree], want: &str) -> Option<&'a Tree> {
    for c in children {
        let name = match c {
            Tree::Branch { name, .. } => name,
            Tree::Leaf { name, .. } => name,
        };
        if name == want {
            return Some(c);
        }
    }
    None
}

#[test]
fn insertion_builds_the_branch_path() {
    let mut tree = Tree::new();
    tree.add_leaf(&String::from("La/b/C;"), &h(0xaa), 3).unwrap();

    let root_children = match &tree {
        Tree::Branch { name, children } => {
            assert_eq!(name, "L");
            children
        },
        Tree::Leaf { .. } => panic!("the root must be a branch"),
    };
    assert_eq!(root_children.len(), 1);
    let a = find_child(root_children, "a").unwrap();
    let a_children = match a {
        Tree::Branch { name, children } => {
            assert_eq!(name, "a");
            children
        },
        Tree::Leaf { .. } => panic!("the first segment must be a branch"),
    };
    assert_eq!(a_children.len(), 1);
    let ab = find_child(a_children, "a/b").unwrap();
    let ab_children = match ab {
        Tree::Branch { name, children } => {
            assert_eq!(name, "a/b");
            children
        },
        Tree::Leaf { .. } => panic!("the second segment must be a branch"),
    };
    assert_eq!(ab_children.len(), 1);
    match &ab_children[0] {
        Tree::Leaf { name, hash, weight } => {
            assert_eq!(name, "a/b/C");
            assert_eq!(hash, &h(0xaa));
            assert_eq!(*weight, 3);
        },
        Tree::Branch { .. } => panic!("the final segment must be a leaf"),
    }
}

#[test]
fn inserting_a_class_twice_replaces_its_leaf() {
    let mut tree = Tree::new();
    tree.add_leaf(&String::from("La/b/C;"), &h(0xaa), 3).unwrap();
    tree.add_leaf(&String::from("La/b/C;"), &h(0xbb), 5).unwrap();

    let root_children = match &tree {
        Tree::Branch { children, .. } => children,
        Tree::Leaf { .. } => panic!("the root must be a branch"),
    };
    let a = find_child(root_children, "a").unwrap();
    let a_children = match a {
        Tree::Branch { children, .. } => children,
        Tree::Leaf { .. } => panic!("the first segment must be a branch"),
    };
    let ab = find_child(a_children, "a/b").unwrap();
    let ab_children = match ab {
        Tree::Branch { children, .. } => children,
        Tree::Leaf { .. } => panic!("the second segment must be a branch"),
    };
    assert_eq!(ab_children.len(), 1);
    match &ab_children[0] {
        Tree::Leaf { name, hash, weight } => {
            assert_eq!(name, "a/b/C");
            assert_eq!(hash, &h(0xbb));
            assert_eq!(*weight, 5);
        },
        Tree::Branch { .. } => panic!("the final segment must be a leaf"),
    }
}

#[test]
fn sibling_classes_share_their_branches() {
    let mut tree = Tree::new();
    tree.add_leaf(&String::from("La/b/C;"), &h(1), 1).unwrap();
    tree.add_leaf(&String::from("La/b/D;"), &h(2), 2).unwrap();
    tree.add_leaf(&String::from("La/E;"), &h(3), 3).unwrap();

    let root_children = match &tree {
        Tree::Branch { children, .. } => children,
        Tree::Leaf { .. } => panic!("the root must be a branch"),
    };
    assert_eq!(root_children.len(), 1);
    let a_children = match find_child(root_children, "a").unwrap() {
        Tree::Branch { children, .. } => children,
        Tree::Leaf { .. } => panic!("the first segment must be a branch"),
    };
    // Branch "a/b" and leaf "a/E" side by side.
    assert_eq!(a_children.len(), 2);
    let ab_children = match find_child(a_children, "a/b").unwrap() {
        Tree::Branch { children, .. } => children,
        Tree::Leaf { .. } => panic!("the shared segment must be a branch"),
    };
    assert_eq!(ab_children.len(), 2);
    assert!(find_child(ab_children, "a/b/C").is_some());
    assert!(find_child(ab_children, "a/b/D").is_some());
}

#[test]
fn malformed_descriptors_are_rejected() {
    let mut tree = Tree::new();
    assert_eq!(
        tree.add_leaf(&String::from("a/b/C;"), &h(1), 1),
        Err(TreeError::BadDescriptor)
    );
    assert_eq!(
        tree.add_leaf(&String::from("La/b/C"), &h(1), 1),
        Err(TreeError::BadDescriptor)
    );
    assert_eq!(
        tree.add_leaf(&String::from("La//C;"), &h(1), 1),
        Err(TreeError::BadDescriptor)
    );
    assert_eq!(
        tree.add_leaf(&String::from("L;"), &h(1), 1),
        Err(TreeError::BadDescriptor)
    );
    match &tree {
        Tree::Branch { children, .. } => assert_eq!(children.len(), 0),
        Tree::Leaf { .. } => panic!("the root must be a branch"),
    }
}

#[test]
fn build_tree_skips_bad_names_and_keeps_the_last_hash() {
    let fps = vec![
        ClassFingerprint { name: String::from("La/b/C;"), hash: h(1), weight: 1 },
        ClassFingerprint { name: String::from("broken"), hash: h(2), weight: 2 },
        ClassFingerprint { name: String::from("La/b/C;"), hash: h(3), weight: 3 },
    ];
    let tree = build_tree(&fps);
    let root_children = match &tree {
        Tree::Branch { children, .. } => children,
        Tree::Leaf { .. } => panic!("the root must be a branch"),
    };
    assert_eq!(root_children.len(), 1);
}

#[test]
fn api_filter_keeps_order_and_members_only() {
    let names = vec![
        String::from("La;->x"),
        String::from("Lb;->y"),
        String::from("La;->x"),
        String::from("Lc;->z"),
    ];
    let api_set = vec![String::from("Lc;->z"), String::from("La;->x")];
    let apis = get_invoked_apis(&names, &api_set);
    assert_eq!(
        apis,
        vec![
            String::from("La;->x"),
            String::from("La;->x"),
            String::from("Lc;->z"),
        ]
    );
}

#[test]
fn content_hash_matches_the_reference_digest() {
    // The digest of "abc" is a fixed, well-known value.
    let lst = vec![String::from("abc")];
    assert_eq!(calc_hash(&lst), "900150983cd24fb0d6963f7d28e17f72");
    // Concatenation in order: "ab" + "c" digests the same bytes.
    let split = vec![String::from("ab"), String::from("c")];
    assert_eq!(calc_hash(&split), "900150983cd24fb0d6963f7d28e17f72");
    // A different order gives a different digest.
    let swapped = vec![String::from("c"), String::from("ab")];
    assert_ne!(calc_hash(&swapped), "900150983cd24fb0d6963f7d28e17f72");
    assert_eq!(class_hash(&lst).len(), 16);
}

#[test]
fn class_fingerprint_filters_and_weighs() {
    let t = SymbolTables {
        methods: vec![MethodSym { class_idx: 0, name_idx: 0 }],
        types: vec![String::from("Ljava/util/List;")],
        strings: vec![String::from("size")],
    };
    // One method that calls method 0 twice.
    let codes = vec![vec![0x206eu16, 0x0000, 0x0010, 0x206e, 0x0000, 0x0010]];
    let api_set = vec![String::from("Ljava/util/List;->size")];
    let fp = class_fingerprint(&String::from("La/B;"), &codes, &t, &api_set).unwrap();
    assert_eq!(fp.name, "La/B;");
    assert_eq!(fp.weight, 2);
    assert_eq!(fp.hash, class_hash(&vec![
        String::from("Ljava/util/List;->size"),
        String::from("Ljava/util/List;->size"),
    ]));

    // No call in the API surface: no signal, no fingerprint.
    let none = class_fingerprint(&String::from("La/B;"), &codes, &t, &vec![]);
    assert!(none.is_none());
}
