//! The call-graph extractor over a fixed known method body.

use libradar::callgraph::{get_invoked_methods, get_invoked_methods_names, MethodSym, SymbolTables};

fn tables() -> SymbolTables {
    SymbolTables {
        methods: vec![
            MethodSym { class_idx: 0, name_idx: 0 },
            MethodSym { class_idx: 1, name_idx: 1 },
            MethodSym { class_idx: 0, name_idx: 2 },
            MethodSym { class_idx: 9, name_idx: 0 },
        ],
        types: vec![
            String::from("Ljava/lang/String;"),
            String::from("Lcom/example/Widget;"),
        ],
        strings: vec![
            String::from("equals"),
            String::from("draw"),
            String::from("length"),
        ],
    }
}

/// A method body as 16-bit code units: invoke-virtual of method 1,
/// a no-op, invoke-static of method 0, invoke-super of method 2.
fn body() -> Vec<u16> {
    vec![
        0x206e, 0x0001, 0x0032, // invoke-virtual {..}, method@1
        0x0000, // nop
        0x2071, 0x0000, 0x0010, // invoke-static {..}, method@0
        0x206f, 0x0002, 0x0054, // invoke-super {..}, method@2
    ]
}

#[test]
fn invoked_method_names_come_in_stream_order() {
    let t = tables();
    let names = get_invoked_methods_names(&body(), &t);
    assert_eq!(
        names,
        vec![
            String::from("Lcom/example/Widget;->draw"),
            String::from("Ljava/lang/String;->equals"),
            String::from("Ljava/lang/String;->length"),
        ]
    );
}

#[test]
fn invoked_methods_resolve_through_the_tables() {
    let t = tables();
    let refs = get_invoked_methods(&body(), &t);
    assert_eq!(refs.len(), 3);
    assert_eq!(refs[0].class_name, "Lcom/example/Widget;");
    assert_eq!(refs[0].method_name, "draw");
    assert_eq!(refs[2].method_name, "length");
}

#[test]
fn unresolvable_targets_are_skipped() {
    let t = tables();
    // invoke-virtual of method 3 (whose type index is out of range),
    // then invoke-virtual of method 7 (no such method), then
    // invoke-static of method 0.
    let units: Vec<u16> = vec![
        0x206e, 0x0003, 0x0032, 0x206e, 0x0007, 0x0032, 0x2071, 0x0000, 0x0010,
    ];
    let names = get_invoked_methods_names(&units, &t);
    assert_eq!(names, vec![String::from("Ljava/lang/String;->equals")]);
}

#[test]
fn a_decode_error_ends_the_call_list() {
    let t = tables();
    // invoke-static of method 0, then an unassigned opcode; a later
    // invoke is never reached.
    let units: Vec<u16> = vec![0x2071, 0x0000, 0x0010, 0x003e, 0x206e, 0x0001, 0x0032];
    let names = get_invoked_methods_names(&units, &t);
    assert_eq!(names, vec![String::from("Ljava/lang/String;->equals")]);
}
