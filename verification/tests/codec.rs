use prefab::data::{
    FieldDecl, FieldKind, FieldValue, Prefab, Record, Snapshot, SnapshotNode, TypeEntry,
    TypeRegistry,
};
use prefab::enc::serialize;
use prefab::parse::{deserialize, ErrKind};

fn decl(name: &[u8], kind: FieldKind) -> FieldDecl {
    FieldDecl { name: name.to_vec(), kind }
}

fn demo_registry() -> TypeRegistry {
    TypeRegistry {
        types: vec![
            TypeEntry {
                name: b"demo::Name".to_vec(),
                fields: vec![decl(b"value", FieldKind::Str)],
            },
            TypeEntry {
                name: b"demo::Transform".to_vec(),
                fields: vec![decl(b"x", FieldKind::Int), decl(b"y", FieldKind::Int)],
            },
            TypeEntry {
                name: b"demo::Children".to_vec(),
                fields: vec![decl(b"refs", FieldKind::Refs)],
            },
            TypeEntry {
                name: b"demo::Flag".to_vec(),
                fields: vec![decl(b"on", FieldKind::Bool)],
            },
        ],
    }
}

fn rec(ty: &[u8], values: Vec<FieldValue>) -> Record {
    Record { ty: ty.to_vec(), values }
}

fn demo_prefab() -> Prefab {
    Prefab {
        name: b"Test".to_vec(),
        scene: Snapshot {
            nodes: vec![
                SnapshotNode {
                    id: 0,
                    records: vec![
                        rec(b"demo::Name", vec![FieldValue::Str(b"Steve".to_vec())]),
                        rec(
                            b"demo::Transform",
                            vec![FieldValue::Int(-3), FieldValue::Int(12)],
                        ),
                        rec(b"demo::Children", vec![FieldValue::Refs(vec![1])]),
                    ],
                },
                SnapshotNode {
                    id: 1,
                    records: vec![
                        rec(b"demo::Flag", vec![FieldValue::Bool(true)]),
                        rec(b"demo::Children", vec![FieldValue::Refs(vec![])]),
                    ],
                },
            ],
        },
    }
}

#[test]
fn round_trip_returns_the_prefab_unchanged() {
    let reg = demo_registry();
    let p = demo_prefab();
    let doc = serialize(&p, &reg).unwrap();
    let back = deserialize(&doc, &reg).unwrap();
    assert_eq!(back, p);
}

#[test]
fn round_trip_extreme_values() {
    let reg = demo_registry();
    let p = Prefab {
        name: b"edge \"case\" \\ here".to_vec(),
        scene: Snapshot {
            nodes: vec![SnapshotNode {
                id: u64::MAX,
                records: vec![
                    rec(
                        b"demo::Transform",
                        vec![FieldValue::Int(i64::MIN), FieldValue::Int(i64::MAX)],
                    ),
                    rec(b"demo::Flag", vec![FieldValue::Bool(false)]),
                ],
            }],
        },
    };
    let doc = serialize(&p, &reg).unwrap();
    let back = deserialize(&doc, &reg).unwrap();
    assert_eq!(back, p);
}

#[test]
fn round_trip_empty_scene() {
    let reg = demo_registry();
    let p = Prefab { name: b"".to_vec(), scene: Snapshot { nodes: vec![] } };
    let doc = serialize(&p, &reg).unwrap();
    let back = deserialize(&doc, &reg).unwrap();
    assert_eq!(back, p);
}

#[test]
fn serialized_layout_is_byte_stable() {
    let reg = demo_registry();
    let p = Prefab {
        name: b"Test".to_vec(),
        scene: Snapshot { nodes: vec![SnapshotNode { id: 5, records: vec![] }] },
    };
    let doc = serialize(&p, &reg).unwrap();
    let expected = b"(\n  name: \"Test\",\n  scene: [\n    (\n      entity: 5,\n      records: [\n      ],\n    ),\n  ],\n)";
    assert_eq!(doc, expected.to_vec());
    // two runs over equal prefabs give byte-identical documents
    let again = serialize(&p, &reg).unwrap();
    assert_eq!(doc, again);
}

#[test]
fn unknown_type_fails_the_whole_serialize() {
    let reg = demo_registry();
    let p = Prefab {
        name: b"Test".to_vec(),
        scene: Snapshot {
            nodes: vec![SnapshotNode {
                id: 0,
                records: vec![
                    rec(b"demo::Name", vec![FieldValue::Str(b"ok".to_vec())]),
                    rec(b"demo::Unknown", vec![FieldValue::Bool(true)]),
                ],
            }],
        },
    };
    let err = serialize(&p, &reg).unwrap_err();
    assert_eq!(err.ty, b"demo::Unknown".to_vec());
}

#[test]
fn mismatched_field_shape_fails_serialize() {
    let reg = demo_registry();
    let p = Prefab {
        name: b"Test".to_vec(),
        scene: Snapshot {
            nodes: vec![SnapshotNode {
                id: 0,
                // demo::Flag declares one Bool field, not a Str
                records: vec![rec(b"demo::Flag", vec![FieldValue::Str(b"x".to_vec())])],
            }],
        },
    };
    let err = serialize(&p, &reg).unwrap_err();
    assert_eq!(err.ty, b"demo::Flag".to_vec());
}

#[test]
fn syntax_error_reports_offset_line_and_column() {
    let reg = demo_registry();
    // the `name` keyword is misspelled: offset 4 is the `n` of `nome`,
    // on line 2 at column 3
    let doc = b"(\n  nome: \"Test\",\n)".to_vec();
    let err = deserialize(&doc, &reg).unwrap_err();
    assert_eq!(err.kind, ErrKind::Syntax);
    assert_eq!(err.offset, 4);
    assert_eq!(err.line, 2);
    assert_eq!(err.col, 3);
}

#[test]
fn unknown_type_fails_decode_at_the_type_name() {
    let reg = demo_registry();
    let p = Prefab {
        name: b"Test".to_vec(),
        scene: Snapshot {
            nodes: vec![SnapshotNode {
                id: 0,
                records: vec![rec(b"demo::Flag", vec![FieldValue::Bool(true)])],
            }],
        },
    };
    let doc = serialize(&p, &reg).unwrap();
    // strip the registration instead of the document: decode under a
    // registry that does not know demo::Flag
    let empty = TypeRegistry { types: vec![] };
    let err = deserialize(&doc, &empty).unwrap_err();
    assert_eq!(err.kind, ErrKind::UnknownType);
    // the reported offset points at the quoted type name
    assert_eq!(doc[err.offset], b'"');
}

#[test]
fn misordered_fields_fail_closed() {
    let reg = demo_registry();
    // scene before name: sequence-based decoding rejects the document
    let doc = b"(\n  scene: [\n  ],\n  name: \"Test\",\n)".to_vec();
    let err = deserialize(&doc, &reg).unwrap_err();
    assert_eq!(err.kind, ErrKind::Syntax);
}

#[test]
fn misordered_record_fields_fail_closed() {
    let reg = demo_registry();
    // demo::Transform declares x then y; the document swaps them
    let doc = b"(\n  name: \"T\",\n  scene: [\n    (\n      entity: 1,\n      records: [\n        (\n          type: \"demo::Transform\",\n          \"y\": 1,\n          \"x\": 2,\n        ),\n      ],\n    ),\n  ],\n)"
        .to_vec();
    let err = deserialize(&doc, &reg).unwrap_err();
    assert_eq!(err.kind, ErrKind::Schema);
}

#[test]
fn whitespace_between_tokens_is_insignificant() {
    let reg = demo_registry();
    let doc =
        b"(name:\"Test\",scene:[(entity:  5 ,records:[( type : \"demo::Flag\" , \"on\" : true , ) , ] , ) , ] , )"
            .to_vec();
    let p = deserialize(&doc, &reg).unwrap();
    assert_eq!(p.name, b"Test".to_vec());
    assert_eq!(p.scene.nodes.len(), 1);
    assert_eq!(p.scene.nodes[0].id, 5);
    assert_eq!(p.scene.nodes[0].records.len(), 1);
    assert_eq!(p.scene.nodes[0].records[0].values, vec![FieldValue::Bool(true)]);
}

#[test]
fn trailing_text_after_the_document_fails() {
    let reg = demo_registry();
    let doc = b"(\n  name: \"T\",\n  scene: [\n  ],\n) extra".to_vec();
    let err = deserialize(&doc, &reg).unwrap_err();
    assert_eq!(err.kind, ErrKind::Syntax);
    assert_eq!(err.offset, 33);
}

#[test]
fn registry_resolve_finds_registered_types_only() {
    let reg = demo_registry();
    assert_eq!(reg.resolve(&b"demo::Name".to_vec()), Some(0));
    assert_eq!(reg.resolve(&b"demo::Flag".to_vec()), Some(3));
    assert_eq!(reg.resolve(&b"demo::Missing".to_vec()), None);
}

#[test]
fn handwritten_document_decodes_to_exact_values() {
    let reg = demo_registry();
    let doc = b"(\n  name: \"A \\\"B\\\" \\\\ C\",\n  scene: [\n    (\n      entity: 1234567890,\n      records: [\n        (\n          type: \"demo::Transform\",\n          \"x\": -987654321,\n          \"y\": 0,\n        ),\n        (\n          type: \"demo::Children\",\n          \"refs\": [18446744073709551615,7,],\n        ),\n      ],\n    ),\n  ],\n)"
        .to_vec();
    let p = deserialize(&doc, &reg).unwrap();
    assert_eq!(p.name, b"A \"B\" \\ C".to_vec());
    assert_eq!(p.scene.nodes.len(), 1);
    let n = &p.scene.nodes[0];
    assert_eq!(n.id, 1234567890);
    assert_eq!(n.records[0].values, vec![FieldValue::Int(-987654321), FieldValue::Int(0)]);
    assert_eq!(n.records[1].values, vec![FieldValue::Refs(vec![u64::MAX, 7])]);
}

#[test]
fn boolean_literals_decode_exactly() {
    let reg = demo_registry();
    let doc =
        b"(name:\"b\",scene:[(entity:0,records:[(type:\"demo::Flag\",\"on\":false,),],),],)"
            .to_vec();
    let p = deserialize(&doc, &reg).unwrap();
    assert_eq!(p.scene.nodes[0].records[0].values, vec![FieldValue::Bool(false)]);
}

#[test]
fn out_of_range_number_fails_decode() {
    let reg = demo_registry();
    // one above u64::MAX in the entity id
    let doc = b"(name:\"b\",scene:[(entity:18446744073709551616,records:[],),],)".to_vec();
    let err = deserialize(&doc, &reg).unwrap_err();
    assert_eq!(err.kind, ErrKind::Syntax);
}

#[test]
fn missing_scene_field_fails_closed() {
    let reg = demo_registry();
    let doc = b"(\n  name: \"Test\",\n)".to_vec();
    let err = deserialize(&doc, &reg).unwrap_err();
    assert_eq!(err.kind, ErrKind::Syntax);
}
