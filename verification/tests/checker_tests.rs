use lolserialize::checker::{check, item_name, item_name_span, CheckError, Color};
use lolserialize::schema::{
    Enum, EnumVariant, Item, Message, MessageField, Schema, Span, Spanned, Struct, StructField,
    Type, Union, UnionVariant,
};

fn sp<T>(node: T, start: usize) -> Spanned<T> {
    Spanned::new(node, start..start + 1)
}

fn name(s: &str, start: usize) -> Spanned<String> {
    sp(s.to_string(), start)
}

fn named(s: &str, start: usize) -> Spanned<Type> {
    sp(Type::Named(s.to_string()), start)
}

fn struct_item(n: &str, at: usize, fields: Vec<(&str, usize, Spanned<Type>)>) -> Spanned<Item> {
    sp(
        Item::Struct(Struct {
            name: name(n, at),
            fields: fields
                .into_iter()
                .map(|(f, p, ty)| sp(StructField { name: name(f, p), ty, optional: false }, p))
                .collect(),
        }),
        at,
    )
}

fn message_item(n: &str, at: usize, fields: Vec<(&str, usize, u32, usize, Spanned<Type>)>) -> Spanned<Item> {
    sp(
        Item::Message(Message {
            name: name(n, at),
            fields: fields
                .into_iter()
                .map(|(f, p, idx, ip, ty)| {
                    sp(MessageField { name: name(f, p), ty, index: sp(idx, ip), optional: true }, p)
                })
                .collect(),
        }),
        at,
    )
}

fn enum_item(n: &str, at: usize, variants: Vec<(&str, usize, u32, usize)>) -> Spanned<Item> {
    sp(
        Item::Enum(Enum {
            name: name(n, at),
            variants: variants
                .into_iter()
                .map(|(v, p, idx, ip)| sp(EnumVariant { name: name(v, p), index: sp(idx, ip) }, p))
                .collect(),
        }),
        at,
    )
}

fn union_item(
    n: &str,
    at: usize,
    variants: Vec<(&str, usize, Option<Spanned<Type>>, u32, usize)>,
) -> Spanned<Item> {
    sp(
        Item::Union(Union {
            name: name(n, at),
            variants: variants
                .into_iter()
                .map(|(v, p, ty, idx, ip)| sp(UnionVariant { name: name(v, p), ty, index: sp(idx, ip) }, p))
                .collect(),
        }),
        at,
    )
}

fn labels(e: &CheckError) -> Vec<(Span, &str, Color)> {
    e.labels.iter().map(|(s, m, c)| (s.clone(), m.as_str(), *c)).collect()
}

#[test]
fn well_formed_schema_has_no_errors() {
    let schema = Schema {
        items: vec![
            struct_item("Point", 0, vec![("x", 10, sp(Type::I32, 11)), ("y", 12, sp(Type::I32, 13))]),
            message_item(
                "Shape",
                20,
                vec![
                    ("origin", 21, 1, 22, named("Point", 23)),
                    ("tags", 24, 2, 25, sp(Type::Array(Box::new(sp(Type::String, 26))), 27)),
                    (
                        "kinds",
                        28,
                        3,
                        29,
                        sp(Type::MapOf(Box::new(sp(Type::U8, 30)), Box::new(named("Kind", 31))), 32),
                    ),
                ],
            ),
            enum_item("Kind", 40, vec![("A", 41, 0, 42), ("B", 43, 1, 44)]),
            union_item("Value", 50, vec![("p", 51, Some(named("Point", 52)), 1, 53), ("none", 54, None, 2, 55)]),
        ],
    };
    assert!(check(&schema).is_empty());
}

#[test]
fn empty_schema_has_no_errors() {
    assert!(check(&Schema { items: vec![] }).is_empty());
}

#[test]
fn duplicate_definitions_label_every_definition() {
    let schema = Schema {
        items: vec![
            struct_item("A", 0, vec![]),
            enum_item("B", 10, vec![]),
            message_item("A", 20, vec![]),
            union_item("A", 30, vec![]),
        ],
    };
    let errors = check(&schema);
    assert_eq!(errors.len(), 1);
    assert_eq!(errors[0].message, "duplicate definition of `A`");
    assert_eq!(
        labels(&errors[0]),
        vec![
            (0..1, "first defined here", Color::Blue),
            (20..21, "redefined here", Color::Red),
            (30..31, "redefined here", Color::Red),
        ]
    );
}

#[test]
fn duplicate_definitions_come_first_in_order_of_first_definition() {
    let schema = Schema {
        items: vec![
            struct_item("B", 0, vec![("x", 1, named("Missing", 2))]),
            struct_item("A", 10, vec![]),
            struct_item("A", 20, vec![]),
            struct_item("B", 30, vec![]),
        ],
    };
    let errors = check(&schema);
    let messages: Vec<&str> = errors.iter().map(|e| e.message.as_str()).collect();
    assert_eq!(
        messages,
        vec!["duplicate definition of `B`", "duplicate definition of `A`", "undefined type `Missing`"]
    );
}

#[test]
fn struct_duplicate_field_and_its_type_errors_interleave() {
    let schema = Schema {
        items: vec![struct_item(
            "S",
            0,
            vec![("a", 10, named("X", 11)), ("a", 12, named("Y", 13)), ("a", 14, sp(Type::Bool, 15))],
        )],
    };
    let errors = check(&schema);
    let messages: Vec<&str> = errors.iter().map(|e| e.message.as_str()).collect();
    assert_eq!(
        messages,
        vec![
            "undefined type `X`",
            "duplicate field `a` in struct `S`",
            "undefined type `Y`",
            "duplicate field `a` in struct `S`",
        ]
    );
    assert_eq!(
        labels(&errors[1]),
        vec![(10..11, "first defined here", Color::Blue), (12..13, "redefined here", Color::Red)]
    );
    assert_eq!(
        labels(&errors[3]),
        vec![(10..11, "first defined here", Color::Blue), (14..15, "redefined here", Color::Red)]
    );
    assert_eq!(labels(&errors[0]), vec![(11..12, "not found", Color::Red)]);
}

#[test]
fn message_names_then_indices() {
    let schema = Schema {
        items: vec![message_item(
            "M",
            0,
            vec![
                ("a", 10, 0, 11, named("T", 12)),
                ("b", 13, 7, 14, sp(Type::U64, 15)),
                ("a", 16, 7, 17, sp(Type::F64, 18)),
            ],
        )],
    };
    let errors = check(&schema);
    let messages: Vec<&str> = errors.iter().map(|e| e.message.as_str()).collect();
    assert_eq!(
        messages,
        vec![
            "duplicate field `a` in message `M`",
            "index 0 is reserved in message `M`",
            "undefined type `T`",
            "duplicate index 7 in message `M`",
        ]
    );
    assert_eq!(labels(&errors[1]), vec![(11..12, "indices must be >= 1", Color::Red)]);
    assert_eq!(
        labels(&errors[3]),
        vec![(14..15, "first used here", Color::Blue), (17..18, "reused here", Color::Red)]
    );
}

#[test]
fn message_zero_index_repeated_is_reported_twice_and_as_duplicate() {
    let schema = Schema {
        items: vec![message_item(
            "M",
            0,
            vec![("a", 10, 0, 11, sp(Type::Bool, 12)), ("b", 13, 0, 14, sp(Type::Bool, 15))],
        )],
    };
    let messages: Vec<String> = check(&schema).into_iter().map(|e| e.message).collect();
    assert_eq!(
        messages,
        vec![
            "index 0 is reserved in message `M`",
            "index 0 is reserved in message `M`",
            "duplicate index 0 in message `M`",
        ]
    );
}

#[test]
fn enum_index_zero_is_allowed_but_duplicates_are_not() {
    let schema = Schema {
        items: vec![enum_item("E", 0, vec![("A", 10, 0, 11), ("B", 12, 4294967295, 13), ("A", 14, 4294967295, 15)])],
    };
    let errors = check(&schema);
    let messages: Vec<&str> = errors.iter().map(|e| e.message.as_str()).collect();
    assert_eq!(
        messages,
        vec!["duplicate variant `A` in enum `E`", "duplicate index 4294967295 in enum `E`"]
    );
    assert_eq!(
        labels(&errors[1]),
        vec![(13..14, "first used here", Color::Blue), (15..16, "reused here", Color::Red)]
    );
}

#[test]
fn union_checks_names_indices_and_payload_types() {
    let schema = Schema {
        items: vec![union_item(
            "U",
            0,
            vec![
                ("a", 10, None, 0, 11),
                ("a", 12, Some(named("Nope", 13)), 1, 14),
                ("c", 15, Some(sp(Type::String, 16)), 1, 17),
            ],
        )],
    };
    let messages: Vec<String> = check(&schema).into_iter().map(|e| e.message).collect();
    assert_eq!(
        messages,
        vec![
            "duplicate variant `a` in union `U`",
            "index 0 is reserved in union `U`",
            "undefined type `Nope`",
            "duplicate index 1 in union `U`",
        ]
    );
}

#[test]
fn nested_types_are_checked_left_to_right() {
    let ty = sp(
        Type::MapOf(
            Box::new(named("K", 1)),
            Box::new(sp(Type::Array(Box::new(named("V", 2))), 3)),
        ),
        4,
    );
    let schema = Schema { items: vec![struct_item("S", 0, vec![("f", 10, ty)])] };
    let errors = check(&schema);
    let messages: Vec<&str> = errors.iter().map(|e| e.message.as_str()).collect();
    assert_eq!(messages, vec!["undefined type `K`", "undefined type `V`"]);
    assert_eq!(labels(&errors[1]), vec![(2..3, "not found", Color::Red)]);
}

#[test]
fn item_names_and_spans() {
    let items = vec![
        struct_item("S", 1, vec![]),
        message_item("M", 2, vec![]),
        enum_item("E", 3, vec![]),
        union_item("U", 4, vec![]),
    ];
    let names: Vec<&str> = items.iter().map(item_name).collect();
    assert_eq!(names, vec!["S", "M", "E", "U"]);
    let spans: Vec<Span> = items.iter().map(item_name_span).collect();
    assert_eq!(spans, vec![1..2, 2..3, 3..4, 4..5]);
}

#[test]
fn spanned_new_and_clone_keep_node_and_span() {
    let t = Spanned::new(Type::Array(Box::new(named("X", 5))), 3..9);
    let c = t.clone();
    assert_eq!(c.span, 3..9);
    match c.node {
        Type::Array(inner) => match inner.node {
            Type::Named(n) => assert_eq!(n, "X"),
            _ => panic!("wrong inner type"),
        },
        _ => panic!("wrong type"),
    }
}
