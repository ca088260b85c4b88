use protots::ast::{Elem, Enum, EnumValue, Field, Flag, Msg, Proto};
use protots::context::{Context, ProtoType};
use protots::errors::PtError;
use protots::parser::parse;
use protots::typescript::{snake_to_camel, to_schema};

fn proto(elem: Elem) -> Proto {
    Proto {
        syntax: "proto3".to_string(),
        file: "file.proto".to_string(),
        elems: vec![elem],
    }
}

fn single(name: &str, field_type: &str, idx: i32, flag: Flag) -> Field {
    Field::Single {
        name: name.to_string(),
        field_type: field_type.to_string(),
        idx,
        flag,
    }
}

fn generate(text: &str) -> Result<String, PtError> {
    let p = parse("file.proto", text).expect("the input parses");
    to_schema(&p)
}

const HEADER: &str = "//\n// Code generated by protots - DO NOT EDIT\n// Source: file.proto\n//\n\nimport { z } from \"zod\";\n\n";

#[test]
fn to_schema_single_oneof() {
    let p = proto(Elem::Message(Msg {
        name: "Test".to_string(),
        fields: vec![Field::OneOf {
            name: "test".to_string(),
            fields: vec![Field::Single {
                name: "one".to_string(),
                field_type: "string".to_string(),
                idx: 1,
                flag: Flag::Singular,
            }],
        }],
    }));

    let schema = to_schema(&p);
    assert_eq!(schema.is_ok(), true);
    assert_eq!(
        schema.unwrap(),
        r#"//
// Code generated by protots - DO NOT EDIT
// Source: file.proto
//

import { z } from "zod";

export const TestSchema = z.object({
  test: z.object({ one: z.string() }),
});

export type Test = z.infer<typeof TestSchema>;

"#
    );
}

#[test]
fn to_schema_multiple_oneof() {
    let p = proto(Elem::Message(Msg {
        name: "Test".to_string(),
        fields: vec![Field::OneOf {
            name: "test".to_string(),
            fields: vec![
                Field::Single {
                    name: "one".to_string(),
                    field_type: "string".to_string(),
                    idx: 1,
                    flag: Flag::Singular,
                },
                Field::Single {
                    name: "two".to_string(),
                    field_type: "int32".to_string(),
                    idx: 2,
                    flag: Flag::Singular,
                },
            ],
        }],
    }));

    let schema = to_schema(&p);
    assert_eq!(schema.is_ok(), true);
    assert_eq!(
        schema.unwrap(),
        r#"//
// Code generated by protots - DO NOT EDIT
// Source: file.proto
//

import { z } from "zod";

export const TestSchema = z.object({
  test: z.union([z.object({ one: z.string() }), z.object({ two: z.number() })]),
});

export type Test = z.infer<typeof TestSchema>;

"#
    );
}

#[test]
fn oneof_from_source_single_case() {
    let out = generate(r#"syntax = "proto3"; message Test { oneof test { string one = 1; } }"#).unwrap();
    let expected = format!(
        "{}export const TestSchema = z.object({{\n  test: z.object({{ one: z.string() }}),\n}});\n\nexport type Test = z.infer<typeof TestSchema>;\n\n",
        HEADER
    );
    assert_eq!(out, expected);
    assert!(!out.contains("z.union"));
}

#[test]
fn oneof_from_source_two_cases() {
    let out = generate(
        r#"syntax = "proto3"; message Test { oneof test { string one = 1; int32 two = 2; } }"#,
    )
    .unwrap();
    assert!(out.contains(
        "  test: z.union([z.object({ one: z.string() }), z.object({ two: z.number() })]),\n"
    ));
}

#[test]
fn oneof_three_cases_keep_order() {
    let out = generate(
        r#"syntax = "proto3";
        message M { oneof pick { bool c = 3; string a = 1; int64 b = 2; } }"#,
    )
    .unwrap();
    assert!(out.contains(
        "  pick: z.union([z.object({ c: z.boolean() }), z.object({ a: z.string() }), z.object({ b: z.coerce.bigint() })]),\n"
    ));
}

#[test]
fn map_field_line() {
    let out = generate(r#"syntax = "proto3"; message M { map<string, int32> counts = 1; }"#).unwrap();
    assert!(out.contains("  counts: z.record(z.string(), z.number()),\n"));
}

#[test]
fn map_field_with_message_value() {
    let out = generate(
        r#"syntax = "proto3"; message V {} message M { map<int64, V> by_id = 1; }"#,
    )
    .unwrap();
    assert!(out.contains("  byId: z.record(z.coerce.bigint(), VSchema),\n"));
}

#[test]
fn unknown_type_is_reported_by_name() {
    let r = generate(r#"syntax = "proto3"; message M { Foo foo = 1; }"#);
    match r {
        Err(PtError::ProtobufTypeNotFound(name)) => assert_eq!(name, "Foo"),
        other => panic!("unexpected result: {:?}", other),
    }
}

#[test]
fn unknown_map_value_type_is_reported() {
    let r = generate(r#"syntax = "proto3"; message M { map<string, Bar> m = 1; }"#);
    match r {
        Err(PtError::ProtobufTypeNotFound(name)) => assert_eq!(name, "Bar"),
        other => panic!("unexpected result: {:?}", other),
    }
}

#[test]
fn enum_default_is_first_zero_value() {
    let p = proto(Elem::Enum(Enum {
        name: "E".to_string(),
        values: vec![
            EnumValue::Single { name: "A".to_string(), idx: 1 },
            EnumValue::Single { name: "B".to_string(), idx: 0 },
            EnumValue::Single { name: "C".to_string(), idx: 2 },
        ],
    }));
    let out = to_schema(&p).unwrap();
    let expected = format!(
        "{}export enum E {{\n  A = \"A\",\n  B = \"B\",\n  C = \"C\",\n}}\n\nexport const ESchema = z.nativeEnum(E).catch(E.B);\n\n",
        HEADER
    );
    assert_eq!(out, expected);
}

#[test]
fn enum_without_zero_has_no_fallback() {
    let p = proto(Elem::Enum(Enum {
        name: "E".to_string(),
        values: vec![
            EnumValue::Single { name: "A".to_string(), idx: 1 },
            EnumValue::Reserved { idx: 0 },
            EnumValue::Single { name: "C".to_string(), idx: 2 },
        ],
    }));
    let out = to_schema(&p).unwrap();
    assert!(out.contains("export const ESchema = z.nativeEnum(E);\n\n"));
    assert!(!out.contains(".catch("));
}

#[test]
fn enum_two_zero_values_first_wins() {
    let out = generate(r#"syntax = "proto3"; enum E { X = 0; Y = 0; }"#).unwrap();
    assert!(out.contains("z.nativeEnum(E).catch(E.X);"));
}

#[test]
fn flags_wrap_the_base_validator() {
    let p = proto(Elem::Message(Msg {
        name: "M".to_string(),
        fields: vec![
            single("a", "string", 1, Flag::Optional),
            single("b", "double", 2, Flag::Repeated),
            single("c", "bool", 3, Flag::Required),
            single("d", "google.protobuf.Timestamp", 4, Flag::Singular),
            single("e", "bytes", 5, Flag::Singular),
            single("f", "sfixed64", 6, Flag::Optional),
        ],
    }));
    let out = to_schema(&p).unwrap();
    assert!(out.contains(
        "export const MSchema = z.object({\n  a: z.optional(z.string()),\n  b: z.array(z.number()),\n  c: z.boolean(),\n  d: z.coerce.date(),\n  e: z.string(),\n  f: z.optional(z.coerce.bigint()),\n});\n\n"
    ));
}

#[test]
fn nested_declarations_come_first() {
    let out = generate(
        r#"syntax = "proto3";
        message A {
          message B {
            message C { string x = 1; }
            C c = 1;
          }
          B b = 1;
          A.B.C deep = 2;
        }"#,
    )
    .unwrap();
    let c = out.find("export const A_B_CSchema").unwrap();
    let b = out.find("export const A_BSchema").unwrap();
    let a = out.find("export const ASchema").unwrap();
    assert!(c < b && b < a);
    assert!(out.contains("export type A_B_C = z.infer<typeof A_B_CSchema>;"));
    assert!(out.contains("  c: A_B_CSchema,\n"));
    assert!(out.contains("  b: A_BSchema,\n"));
    assert!(out.contains("  deep: A_B_CSchema,\n"));
}

#[test]
fn scope_lookup_is_one_level_only() {
    let r = generate(
        r#"syntax = "proto3";
        message A {
          message B { message C { X x = 1; } }
          message X {}
        }"#,
    );
    match r {
        Err(PtError::ProtobufTypeNotFound(name)) => assert_eq!(name, "X"),
        other => panic!("unexpected result: {:?}", other),
    }
}

#[test]
fn forward_reference_resolves() {
    let out = generate(r#"syntax = "proto3"; message A { B b = 1; } message B {}"#).unwrap();
    assert!(out.contains("  b: BSchema,\n"));
}

#[test]
fn one_block_per_declaration() {
    let out = generate(
        r#"syntax = "proto3";
        package p;
        import "other.proto";
        option java_package = "x";
        message A {
          message B { enum K { K0 = 0; } }
          enum S { S0 = 0; }
          oneof o { string s = 1; }
        }
        enum E { E0 = 0; }
        extend A { optional string more = 10; }
        service Svc { rpc Get (A) returns (A); }"#,
    )
    .unwrap();
    assert_eq!(out.matches("export const ").count(), 5);
    assert_eq!(out.matches("export type ").count(), 2);
    assert_eq!(out.matches("export enum ").count(), 3);
    assert!(!out.contains("Svc"));
    assert!(!out.contains("more"));
}

#[test]
fn field_names_are_camel_cased() {
    assert_eq!(snake_to_camel("foo_bar_baz"), "fooBarBaz");
    assert_eq!(snake_to_camel("_foo__bar_"), "fooBar");
    assert_eq!(snake_to_camel("already"), "already");
    assert_eq!(snake_to_camel("a_1b_ümlaut"), "a1bümlaut");
    assert_eq!(snake_to_camel(""), "");
    assert_eq!(snake_to_camel("___"), "");
}

#[test]
fn camel_case_in_generated_lines() {
    let out = generate(r#"syntax = "proto3"; message M { string user_id = 1; }"#).unwrap();
    assert!(out.contains("  userId: z.string(),\n"));
}

#[test]
fn proto_type_names_from_scope_path() {
    let t = ProtoType::new("C", vec!["A".to_string(), "B".to_string()]);
    assert_eq!(t.full_name, "A.B.C");
    assert_eq!(t.ts_name, "A_B_C");
    assert_eq!(t.schema, "A_B_CSchema");
    let top = ProtoType::new("Top", Vec::new());
    assert_eq!(top.full_name, "Top");
    assert_eq!(top.schema, "TopSchema");
}

#[test]
fn context_lookup_and_scope_retry() {
    let p = parse(
        "f",
        r#"syntax = "proto3"; message A { message B { message C {} } } enum E { Z = 0; }"#,
    )
    .unwrap();
    let ctx = Context::new(&p);
    assert_eq!(ctx.types.len(), 4);
    assert_eq!(ctx.get("A.B.C", None).unwrap().ts_name, "A_B_C");
    assert!(ctx.get("B", None).is_none());
    let a = ctx.get("A", None).unwrap();
    assert_eq!(ctx.get("B", Some(a)).unwrap().full_name, "A.B");
    assert!(ctx.get("C", Some(a)).is_none());
    assert_eq!(ctx.get("E", Some(a)).unwrap().schema, "ESchema");
}


#[test]
fn other_elements_change_nothing() {
    let plain = generate(r#"syntax = "proto3"; message A { string a = 1; } enum E { Z = 0; }"#).unwrap();
    let busy = generate(
        r#"syntax = "proto3";
        option java_package = "x";
        message A { string a = 1; }
        import "b.proto";
        service S { rpc Get (A) returns (A); }
        package p;
        extend A { optional string more = 10; }
        enum E { Z = 0; }"#,
    )
    .unwrap();
    assert_eq!(plain, busy);
}

#[test]
fn nested_oneof_message_is_emitted_once() {
    let out = generate(
        r#"syntax = "proto3";
        message Inner {}
        message A { oneof o { string s = 1; } message B {} B b = 2; }"#,
    )
    .unwrap();
    assert_eq!(out.matches("export const A_BSchema").count(), 1);
    assert_eq!(out.matches("export const InnerSchema").count(), 1);
}
