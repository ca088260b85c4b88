use protots::ast::{Elem, EnumValue, Field, Flag, OptionValue, ReservedField, ServiceNode};
use protots::errors::PtError;
use protots::parser::parse;

const EXAMPLE: &str = r#"// An example covering the constructs of the grammar.
syntax = "proto3";

package example.v1;

import "google/protobuf/timestamp.proto";

option go_package = "example.com/v1";
option java_multiple_files = true;
option optimize_for = SPEED;
option (custom.limit) = -5;

/* A user of the
   system. */
message User {
  string id = 1;
  optional string display_name = 2 [deprecated = true];
  repeated string tags = 3;
  map<string, int32> counts = 4;
  google.protobuf.Timestamp created_at = 5;
  Status status = 6;
  int64 score = 7;
  reserved 8, 9, 10;
  reserved "old_name", "older_name";
  oneof contact {
    string email = 11;
    string phone = 12;
  }
  message Address {
    string street = 1;
    enum Kind {
      KIND_UNSPECIFIED = 0;
      HOME = 1 [deprecated = true];
    }
    Kind kind = 2;
  }
  Address address = 13;
  enum Status {
    STATUS_UNKNOWN = 0;
    ACTIVE = 1;
    reserved 2;
  }
}

enum Role {
  ROLE_ADMIN = 1;
  ROLE_USER = 0;
};

extend User {
  optional string extra = 100;
}

message Legacy {
  extensions 100 to max;
  required string name = 1;
}

service UserService {
  option (custom.opt) = { key: "value", other: 3; flag: true };
  rpc GetUser (User) returns (User);
  rpc Watch (stream User) returns (stream User) {
    option deprecated = true;
  }
}
"#;

#[test]
fn parse_example_file_is_ok() {
    let parsed = parse("", EXAMPLE);
    assert_eq!(parsed.is_ok(), true);
}

#[test]
fn example_file_structure() {
    let p = parse("example.proto", EXAMPLE).unwrap();
    assert_eq!(p.file, "example.proto");
    assert_eq!(p.syntax, "proto3");
    assert_eq!(p.elems.len(), 11);
    match &p.elems[0] {
        Elem::Package { name } => assert_eq!(name, "example.v1"),
        _ => panic!("expected a package"),
    }
    match &p.elems[1] {
        Elem::Import { name } => assert_eq!(name, "google/protobuf/timestamp.proto"),
        _ => panic!("expected an import"),
    }
    match &p.elems[3] {
        Elem::Option(o) => {
            assert_eq!(o.name, "java_multiple_files");
            assert!(matches!(o.value, OptionValue::Bool { value: true }));
        }
        _ => panic!("expected an option"),
    }
    match &p.elems[4] {
        Elem::Option(o) => match &o.value {
            OptionValue::Constant { value } => assert_eq!(value, "SPEED"),
            _ => panic!("expected a constant"),
        },
        _ => panic!("expected an option"),
    }
    match &p.elems[5] {
        Elem::Option(o) => {
            assert_eq!(o.name, "custom.limit");
            assert!(matches!(o.value, OptionValue::Num { value: -5 }));
        }
        _ => panic!("expected an option"),
    }
    let user = match &p.elems[6] {
        Elem::Message(m) => m,
        _ => panic!("expected a message"),
    };
    assert_eq!(user.name, "User");
    assert_eq!(user.fields.len(), 13);
    match &user.fields[1] {
        Field::Single { name, field_type, idx, flag } => {
            assert_eq!(name, "display_name");
            assert_eq!(field_type, "string");
            assert_eq!(*idx, 2);
            assert!(matches!(flag, Flag::Optional));
        }
        _ => panic!("expected a field"),
    }
    match &user.fields[3] {
        Field::MapField { name, key_type, value_type, idx } => {
            assert_eq!(name, "counts");
            assert_eq!(key_type, "string");
            assert_eq!(value_type, "int32");
            assert_eq!(*idx, 4);
        }
        _ => panic!("expected a map field"),
    }
    match &user.fields[4] {
        Field::Single { field_type, .. } => assert_eq!(field_type, "google.protobuf.Timestamp"),
        _ => panic!("expected a field"),
    }
    match &user.fields[7] {
        Field::Reserved(ReservedField::Idx { idx }) => assert_eq!(idx, &vec![8, 9, 10]),
        _ => panic!("expected reserved numbers"),
    }
    match &user.fields[8] {
        Field::Reserved(ReservedField::Name { name }) => {
            assert_eq!(name, &vec!["old_name".to_string(), "older_name".to_string()])
        }
        _ => panic!("expected reserved names"),
    }
    match &user.fields[9] {
        Field::OneOf { name, fields } => {
            assert_eq!(name, "contact");
            assert_eq!(fields.len(), 2);
        }
        _ => panic!("expected a oneof"),
    }
    match &user.fields[10] {
        Field::SubMessage(m) => {
            assert_eq!(m.name, "Address");
            assert_eq!(m.fields.len(), 3);
        }
        _ => panic!("expected a nested message"),
    }
    match &user.fields[12] {
        Field::SubEnum(e) => {
            assert_eq!(e.name, "Status");
            assert_eq!(e.values.len(), 3);
            assert!(matches!(e.values[2], EnumValue::Reserved { idx: 2 }));
        }
        _ => panic!("expected a nested enum"),
    }
    match &p.elems[8] {
        Elem::Extend { name, fields } => {
            assert_eq!(name, "User");
            assert_eq!(fields.len(), 1);
        }
        _ => panic!("expected an extend"),
    }
    match &p.elems[9] {
        Elem::Message(m) => match &m.fields[0] {
            Field::Extensions(from, to) => {
                assert_eq!(from, "100");
                assert_eq!(to, "max");
            }
            _ => panic!("expected extensions"),
        },
        _ => panic!("expected a message"),
    }
    match &p.elems[10] {
        Elem::Service { name, nodes } => {
            assert_eq!(name, "UserService");
            assert_eq!(nodes.len(), 3);
            assert!(matches!(nodes[0], ServiceNode::Option(_)));
            match &nodes[2] {
                ServiceNode::Rpc(r) => {
                    assert_eq!(r.name, "Watch");
                    assert_eq!(r.request, "User");
                    assert!(r.stream_request);
                    assert_eq!(r.response, "User");
                    assert!(r.stream_response);
                }
                _ => panic!("expected an rpc"),
            }
            match &nodes[1] {
                ServiceNode::Rpc(r) => assert!(!r.stream_request && !r.stream_response),
                _ => panic!("expected an rpc"),
            }
        }
        _ => panic!("expected a service"),
    }
}

#[test]
fn example_file_generates() {
    let p = parse("example.proto", EXAMPLE).unwrap();
    let out = protots::typescript::to_schema(&p).unwrap();
    assert!(out.contains("// Source: example.proto\n"));
    assert!(out.contains("  status: User_StatusSchema,\n"));
    assert!(out.contains("  kind: User_Address_KindSchema,\n"));
    assert!(out.contains("  createdAt: z.coerce.date(),\n"));
    assert!(out.contains("  score: z.coerce.bigint(),\n"));
    assert!(out.contains("  contact: z.union([z.object({ email: z.string() }), z.object({ phone: z.string() })]),\n"));
    assert!(out.contains("export const RoleSchema = z.nativeEnum(Role).catch(Role.ROLE_USER);"));
    assert_eq!(out.matches("export const ").count(), 6);
}

#[test]
fn trailing_garbage_is_incomplete() {
    let r = parse("f", r#"syntax = "proto3"; message A { string a = 1; } garbage here"#);
    assert!(matches!(r, Err(PtError::IncompleteParsing)));
}

#[test]
fn broken_declaration_is_incomplete() {
    let r = parse("f", r#"syntax = "proto3"; message A { string a = ; }"#);
    assert!(matches!(r, Err(PtError::IncompleteParsing)));
}

#[test]
fn missing_header_is_parse_error() {
    let r = parse("f", "  message A {}");
    match r {
        Err(PtError::ParsingError(m)) => {
            assert_eq!(m, "expected `syntax = \"...\";` at: message A {}")
        }
        other => panic!("unexpected result: {:?}", other),
    }
}

#[test]
fn empty_syntax_string_is_parse_error() {
    let r = parse("f", r#"syntax = "";"#);
    assert!(matches!(r, Err(PtError::ParsingError(_))));
}

#[test]
fn header_only_parses() {
    let p = parse("f", "// c\nsyntax = \"proto2\";  /* trailing */ \n").unwrap();
    assert_eq!(p.syntax, "proto2");
    assert_eq!(p.elems.len(), 0);
}

#[test]
fn unclosed_comment_is_incomplete() {
    let r = parse("f", "syntax = \"proto3\"; /* never closed");
    assert!(matches!(r, Err(PtError::IncompleteParsing)));
}

#[test]
fn field_number_must_fit_i32() {
    assert!(parse("f", r#"syntax = "proto3"; message A { int32 a = 2147483647; }"#).is_ok());
    assert!(matches!(
        parse("f", r#"syntax = "proto3"; message A { int32 a = 2147483648; }"#),
        Err(PtError::IncompleteParsing)
    ));
    assert!(matches!(
        parse("f", r#"syntax = "proto3"; message A { int32 a = 1-2; }"#),
        Err(PtError::IncompleteParsing)
    ));
}

#[test]
fn negative_field_numbers_are_accepted() {
    let p = parse("f", r#"syntax = "proto3"; message A { int32 a = -3; }"#).unwrap();
    match &p.elems[0] {
        Elem::Message(m) => match &m.fields[0] {
            Field::Single { idx, .. } => assert_eq!(*idx, -3),
            _ => panic!("expected a field"),
        },
        _ => panic!("expected a message"),
    }
}

#[test]
fn mixed_reserved_list_is_incomplete() {
    let r = parse("f", r#"syntax = "proto3"; message A { reserved 1, "a"; }"#);
    assert!(matches!(r, Err(PtError::IncompleteParsing)));
}

#[test]
fn escaped_quote_in_string() {
    let p = parse("f", r#"syntax = "proto3"; import "a\"b";"#).unwrap();
    match &p.elems[0] {
        Elem::Import { name } => assert_eq!(name, r#"a\"b"#),
        _ => panic!("expected an import"),
    }
}
