//! The syntax tree of a Protocol Buffers definition file.
use vstd::prelude::*;

verus! {

/// A parsed file: the label it was read from, its `syntax` version and its
/// top-level declarations in source order.
#[derive(Debug)]
pub struct Proto {
    pub file: String,
    pub syntax: String,
    pub elems: Vec<Elem>,
}

/// Presence marker of a field.
#[derive(Debug)]
pub enum Flag {
    /// No label.
    Singular,
    Optional,
    Repeated,
    /// proto2 only; generated like `Singular`.
    Required,
}

/// A `reserved` statement: field numbers or field names, never both.
#[derive(Debug)]
pub enum ReservedField {
    Idx { idx: Vec<i32> },
    Name { name: Vec<String> },
}

/// One entry of a message body.
#[derive(Debug)]
pub enum Field {
    Single { name: String, field_type: String, idx: i32, flag: Flag },
    MapField { name: String, key_type: String, value_type: String, idx: i32 },
    OneOf { name: String, fields: Vec<Field> },
    SubMessage(Msg),
    SubEnum(Enum),
    Reserved(ReservedField),
    Extensions(String, String),
}

/// A method of a service.
#[derive(Debug)]
pub struct Rpc {
    pub name: String,
    pub request: String,
    pub stream_request: bool,
    pub response: String,
    pub stream_response: bool,
}

#[derive(Debug)]
pub enum EnumValue {
    Single { name: String, idx: i32 },
    Reserved { idx: i32 },
}

/// The value of an option. The entries of a braced value are checked but
/// not kept.
#[derive(Debug)]
#[allow(inconsistent_fields)]
pub enum OptionValue {
    Str { value: String },
    Constant { value: String },
    Num { value: i32 },
    Bool { value: bool },
    Msg { value: String },
}

#[derive(Debug)]
pub struct Msg {
    pub name: String,
    pub fields: Vec<Field>,
}

#[derive(Debug)]
pub struct Enum {
    pub name: String,
    pub values: Vec<EnumValue>,
}

#[derive(Debug)]
pub struct Option {
    pub name: String,
    pub value: OptionValue,
}

#[derive(Debug)]
pub enum ServiceNode {
    Rpc(Rpc),
    Option(Option),
}

/// A top-level declaration.
#[derive(Debug)]
pub enum Elem {
    Message(Msg),
    Enum(Enum),
    Option(Option),
    Import { name: String },
    Package { name: String },
    Extend { name: String, fields: Vec<Field> },
    Service { name: String, nodes: Vec<ServiceNode> },
}

} // verus!
