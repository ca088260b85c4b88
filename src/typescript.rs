//! Generation of zod schemas from a parsed file.
//!
//! Every message becomes an object schema and a type inferred from it, and
//! every enum a native enum and a schema over it; nested declarations come
//! before the message that holds them. The spec functions of this module
//! give the generated text exactly.
use vstd::prelude::*;
use crate::ast::{Elem, Enum, EnumValue, Field, Flag, Msg, Proto};
use crate::context::{
    elem_decls, elems_decls, join, join_exec, parent_view, resolve, views, Context, ProtoType, TypeNames,
};
use crate::errors::PtError;
use crate::text::push_char;

verus! {

/// The text of a sequence of blocks, in order.
pub open spec fn concat(bs: Seq<Seq<char>>) -> Seq<char>
    decreases bs.len(),
{
    if bs.len() == 0 {
        Seq::empty()
    } else {
        concat(bs.drop_last()) + bs.last()
    }
}

pub proof fn lemma_concat_append(a: Seq<Seq<char>>, b: Seq<Seq<char>>)
    ensures
        concat(a + b) == concat(a) + concat(b),
    decreases b.len(),
{
    if b.len() == 0 {
        assert(a + b =~= a);
        assert(concat(a) + concat(b) =~= concat(a));
    } else {
        lemma_concat_append(a, b.drop_last());
        assert((a + b).drop_last() =~= a + b.drop_last());
        assert((a + b).last() == b.last());
        assert(concat(a + b) =~= concat(a) + concat(b));
    }
}

pub proof fn lemma_concat_push(a: Seq<Seq<char>>, x: Seq<char>)
    ensures
        concat(a.push(x)) == concat(a) + x,
{
    assert(a.push(x).drop_last() =~= a);
}

/// ASCII upper case; other characters are unchanged.
pub open spec fn upper(c: char) -> char {
    if 'a' <= c && c <= 'z' {
        ((c as u32) - 32) as char
    } else {
        c
    }
}

/// `w` with its first character in upper case.
pub open spec fn capitalized(w: Seq<char>) -> Seq<char> {
    if w.len() == 0 {
        w
    } else {
        seq![upper(w[0])] + w.drop_first()
    }
}

/// The camel-case form of a field name: underscores are dropped, and the
/// first letter of each underscore-separated part is put in upper case,
/// except in the first non-empty part.
pub open spec fn camel(s: Seq<char>) -> Seq<char>
    decreases s.len(),
{
    if s.len() == 0 {
        Seq::empty()
    } else {
        let p = s.drop_last();
        let c = s.last();
        if c == '_' {
            camel(p)
        } else if p.len() > 0 && p.last() == '_' && camel(p).len() > 0 {
            camel(p).push(upper(c))
        } else {
            camel(p).push(c)
        }
    }
}

/// The validator of a scalar or well-known type, if `t` names one.
pub open spec fn builtin_type(t: Seq<char>) -> Option<Seq<char>> {
    if t == "string"@ || t == "bytes"@ {
        Some("z.string()"@)
    } else if t == "int32"@ || t == "double"@ || t == "float"@ || t == "uint32"@ || t == "sint32"@
        || t == "fixed32"@ || t == "sfixed32"@ {
        Some("z.number()"@)
    } else if t == "int64"@ || t == "uint64"@ || t == "fixed64"@ || t == "sfixed64"@ || t
        == "sint64"@ {
        Some("z.coerce.bigint()"@)
    } else if t == "bool"@ {
        Some("z.boolean()"@)
    } else if t == "google.protobuf.Timestamp"@ {
        Some("z.coerce.date()"@)
    } else {
        None
    }
}

/// The validator for type name `name`, or the name itself where it is
/// neither built in nor found in the table.
pub open spec fn type_expr(t: Seq<TypeNames>, name: Seq<char>, parent: Option<TypeNames>) -> Result<
    Seq<char>,
    Seq<char>,
> {
    match builtin_type(name) {
        Some(x) => Ok(x),
        None => match resolve(t, name, parent) {
            Some(n) => Ok(n.schema),
            None => Err(name),
        },
    }
}

pub open spec fn flagged(e: Seq<char>, flag: Flag) -> Seq<char> {
    match flag {
        Flag::Optional => "z.optional("@ + e + ")"@,
        Flag::Repeated => "z.array("@ + e + ")"@,
        _ => e,
    }
}

/// One alternative of a oneof: an object with the single field `line`.
pub open spec fn wrap_case(line: Seq<char>) -> Seq<char> {
    "z.object({ "@ + line + " })"@
}

pub open spec fn wrapped_cases(cases: Seq<Seq<char>>) -> Seq<Seq<char>> {
    cases.map_values(|c: Seq<char>| wrap_case(c))
}

/// A oneof's validator: its only alternative, or a union of all of them.
pub open spec fn oneof_expr(cases: Seq<Seq<char>>) -> Seq<char> {
    let w = wrapped_cases(cases);
    if w.len() == 1 {
        w[0]
    } else {
        "z.union(["@ + join(w, ", "@) + "])"@
    }
}

/// The body lines of an object schema.
pub open spec fn field_lines(lines: Seq<Seq<char>>) -> Seq<char>
    decreases lines.len(),
{
    if lines.len() == 0 {
        Seq::empty()
    } else {
        field_lines(lines.drop_last()) + "  "@ + lines.last() + ",\n"@
    }
}

/// The declarations of one message: its object schema and its type.
pub open spec fn msg_block(pt: TypeNames, lines: Seq<Seq<char>>) -> Seq<char> {
    "export const "@ + pt.schema + " = z.object({\n"@ + field_lines(lines) + "});\n\n"@
        + "export type "@ + pt.ts + " = z.infer<typeof "@ + pt.schema + ">;\n\n"@
}

/// The blocks of a message, nested ones first, or the first type name that
/// does not resolve.
pub open spec fn msg_blocks(t: Seq<TypeNames>, m: Msg, parent: Option<TypeNames>) -> Result<
    Seq<Seq<char>>,
    Seq<char>,
>
    decreases m,
{
    match resolve(t, m.name@, parent) {
        None => Err(m.name@),
        Some(pt) => {
            proof {
                assert(decreases_to!(m.fields => m.fields@));
            }
            match fields_out(t, m.fields@, Some(pt)) {
                Err(e) => Err(e),
                Ok((blocks, lines)) => Ok(blocks.push(msg_block(pt, lines))),
            }
        },
    }
}

/// The nested blocks and the schema lines of a list of fields.
pub open spec fn fields_out(t: Seq<TypeNames>, fs: Seq<Field>, parent: Option<TypeNames>) -> Result<
    (Seq<Seq<char>>, Seq<Seq<char>>),
    Seq<char>,
>
    decreases fs,
{
    if fs.len() == 0 {
        Ok((Seq::empty(), Seq::empty()))
    } else {
        proof {
            assert(decreases_to!(fs => fs.subrange(0, fs.len() - 1)));
            assert(decreases_to!(fs => fs[fs.len() - 1]));
        }
        match fields_out(t, fs.subrange(0, fs.len() - 1), parent) {
            Err(e) => Err(e),
            Ok((b, l)) => match field_out(t, fs[fs.len() - 1], parent) {
                Err(e) => Err(e),
                Ok((b2, line)) => Ok(
                    (
                        b + b2,
                        match line {
                            Some(x) => l.push(x),
                            None => l,
                        },
                    ),
                ),
            },
        }
    }
}

/// The nested blocks and the schema line of one field. Nested messages and
/// enums give blocks and no line; reserved and extensions give nothing.
pub open spec fn field_out(t: Seq<TypeNames>, f: Field, parent: Option<TypeNames>) -> Result<
    (Seq<Seq<char>>, Option<Seq<char>>),
    Seq<char>,
>
    decreases f,
{
    match f {
        Field::Single { name, field_type, idx, flag } => match type_expr(t, field_type@, parent) {
            Err(e) => Err(e),
            Ok(x) => Ok((Seq::empty(), Some(camel(name@) + ": "@ + flagged(x, flag)))),
        },
        Field::MapField { name, key_type, value_type, idx } => match type_expr(
            t,
            key_type@,
            parent,
        ) {
            Err(e) => Err(e),
            Ok(k) => match type_expr(t, value_type@, parent) {
                Err(e) => Err(e),
                Ok(v) => Ok(
                    (Seq::empty(), Some(camel(name@) + ": z.record("@ + k + ", "@ + v + ")"@)),
                ),
            },
        },
        Field::OneOf { name, fields } => {
            proof {
                assert(decreases_to!(fields => fields@));
            }
            match fields_out(t, fields@, parent) {
                Err(e) => Err(e),
                Ok((b, cases)) => Ok((b, Some(camel(name@) + ": "@ + oneof_expr(cases)))),
            }
        },
        Field::SubMessage(m) => match msg_blocks(t, m, parent) {
            Err(e) => Err(e),
            Ok(b) => Ok((b, None)),
        },
        Field::SubEnum(e) => match enum_block(t, e, parent) {
            Err(x) => Err(x),
            Ok(b) => Ok((seq![b], None)),
        },
        _ => Ok((Seq::empty(), None)),
    }
}

/// The entries that formatting `f` adds to the list of nested
/// declarations: one text per nested message (its blocks joined) or nested
/// enum, those of a oneof's fields in order, and none for any other field.
pub open spec fn field_elems(t: Seq<TypeNames>, f: Field, parent: Option<TypeNames>) -> Seq<
    Seq<char>,
>
    decreases f,
{
    match f {
        Field::OneOf { name, fields } => {
            proof {
                assert(decreases_to!(fields => fields@));
            }
            fields_elems(t, fields@, parent)
        },
        Field::SubMessage(m) => match msg_blocks(t, m, parent) {
            Ok(b) => seq![concat(b)],
            Err(_) => Seq::empty(),
        },
        Field::SubEnum(e) => match enum_block(t, e, parent) {
            Ok(b) => seq![b],
            Err(_) => Seq::empty(),
        },
        _ => Seq::empty(),
    }
}

pub open spec fn fields_elems(t: Seq<TypeNames>, fs: Seq<Field>, parent: Option<TypeNames>) -> Seq<
    Seq<char>,
>
    decreases fs,
{
    if fs.len() == 0 {
        Seq::empty()
    } else {
        proof {
            assert(decreases_to!(fs => fs.subrange(0, fs.len() - 1)));
            assert(decreases_to!(fs => fs[fs.len() - 1]));
        }
        fields_elems(t, fs.subrange(0, fs.len() - 1), parent) + field_elems(t, fs[fs.len() - 1], parent)
    }
}

/// The members of a native enum: `Name = "Name"` for each value that is not
/// reserved.
pub open spec fn enum_lines(vs: Seq<EnumValue>) -> Seq<char>
    decreases vs.len(),
{
    if vs.len() == 0 {
        Seq::empty()
    } else {
        enum_lines(vs.drop_last()) + match vs.last() {
            EnumValue::Single { name, idx } => "  "@ + name@ + " = \""@ + name@ + "\",\n"@,
            EnumValue::Reserved { idx } => Seq::empty(),
        }
    }
}

/// The name of the first value numbered 0; reserved entries do not count.
pub open spec fn first_zero(vs: Seq<EnumValue>) -> Option<Seq<char>>
    decreases vs.len(),
{
    if vs.len() == 0 {
        None
    } else {
        match vs[0] {
            EnumValue::Single { name, idx } => if idx == 0 {
                Some(name@)
            } else {
                first_zero(vs.drop_first())
            },
            EnumValue::Reserved { idx } => first_zero(vs.drop_first()),
        }
    }
}

/// The fallback of an enum schema to its default value, if it has one.
pub open spec fn catch_clause(ts: Seq<char>, default: Option<Seq<char>>) -> Seq<char> {
    match default {
        Some(d) => ".catch("@ + ts + "."@ + d + ")"@,
        None => Seq::empty(),
    }
}

pub open spec fn enum_text(pt: TypeNames, vs: Seq<EnumValue>) -> Seq<char> {
    "export enum "@ + pt.ts + " {\n"@ + enum_lines(vs) + "}\n\n"@ + "export const "@ + pt.schema
        + " = z.nativeEnum("@ + pt.ts + ")"@ + catch_clause(pt.ts, first_zero(vs)) + ";\n\n"@
}

/// The declarations of one enum: the native enum and its schema.
pub open spec fn enum_block(t: Seq<TypeNames>, e: Enum, parent: Option<TypeNames>) -> Result<
    Seq<char>,
    Seq<char>,
> {
    match resolve(t, e.name@, parent) {
        None => Err(e.name@),
        Some(pt) => Ok(enum_text(pt, e.values@)),
    }
}

pub open spec fn elem_blocks(t: Seq<TypeNames>, e: Elem) -> Result<Seq<Seq<char>>, Seq<char>> {
    match e {
        Elem::Message(m) => msg_blocks(t, m, None),
        Elem::Enum(v) => match enum_block(t, v, None) {
            Err(x) => Err(x),
            Ok(b) => Ok(seq![b]),
        },
        _ => Ok(Seq::empty()),
    }
}

pub open spec fn elems_blocks(t: Seq<TypeNames>, es: Seq<Elem>) -> Result<Seq<Seq<char>>, Seq<char>>
    decreases es.len(),
{
    if es.len() == 0 {
        Ok(Seq::empty())
    } else {
        match elems_blocks(t, es.drop_last()) {
            Err(x) => Err(x),
            Ok(b) => match elem_blocks(t, es.last()) {
                Err(x) => Err(x),
                Ok(b2) => Ok(b + b2),
            },
        }
    }
}

pub open spec fn header(file: Seq<char>) -> Seq<char> {
    "//\n// Code generated by protots - DO NOT EDIT\n// Source: "@ + file
        + "\n//\n\nimport { z } from \"zod\";\n\n"@
}

/// The blocks of a whole file, with the table built from the same file.
pub open spec fn proto_blocks(proto: Proto) -> Result<Seq<Seq<char>>, Seq<char>> {
    elems_blocks(elems_decls(proto.elems@), proto.elems@)
}

/// The generated text of a whole file, or the first type name that does not
/// resolve.
pub open spec fn schema_text(proto: Proto) -> Result<Seq<char>, Seq<char>> {
    match proto_blocks(proto) {
        Ok(b) => Ok(header(proto.file@) + concat(b)),
        Err(x) => Err(x),
    }
}

/// `r` is the text `spec` gives, or the type-not-found error it names.
pub open spec fn text_result(r: Result<String, PtError>, spec: Result<Seq<char>, Seq<char>>) -> bool {
    match spec {
        Ok(x) => r matches Ok(s) && s@ == x,
        Err(n) => r matches Err(PtError::ProtobufTypeNotFound(m)) && m@ == n,
    }
}


fn upper_char(c: char) -> (r: char)
    ensures
        r == upper(c),
{
    if 'a' <= c && c <= 'z' {
        ((c as u8) - 32) as char
    } else {
        c
    }
}

/// `word` with its first character in ASCII upper case.
fn to_camel(word: &str) -> (r: String)
    ensures
        r@ == capitalized(word@),
{
    let n = word.unicode_len();
    if n == 0 {
        return word.to_owned();
    }
    let mut r = String::new();
    push_char(&mut r, upper_char(word.get_char(0)));
    r.append(word.substring_char(1, n));
    assert(r@ =~= capitalized(word@));
    r
}

/// Appending a run of non-underscore characters that starts a part.
proof fn lemma_camel_run(s: Seq<char>, i: int, j: int)
    requires
        0 <= i < j <= s.len(),
        i == 0 || s[i - 1] == '_',
        forall|k: int| i <= k < j ==> s[k] != '_',
    ensures
        camel(s.subrange(0, j)) == camel(s.subrange(0, i)) + if camel(s.subrange(0, i)).len() == 0 {
            s.subrange(i, j)
        } else {
            capitalized(s.subrange(i, j))
        },
    decreases j - i,
{
    let t = s.subrange(0, j);
    assert(t.drop_last() =~= s.subrange(0, j - 1));
    assert(t.last() == s[j - 1]);
    if j == i + 1 {
        if i > 0 {
            assert(t.drop_last().last() == s[i - 1]);
        }
        assert(camel(s.subrange(0, j)) =~= camel(s.subrange(0, i)) + if camel(s.subrange(0, i)).len()
            == 0 {
            s.subrange(i, j)
        } else {
            capitalized(s.subrange(i, j))
        });
    } else {
        lemma_camel_run(s, i, j - 1);
        assert(t.drop_last().last() == s[j - 2]);
        let w = s.subrange(i, j - 1);
        assert(s.subrange(i, j) =~= w.push(s[j - 1]));
        assert(capitalized(w.push(s[j - 1])) =~= capitalized(w).push(s[j - 1]));
        assert(camel(s.subrange(0, j)) =~= camel(s.subrange(0, i)) + if camel(s.subrange(0, i)).len()
            == 0 {
            s.subrange(i, j)
        } else {
            capitalized(s.subrange(i, j))
        });
    }
}

/// The camel-case form of a field name.
pub fn snake_to_camel(input: &str) -> (r: String)
    ensures
        r@ == camel(input@),
{
    let n = input.unicode_len();
    let mut out = String::new();
    let mut i: usize = 0;
    assert(input@.subrange(0, 0) =~= Seq::<char>::empty());
    while i < n
        invariant
            n == input@.len(),
            i <= n,
            i == 0 || i == n || input@[i - 1] == '_' || input@[i as int] == '_',
            out@ == camel(input@.subrange(0, i as int)),
        decreases n - i,
    {
        if input.get_char(i) == '_' {
            assert(input@.subrange(0, i + 1).drop_last() =~= input@.subrange(0, i as int));
            i = i + 1;
        } else {
            let mut j = i + 1;
            while j < n && input.get_char(j) != '_'
                invariant
                    n == input@.len(),
                    i < j <= n,
                    forall|k: int| i <= k < j ==> input@[k] != '_',
                decreases n - j,
            {
                j = j + 1;
            }
            let part = input.substring_char(i, j);
            proof {
                lemma_camel_run(input@, i as int, j as int);
            }
            if out.as_str().unicode_len() == 0 {
                out.append(part);
            } else {
                let word = to_camel(part);
                out.append(word.as_str());
            }
            i = j;
        }
    }
    assert(input@.subrange(0, n as int) =~= input@);
    out
}

/// Whether two strings are equal.
fn same(a: &str, b: &str) -> (r: bool)
    ensures
        r == (a@ == b@),
{
    a.to_owned() == b.to_owned()
}

/// The validator for a field's type: a scalar, a well-known type, or the
/// schema of a declared message or enum.
fn resolve_type(ctx: &Context, name: &str, parent: Option<&ProtoType>) -> (r: Result<String, PtError>)
    ensures
        text_result(r, type_expr(ctx@, name@, parent_view(parent))),
{
    if same(name, "string") || same(name, "bytes") {
        Ok("z.string()".to_owned())
    } else if same(name, "int32") || same(name, "double") || same(name, "float")
        || same(name, "uint32") || same(name, "sint32") || same(name, "fixed32")
        || same(name, "sfixed32") {
        Ok("z.number()".to_owned())
    } else if same(name, "int64") || same(name, "uint64") || same(name, "fixed64")
        || same(name, "sfixed64") || same(name, "sint64") {
        Ok("z.coerce.bigint()".to_owned())
    } else if same(name, "bool") {
        Ok("z.boolean()".to_owned())
    } else if same(name, "google.protobuf.Timestamp") {
        Ok("z.coerce.date()".to_owned())
    } else {
        match ctx.get(name, parent) {
            Some(pt) => Ok(pt.schema.clone()),
            None => Err(PtError::ProtobufTypeNotFound(name.to_owned())),
        }
    }
}

/// `field` under the presence marker `flag`.
fn flagged_field(field: &str, flag: &Flag) -> (r: String)
    ensures
        r@ == flagged(field@, *flag),
{
    match flag {
        Flag::Optional => String::from_str("z.optional(").concat(field).concat(")"),
        Flag::Repeated => String::from_str("z.array(").concat(field).concat(")"),
        Flag::Singular => field.to_owned(),
        Flag::Required => field.to_owned(),
    }
}


pub open spec fn opt_view(o: Option<String>) -> Option<Seq<char>> {
    match o {
        Some(x) => Some(x@),
        None => None,
    }
}

pub open spec fn blocks_text(r: Result<Seq<Seq<char>>, Seq<char>>) -> Result<Seq<char>, Seq<char>> {
    match r {
        Ok(b) => Ok(concat(b)),
        Err(x) => Err(x),
    }
}

/// One step of `fields_out`: the fields up to `j + 1` from those up to `j`.
proof fn lemma_fields_out_step(t: Seq<TypeNames>, fs: Seq<Field>, j: int, parent: Option<TypeNames>)
    requires
        0 <= j < fs.len(),
    ensures
        fields_out(t, fs.subrange(0, j + 1), parent) == match fields_out(t, fs.subrange(0, j), parent) {
            Err(e) => Err(e),
            Ok((b, l)) => match field_out(t, fs[j], parent) {
                Err(e) => Err(e),
                Ok((b2, line)) => Ok(
                    (
                        b + b2,
                        match line {
                            Some(x) => l.push(x),
                            None => l,
                        },
                    ),
                ),
            },
        },
{
    let g = fs.subrange(0, j + 1);
    assert(g.subrange(0, g.len() - 1) =~= fs.subrange(0, j));
    assert(g[g.len() - 1] == fs[j]);
}

proof fn lemma_fields_elems_step(t: Seq<TypeNames>, fs: Seq<Field>, j: int, parent: Option<TypeNames>)
    requires
        0 <= j < fs.len(),
    ensures
        fields_elems(t, fs.subrange(0, j + 1), parent) == fields_elems(t, fs.subrange(0, j), parent)
            + field_elems(t, fs[j], parent),
{
    let g = fs.subrange(0, j + 1);
    assert(g.subrange(0, g.len() - 1) =~= fs.subrange(0, j));
    assert(g[g.len() - 1] == fs[j]);
}

/// An error among the first `k` fields is the error of the whole list.
proof fn lemma_fields_out_err(t: Seq<TypeNames>, fs: Seq<Field>, k: int, parent: Option<TypeNames>)
    requires
        0 <= k <= fs.len(),
        fields_out(t, fs.subrange(0, k), parent) is Err,
    ensures
        fields_out(t, fs, parent) == fields_out(t, fs.subrange(0, k), parent),
    decreases fs.len() - k,
{
    if k < fs.len() {
        lemma_fields_out_step(t, fs, k, parent);
        lemma_fields_out_err(t, fs, k + 1, parent);
    } else {
        assert(fs.subrange(0, k) =~= fs);
    }
}

/// An error among the first `k` elements is the error of the whole file.
proof fn lemma_elems_blocks_err(t: Seq<TypeNames>, es: Seq<Elem>, k: int)
    requires
        0 <= k <= es.len(),
        elems_blocks(t, es.subrange(0, k)) is Err,
    ensures
        elems_blocks(t, es) == elems_blocks(t, es.subrange(0, k)),
    decreases es.len() - k,
{
    if k < es.len() {
        assert(es.subrange(0, k + 1).drop_last() =~= es.subrange(0, k));
        lemma_elems_blocks_err(t, es, k + 1);
    } else {
        assert(es.subrange(0, k) =~= es);
    }
}

/// The schema line of `field`, if it has one; the text of the declarations
/// nested in it goes to `elements`.
fn format_field(
    ctx: &Context,
    field: &Field,
    parent: Option<&ProtoType>,
    elements: &mut Vec<String>,
) -> (r: Result<Option<String>, PtError>)
    ensures
        match field_out(ctx@, *field, parent_view(parent)) {
            Ok((b, line)) => r matches Ok(o) && opt_view(o) == line && views(final(elements)@)
                == views(old(elements)@) + field_elems(ctx@, *field, parent_view(parent)) && concat(
                views(final(elements)@),
            ) == concat(views(old(elements)@)) + concat(b),
            Err(n) => r matches Err(PtError::ProtobufTypeNotFound(m)) && m@ == n,
        },
    decreases field,
{
    let ghost start = views(elements@);
    proof {
        assert(start + Seq::<Seq<char>>::empty() =~= start);
        lemma_concat_append(start, Seq::empty());
    }
    match field {
        Field::Single { name, field_type, idx: _, flag } => {
            let t = match resolve_type(ctx, field_type.as_str(), parent) {
                Ok(t) => t,
                Err(e) => return Err(e),
            };
            let mut line = snake_to_camel(name.as_str());
            line.append(": ");
            line.append(flagged_field(t.as_str(), flag).as_str());
            Ok(Some(line))
        },
        Field::MapField { name, key_type, value_type, idx: _ } => {
            let k = match resolve_type(ctx, key_type.as_str(), parent) {
                Ok(t) => t,
                Err(e) => return Err(e),
            };
            let v = match resolve_type(ctx, value_type.as_str(), parent) {
                Ok(t) => t,
                Err(e) => return Err(e),
            };
            let mut line = snake_to_camel(name.as_str());
            line.append(": z.record(");
            line.append(k.as_str());
            line.append(", ");
            line.append(v.as_str());
            line.append(")");
            Ok(Some(line))
        },
        Field::OneOf { name, fields } => {
            assert(decreases_to!(*field => field->OneOf_fields));
            let e = match format_oneof(ctx, fields, parent, elements) {
                Ok(e) => e,
                Err(e) => return Err(e),
            };
            let mut line = snake_to_camel(name.as_str());
            line.append(": ");
            line.append(e.as_str());
            Ok(Some(line))
        },
        Field::SubMessage(msg) => {
            assert(decreases_to!(*field => field->SubMessage_0));
            let text = match format_msg(ctx, msg, parent) {
                Ok(t) => t,
                Err(e) => return Err(e),
            };
            elements.push(text);
            proof {
                assert(views(elements@) =~= start.push(text@));
                assert(start.push(text@) =~= start + seq![text@]);
                lemma_concat_push(start, text@);
            }
            Ok(None)
        },
        Field::SubEnum(e) => {
            let text = match format_enum(ctx, e, parent) {
                Ok(t) => t,
                Err(e) => return Err(e),
            };
            elements.push(text);
            proof {
                assert(views(elements@) =~= start.push(text@));
                lemma_concat_push(start, text@);
                lemma_concat_push(Seq::empty(), text@);
                assert(Seq::<Seq<char>>::empty().push(text@) =~= seq![text@]);
                assert(start.push(text@) =~= start + seq![text@]);
            }
            Ok(None)
        },
        _ => Ok(None),
    }
}

/// A oneof's validator; the text of declarations nested in its fields goes
/// to `elements`.
fn format_oneof(
    ctx: &Context,
    oneof: &Vec<Field>,
    parent: Option<&ProtoType>,
    elements: &mut Vec<String>,
) -> (r: Result<String, PtError>)
    ensures
        match fields_out(ctx@, oneof@, parent_view(parent)) {
            Ok((b, cases)) => r matches Ok(s) && s@ == oneof_expr(cases) && views(final(elements)@)
                == views(old(elements)@) + fields_elems(ctx@, oneof@, parent_view(parent)) && concat(
                views(final(elements)@),
            ) == concat(views(old(elements)@)) + concat(b),
            Err(n) => r matches Err(PtError::ProtobufTypeNotFound(m)) && m@ == n,
        },
    decreases oneof,
{
    let ghost pv = parent_view(parent);
    let ghost start = views(elements@);
    let ghost mut blocks: Seq<Seq<char>> = Seq::empty();
    let ghost mut lines: Seq<Seq<char>> = Seq::empty();
    let mut cases: Vec<String> = Vec::new();
    let mut j: usize = 0;
    assert(oneof@.subrange(0, 0) =~= Seq::<Field>::empty());
    assert(start + Seq::<Seq<char>>::empty() =~= start);
    assert(wrapped_cases(lines) =~= Seq::<Seq<char>>::empty());
    while j < oneof.len()
        invariant
            j <= oneof@.len(),
            pv == parent_view(parent),
            fields_out(ctx@, oneof@.subrange(0, j as int), pv) == Ok::<_, Seq<char>>((blocks, lines)),
            concat(views(elements@)) == concat(start) + concat(blocks),
            views(elements@) == start + fields_elems(ctx@, oneof@.subrange(0, j as int), pv),
            views(cases@) == wrapped_cases(lines),
        decreases oneof@.len() - j,
    {
        assert(decreases_to!(*oneof => oneof[j as int]));
        let ghost before = views(elements@);
        let r = format_field(ctx, &oneof[j], parent, elements);
        proof {
            lemma_fields_out_step(ctx@, oneof@, j as int, pv);
            lemma_fields_elems_step(ctx@, oneof@, j as int, pv);
            assert(start + fields_elems(ctx@, oneof@.subrange(0, j + 1), pv) =~= before + field_elems(
                ctx@,
                oneof@[j as int],
                pv,
            ));
        }
        match r {
            Ok(Some(v)) => {
                let mut case = String::from_str("z.object({ ");
                case.append(v.as_str());
                case.append(" })");
                let ghost old_cases = views(cases@);
                cases.push(case);
                proof {
                    assert(views(cases@) =~= old_cases.push(case@));
                    assert(case@ =~= wrap_case(v@));
                    let b2 = field_out(ctx@, oneof@[j as int], pv)->Ok_0.0;
                    lemma_concat_append(blocks, b2);
                    blocks = blocks + b2;
                    lines = lines.push(v@);
                    assert(wrapped_cases(lines) =~= views(cases@));
                }
            },
            Ok(None) => {
                proof {
                    let b2 = field_out(ctx@, oneof@[j as int], pv)->Ok_0.0;
                    lemma_concat_append(blocks, b2);
                    blocks = blocks + b2;
                }
            },
            Err(e) => {
                proof {
                    lemma_fields_out_err(ctx@, oneof@, j + 1, pv);
                }
                return Err(e);
            },
        }
        j = j + 1;
    }
    assert(oneof@.subrange(0, j as int) =~= oneof@);
    if cases.len() == 1 {
        assert(views(cases@)[0] == cases@[0]@);
        return Ok(cases[0].clone());
    }
    let mut r = String::from_str("z.union([");
    r.append(join_exec(&cases, ", ").as_str());
    r.append("])");
    Ok(r)
}


/// The text of a message's declarations, nested ones first.
fn format_msg(ctx: &Context, msg: &Msg, parent: Option<&ProtoType>) -> (r: Result<String, PtError>)
    ensures
        text_result(r, blocks_text(msg_blocks(ctx@, *msg, parent_view(parent)))),
    decreases msg,
{
    let ptype = match ctx.get(msg.name.as_str(), parent) {
        Some(p) => p,
        None => return Err(PtError::ProtobufTypeNotFound(msg.name.clone())),
    };
    let ghost pt = ptype@;
    let ghost pv = parent_view(Some(ptype));
    let ghost mut blocks: Seq<Seq<char>> = Seq::empty();
    let mut sub_messages: Vec<String> = Vec::new();
    let mut fields: Vec<String> = Vec::new();
    let mut j: usize = 0;
    assert(msg.fields@.subrange(0, 0) =~= Seq::<Field>::empty());
    assert(views(fields@) =~= Seq::<Seq<char>>::empty());
    assert(views(sub_messages@) =~= Seq::<Seq<char>>::empty());
    while j < msg.fields.len()
        invariant
            j <= msg.fields@.len(),
            pv == Some(pt),
            pt == ptype@,
            resolve(ctx@, msg.name@, parent_view(parent)) == Some(pt),
            fields_out(ctx@, msg.fields@.subrange(0, j as int), pv) == Ok::<_, Seq<char>>(
                (blocks, views(fields@)),
            ),
            concat(views(sub_messages@)) == concat(blocks),
        decreases msg.fields@.len() - j,
    {
        assert(decreases_to!(*msg => msg.fields));
        assert(decreases_to!(*msg => msg.fields[j as int]));
        let ghost old_fields = views(fields@);
        let r = format_field(ctx, &msg.fields[j], Some(ptype), &mut sub_messages);
        proof {
            lemma_fields_out_step(ctx@, msg.fields@, j as int, pv);
        }
        match r {
            Ok(Some(v)) => {
                fields.push(v);
                proof {
                    assert(views(fields@) =~= old_fields.push(v@));
                }
            },
            Ok(None) => {},
            Err(e) => {
                proof {
                    lemma_fields_out_err(ctx@, msg.fields@, j + 1, pv);
                }
                return Err(e);
            },
        }
        proof {
            let b2 = field_out(ctx@, msg.fields@[j as int], pv)->Ok_0.0;
            lemma_concat_append(blocks, b2);
            blocks = blocks + b2;
        }
        j = j + 1;
    }
    assert(msg.fields@.subrange(0, j as int) =~= msg.fields@);
    let ghost lines = views(fields@);
    let mut text = String::new();
    let mut k: usize = 0;
    assert(views(sub_messages@).subrange(0, 0) =~= Seq::<Seq<char>>::empty());
    while k < sub_messages.len()
        invariant
            k <= sub_messages@.len(),
            text@ == concat(views(sub_messages@).subrange(0, k as int)),
        decreases sub_messages@.len() - k,
    {
        text.append(sub_messages[k].as_str());
        assert(views(sub_messages@).subrange(0, k + 1).drop_last() =~= views(sub_messages@).subrange(
            0,
            k as int,
        ));
        k = k + 1;
    }
    assert(views(sub_messages@).subrange(0, k as int) =~= views(sub_messages@));
    let ghost prefix = text@ + "export const "@ + pt.schema + " = z.object({\n"@;
    text.append("export const ");
    text.append(ptype.schema.as_str());
    text.append(" = z.object({\n");
    let mut k: usize = 0;
    assert(lines.subrange(0, 0) =~= Seq::<Seq<char>>::empty());
    assert(prefix + field_lines(Seq::empty()) =~= prefix);
    while k < fields.len()
        invariant
            k <= fields@.len(),
            lines == views(fields@),
            text@ == prefix + field_lines(lines.subrange(0, k as int)),
        decreases fields@.len() - k,
    {
        text.append("  ");
        text.append(fields[k].as_str());
        text.append(",\n");
        assert(lines.subrange(0, k + 1).drop_last() =~= lines.subrange(0, k as int));
        assert(text@ =~= prefix + field_lines(lines.subrange(0, k + 1)));
        k = k + 1;
    }
    assert(lines.subrange(0, k as int) =~= lines);
    text.append("});\n\n");
    text.append("export type ");
    text.append(ptype.ts_name.as_str());
    text.append(" = z.infer<typeof ");
    text.append(ptype.schema.as_str());
    text.append(">;\n\n");
    proof {
        lemma_concat_push(blocks, msg_block(pt, lines));
        assert(text@ =~= concat(blocks) + msg_block(pt, lines));
    }
    Ok(text)
}

/// The text of an enum's declarations.
fn format_enum(ctx: &Context, value: &Enum, parent: Option<&ProtoType>) -> (r: Result<String, PtError>)
    ensures
        text_result(r, enum_block(ctx@, *value, parent_view(parent))),
{
    let ptype = match ctx.get(value.name.as_str(), parent) {
        Some(p) => p,
        None => return Err(PtError::ProtobufTypeNotFound(value.name.clone())),
    };
    let ghost pt = ptype@;
    let ghost vs = value.values@;
    let mut text = String::from_str("export enum ");
    text.append(ptype.ts_name.as_str());
    text.append(" {\n");
    let ghost prefix = text@;
    let mut k: usize = 0;
    assert(vs.subrange(0, 0) =~= Seq::<EnumValue>::empty());
    assert(prefix + enum_lines(Seq::empty()) =~= prefix);
    while k < value.values.len()
        invariant
            k <= vs.len(),
            vs == value.values@,
            text@ == prefix + enum_lines(vs.subrange(0, k as int)),
        decreases vs.len() - k,
    {
        assert(vs.subrange(0, k + 1).drop_last() =~= vs.subrange(0, k as int));
        match &value.values[k] {
            EnumValue::Single { name, idx: _ } => {
                text.append("  ");
                text.append(name.as_str());
                text.append(" = \"");
                text.append(name.as_str());
                text.append("\",\n");
            },
            EnumValue::Reserved { idx: _ } => {},
        }
        assert(text@ =~= prefix + enum_lines(vs.subrange(0, k + 1)));
        k = k + 1;
    }
    assert(vs.subrange(0, k as int) =~= vs);
    text.append("}\n\n");
    let mut default: Option<&String> = None;
    let mut k: usize = 0;
    assert(vs.subrange(0, vs.len() as int) =~= vs);
    while k < value.values.len()
        invariant_except_break
            default is None,
        invariant
            k <= vs.len(),
            vs == value.values@,
            first_zero(vs) == first_zero(vs.subrange(k as int, vs.len() as int)),
        ensures
            default matches Some(d) ==> first_zero(vs) == Some(d@),
            default is None ==> first_zero(vs) is None,
        decreases vs.len() - k,
    {
        assert(vs.subrange(k as int, vs.len() as int).drop_first() =~= vs.subrange(
            k + 1,
            vs.len() as int,
        ));
        assert(vs.subrange(k as int, vs.len() as int)[0] == vs[k as int]);
        if let EnumValue::Single { name, idx } = &value.values[k] {
            if *idx == 0 {
                default = Some(name);
                break;
            }
        }
        k = k + 1;
    }
    text.append("export const ");
    text.append(ptype.schema.as_str());
    text.append(" = z.nativeEnum(");
    text.append(ptype.ts_name.as_str());
    text.append(")");
    if let Some(d) = default {
        text.append(".catch(");
        text.append(ptype.ts_name.as_str());
        text.append(".");
        text.append(d.as_str());
        text.append(")");
    }
    text.append(";\n\n");
    assert(text@ =~= enum_text(pt, vs));
    Ok(text)
}

/// The zod schema of a parsed file: a banner naming the source, the import
/// of zod, then the declarations of each top-level message and enum in
/// order. Fails with the first type name that does not resolve.
pub fn to_schema(proto: &Proto) -> (r: Result<String, PtError>)
    ensures
        text_result(r, schema_text(*proto)),
{
    let ctx = Context::new(proto);
    let ghost t = ctx@;
    let ghost es = proto.elems@;
    let mut text = String::from_str("//\n// Code generated by protots - DO NOT EDIT\n// Source: ");
    text.append(proto.file.as_str());
    text.append("\n//\n\nimport { z } from \"zod\";\n\n");
    let ghost mut blocks: Seq<Seq<char>> = Seq::empty();
    let mut i: usize = 0;
    assert(es.subrange(0, 0) =~= Seq::<Elem>::empty());
    assert(text@ =~= header(proto.file@) + concat(blocks));
    while i < proto.elems.len()
        invariant
            i <= es.len(),
            es == proto.elems@,
            t == ctx@,
            t == elems_decls(es),
            elems_blocks(t, es.subrange(0, i as int)) == Ok::<_, Seq<char>>(blocks),
            text@ == header(proto.file@) + concat(blocks),
        decreases es.len() - i,
    {
        assert(es.subrange(0, i + 1).drop_last() =~= es.subrange(0, i as int));
        match &proto.elems[i] {
            Elem::Message(msg) => {
                let s = match format_msg(&ctx, msg, None) {
                    Ok(s) => s,
                    Err(e) => {
                        proof {
                            lemma_elems_blocks_err(t, es, i + 1);
                        }
                        return Err(e);
                    },
                };
                text.append(s.as_str());
                proof {
                    let b2 = msg_blocks(t, *msg, None)->Ok_0;
                    lemma_concat_append(blocks, b2);
                    blocks = blocks + b2;
                }
            },
            Elem::Enum(e) => {
                let s = match format_enum(&ctx, e, None) {
                    Ok(s) => s,
                    Err(e) => {
                        proof {
                            lemma_elems_blocks_err(t, es, i + 1);
                        }
                        return Err(e);
                    },
                };
                text.append(s.as_str());
                proof {
                    lemma_concat_push(Seq::empty(), s@);
                    assert(Seq::<Seq<char>>::empty().push(s@) =~= seq![s@]);
                    lemma_concat_append(blocks, seq![s@]);
                    blocks = blocks + seq![s@];
                }
            },
            _ => {
                proof {
                    lemma_concat_append(blocks, Seq::empty());
                    assert(blocks + Seq::<Seq<char>>::empty() =~= blocks);
                }
            },
        }
        assert(text@ =~= header(proto.file@) + concat(blocks));
        i = i + 1;
    }
    assert(es.subrange(0, i as int) =~= es);
    Ok(text)
}


/// A oneof with exactly one alternative is that alternative's object
/// schema, with no union around it; one with two or more is a union whose
/// members are the alternatives' object schemas, one per field line, in
/// declaration order.
pub proof fn lemma_oneof_arity(t: Seq<TypeNames>, f: Field, parent: Option<TypeNames>)
    requires
        f is OneOf,
        fields_out(t, f->OneOf_fields@, parent) is Ok,
    ensures
        ({
            let cases = fields_out(t, f->OneOf_fields@, parent)->Ok_0.1;
            let line = field_out(t, f, parent)->Ok_0.1->Some_0;
            let members = wrapped_cases(cases);
            &&& field_out(t, f, parent) is Ok
            &&& cases.len() == 1 ==> line == camel(f->OneOf_name@) + ": "@ + wrap_case(cases[0])
            &&& cases.len() >= 2 ==> line == camel(f->OneOf_name@) + ": "@ + "z.union(["@ + join(
                members,
                ", "@,
            ) + "])"@
            &&& members.len() == cases.len()
            &&& forall|i: int| 0 <= i < cases.len() ==> #[trigger] members[i] == wrap_case(cases[i])
        }),
{
}

pub open spec fn is_zero_value(v: EnumValue) -> bool {
    match v {
        EnumValue::Single { name, idx } => idx == 0,
        EnumValue::Reserved { idx } => false,
    }
}

pub open spec fn value_name(v: EnumValue) -> Seq<char> {
    match v {
        EnumValue::Single { name, idx } => name@,
        EnumValue::Reserved { idx } => Seq::empty(),
    }
}

proof fn lemma_first_zero(vs: Seq<EnumValue>)
    ensures
        (forall|i: int| 0 <= i < vs.len() ==> !is_zero_value(#[trigger] vs[i])) ==> first_zero(vs)
            is None,
        forall|k: int|
            0 <= k < vs.len() && is_zero_value(#[trigger] vs[k]) && (forall|i: int|
                0 <= i < k ==> !is_zero_value(#[trigger] vs[i])) ==> first_zero(vs) == Some(
                value_name(vs[k]),
            ),
    decreases vs.len(),
{
    if vs.len() > 0 {
        let rest = vs.drop_first();
        lemma_first_zero(rest);
        assert forall|i: int| 0 <= i < rest.len() implies rest[i] == vs[i + 1] by {}
        assert forall|k: int|
            0 <= k < vs.len() && is_zero_value(#[trigger] vs[k]) && (forall|i: int|
                0 <= i < k ==> !is_zero_value(#[trigger] vs[i])) implies first_zero(vs) == Some(
                value_name(vs[k]),
            ) by {
            if k > 0 {
                assert(!is_zero_value(vs[0]));
                assert(rest[k - 1] == vs[k]);
                assert forall|i: int| 0 <= i < k - 1 implies !is_zero_value(#[trigger] rest[i]) by {
                    assert(rest[i] == vs[i + 1]);
                }
            }
        }
        if forall|i: int| 0 <= i < vs.len() ==> !is_zero_value(#[trigger] vs[i]) {
            assert(!is_zero_value(vs[0]));
            assert forall|i: int| 0 <= i < rest.len() implies !is_zero_value(#[trigger] rest[i]) by {
                assert(rest[i] == vs[i + 1]);
            }
        }
    }
}

/// An enum's schema falls back to the first value numbered 0, reserved
/// entries aside; with no such value it has no fallback.
pub proof fn lemma_enum_default(t: Seq<TypeNames>, e: Enum, parent: Option<TypeNames>)
    requires
        resolve(t, e.name@, parent) is Some,
    ensures
        ({
            let pt = resolve(t, e.name@, parent)->Some_0;
            let vs = e.values@;
            let start = "export enum "@ + pt.ts + " {\n"@ + enum_lines(vs) + "}\n\n"@
                + "export const "@ + pt.schema + " = z.nativeEnum("@ + pt.ts + ")"@;
            &&& (forall|i: int| 0 <= i < vs.len() ==> !is_zero_value(#[trigger] vs[i]))
                ==> enum_block(t, e, parent) == Ok::<_, Seq<char>>(start + ";\n\n"@)
            &&& forall|k: int|
                0 <= k < vs.len() && is_zero_value(#[trigger] vs[k]) && (forall|i: int|
                    0 <= i < k ==> !is_zero_value(#[trigger] vs[i])) ==> enum_block(t, e, parent)
                    == Ok::<_, Seq<char>>(
                    start + ".catch("@ + pt.ts + "."@ + value_name(vs[k]) + ")"@ + ";\n\n"@,
                )
        }),
{
    lemma_first_zero(e.values@);
    let pt = resolve(t, e.name@, parent)->Some_0;
    let vs = e.values@;
    let start = "export enum "@ + pt.ts + " {\n"@ + enum_lines(vs) + "}\n\n"@ + "export const "@
        + pt.schema + " = z.nativeEnum("@ + pt.ts + ")"@;
    if first_zero(vs) is None {
        assert(enum_text(pt, vs) =~= start + ";\n\n"@);
    } else {
        let d = first_zero(vs)->Some_0;
        assert(enum_text(pt, vs) =~= start + ".catch("@ + pt.ts + "."@ + d + ")"@ + ";\n\n"@);
    }
}

/// How many messages and enums a message declares: itself and everything
/// nested in it, in oneofs too.
pub open spec fn msg_decl_count(m: Msg) -> nat
    decreases m,
{
    proof {
        assert(decreases_to!(m.fields => m.fields@));
    }
    1 + fields_decl_count(m.fields@)
}

pub open spec fn fields_decl_count(fs: Seq<Field>) -> nat
    decreases fs,
{
    if fs.len() == 0 {
        0
    } else {
        proof {
            assert(decreases_to!(fs => fs.subrange(0, fs.len() - 1)));
            assert(decreases_to!(fs => fs[fs.len() - 1]));
        }
        fields_decl_count(fs.subrange(0, fs.len() - 1)) + field_decl_count(fs[fs.len() - 1])
    }
}

pub open spec fn field_decl_count(f: Field) -> nat
    decreases f,
{
    match f {
        Field::SubMessage(m) => msg_decl_count(m),
        Field::SubEnum(_) => 1,
        Field::OneOf { name, fields } => {
            proof {
                assert(decreases_to!(fields => fields@));
            }
            fields_decl_count(fields@)
        },
        _ => 0,
    }
}

/// How many messages and enums the top-level elements declare; other
/// kinds of element declare none.
pub open spec fn elems_decl_count(es: Seq<Elem>) -> nat
    decreases es.len(),
{
    if es.len() == 0 {
        0
    } else {
        elems_decl_count(es.drop_last()) + match es.last() {
            Elem::Message(m) => msg_decl_count(m),
            Elem::Enum(_) => 1,
            _ => 0,
        }
    }
}

proof fn lemma_msg_count(t: Seq<TypeNames>, m: Msg, parent: Option<TypeNames>)
    ensures
        msg_blocks(t, m, parent) matches Ok(b) ==> b.len() == msg_decl_count(m),
    decreases m,
{
    if let Some(pt) = resolve(t, m.name@, parent) {
        assert(decreases_to!(m.fields => m.fields@));
        lemma_fields_count(t, m.fields@, Some(pt));
    }
}

proof fn lemma_fields_count(t: Seq<TypeNames>, fs: Seq<Field>, parent: Option<TypeNames>)
    ensures
        fields_out(t, fs, parent) matches Ok((b, l)) ==> b.len() == fields_decl_count(fs),
    decreases fs,
{
    if fs.len() > 0 {
        assert(decreases_to!(fs => fs.subrange(0, fs.len() - 1)));
        assert(decreases_to!(fs => fs[fs.len() - 1]));
        lemma_fields_count(t, fs.subrange(0, fs.len() - 1), parent);
        lemma_field_count(t, fs[fs.len() - 1], parent);
    }
}

proof fn lemma_field_count(t: Seq<TypeNames>, f: Field, parent: Option<TypeNames>)
    ensures
        field_out(t, f, parent) matches Ok((b, l)) ==> b.len() == field_decl_count(f),
    decreases f,
{
    match f {
        Field::SubMessage(m) => {
            lemma_msg_count(t, m, parent);
        },
        Field::OneOf { name, fields } => {
            assert(decreases_to!(fields => fields@));
            lemma_fields_count(t, fields@, parent);
        },
        _ => {},
    }
}

/// Generation gives one block, a schema declaration with its type, for
/// each message and enum of the file, nested ones included, and none for
/// any other kind of element.
pub proof fn lemma_one_block_per_declaration(proto: Proto)
    ensures
        proto_blocks(proto) matches Ok(b) ==> b.len() == elems_decl_count(proto.elems@),
{
    lemma_elems_count(elems_decls(proto.elems@), proto.elems@);
}

proof fn lemma_elems_count(t: Seq<TypeNames>, es: Seq<Elem>)
    ensures
        elems_blocks(t, es) matches Ok(b) ==> b.len() == elems_decl_count(es),
    decreases es.len(),
{
    if es.len() > 0 {
        lemma_elems_count(t, es.drop_last());
        if let Elem::Message(m) = es.last() {
            lemma_msg_count(t, m, None);
        }
    }
}

proof fn lemma_insert_other(t: Seq<TypeNames>, a: Seq<Elem>, e: Elem, b: Seq<Elem>)
    requires
        !(e is Message),
        !(e is Enum),
    ensures
        elems_decls(a + seq![e] + b) == elems_decls(a + b),
        elems_blocks(t, a + seq![e] + b) == elems_blocks(t, a + b),
    decreases b.len(),
{
    if b.len() == 0 {
        assert(a + seq![e] + b =~= a.push(e));
        assert(a + b =~= a);
        assert(a.push(e).drop_last() =~= a);
        assert(elems_decls(a) + elem_decls(e) =~= elems_decls(a));
        if let Ok(x) = elems_blocks(t, a) {
            assert(x + Seq::<Seq<char>>::empty() =~= x);
        }
    } else {
        lemma_insert_other(t, a, e, b.drop_last());
        assert((a + seq![e] + b).drop_last() =~= a + seq![e] + b.drop_last());
        assert((a + b).drop_last() =~= a + b.drop_last());
        assert((a + seq![e] + b).last() == b.last());
        assert((a + b).last() == b.last());
    }
}

/// Elements other than messages and enums (options, imports, packages,
/// extends, services) change nothing in the output: adding one anywhere
/// gives the same text or the same error.
pub proof fn lemma_other_elements_add_nothing(p1: Proto, p2: Proto, a: Seq<Elem>, e: Elem, b: Seq<Elem>)
    requires
        p1.elems@ == a + b,
        p2.elems@ == a + seq![e] + b,
        p1.file@ == p2.file@,
        !(e is Message),
        !(e is Enum),
    ensures
        schema_text(p2) == schema_text(p1),
{
    lemma_insert_other(elems_decls(a + b), a, e, b);
}

} // verus!
