//! The grammar of Protocol Buffers definition files.
//!
//! Each rule has a spec function `*_end` that gives the position where the
//! rule stops when it starts at `p`, or `None` where it does not match; a
//! spec predicate `*_ok` that says which syntax tree it builds there, in
//! terms of the text it matched; and an executable function that builds
//! that tree and stops at exactly that position. Alternatives are tried in
//! order and the first match wins; repetitions take as many items as match.
use vstd::prelude::*;
use vstd::std_specs::iter::IteratorSpec;
use crate::ast::{Elem, Enum, EnumValue, Field, Flag, Msg, OptionValue, Proto, ReservedField, Rpc, ServiceNode};
use crate::ast::Option as OptionDecl;
use crate::context::views;
use crate::errors::PtError;
use crate::text::slice_string;
use crate::lexer::{
    alnum1, alnum_end, bool_end, boolean, ident_end, identifier, lemma_run_end, lemma_walnum_end,
    lemma_wident_end, lemma_ws_end, lemma_wtag_end, num_end, number,
    number_spec, opt_int, quoted, run, run_end, str_end, tag, tag_end, walnum, walnum_end, wident,
    wident_end, wnum_end, wnumber, ws, ws_end, wstr, wstr_end, wtag, wtag_end, CharClass,
};

verus! {

/// The text being parsed, as characters.
pub struct Source {
    pub chars: Vec<char>,
}

impl Source {
    pub fn new(text: &str) -> (r: Source)
        ensures
            r.chars@ == text@,
    {
        broadcast use vstd::string::next_postcondition, vstd::string::axiom_spec_iter;

        let mut chars: Vec<char> = Vec::new();
        let mut it = text.chars();
        let n = text.unicode_len();
        let mut i: usize = 0;
        while i < n
            invariant
                chars@ + it.remaining() == text@,
                n == text@.len(),
                i <= n,
                chars@.len() == i,
            decreases n - i,
        {
            if let Some(c) = it.next() {
                chars.push(c);
            }
            i = i + 1;
        }
        assert((chars@ + it.remaining()).len() == chars@.len() + it.remaining().len());
        assert(it.remaining() =~= Seq::<char>::empty());
        assert(chars@ + it.remaining() =~= chars@);
        Source { chars }
    }

    fn slice(&self, a: usize, b: usize) -> (r: String)
        requires
            a <= b <= self.chars@.len(),
        ensures
            r@ == self.chars@.subrange(a as int, b as int),
    {
        slice_string(&self.chars, a, b)
    }
}

/// The end position of a rule's result, as a mathematical integer.
pub open spec fn end_of<T>(r: Option<(T, usize)>) -> Option<int> {
    match r {
        Some((_, e)) => Some(e as int),
        None => None,
    }
}

/// A rule's result stops within the input, after its start.
pub open spec fn in_range<T>(r: Option<(T, usize)>, p: int, n: int) -> bool {
    r matches Some((_, e)) ==> p <= e <= n
}

/// The end of an optional item: where it matched, or where it would start.
pub open spec fn opt_end(r: Option<int>, p: int) -> int {
    match r {
        Some(e) => e,
        None => p,
    }
}

pub open spec fn syntax_end(s: Seq<char>, p: int) -> Option<int> {
    match tag_end(s, p, "syntax"@) {
        None => None,
        Some(a) => match wtag_end(s, a, "="@) {
            None => None,
            Some(b) => match wstr_end(s, b) {
                None => None,
                Some(c) => tag_end(s, c, ";"@),
            },
        },
    }
}

/// The text between the quotes of a `syntax` header at `p`.
pub open spec fn syntax_value(s: Seq<char>, p: int) -> Seq<char> {
    match tag_end(s, p, "syntax"@) {
        None => Seq::empty(),
        Some(a) => match wtag_end(s, a, "="@) {
            None => Seq::empty(),
            Some(b) => {
                let q = ws_end(s, b);
                match str_end(s, q) {
                    Some(e) => s.subrange(q + 1, e - 1),
                    None => Seq::empty(),
                }
            },
        },
    }
}

/// `syntax = "..." ;`, giving the text between the quotes.
fn syntax(src: &Source, p: usize) -> (r: Option<(String, usize)>)
    requires
        p <= src.chars@.len(),
    ensures
        end_of(r) == syntax_end(src.chars@, p as int),
        in_range(r, p as int, src.chars@.len() as int),
        r matches Some((v, _)) ==> v@ == syntax_value(src.chars@, p as int),
{
    let s = &src.chars;
    let a = match tag(s, p, "syntax") {
        Some(a) => a,
        None => return None,
    };
    let b = match wtag(s, a, "=") {
        Some(b) => b,
        None => return None,
    };
    let (x, y, c) = match wstr(s, b) {
        Some(t) => t,
        None => return None,
    };
    match tag(s, c, ";") {
        Some(e) => Some((src.slice(x, y), e)),
        None => None,
    }
}

pub open spec fn import_end(s: Seq<char>, p: int) -> Option<int> {
    match tag_end(s, p, "import"@) {
        None => None,
        Some(a) => match wstr_end(s, a) {
            None => None,
            Some(b) => tag_end(s, b, ";"@),
        },
    }
}

fn import(src: &Source, p: usize) -> (r: Option<(Elem, usize)>)
    requires
        p <= src.chars@.len(),
    ensures
        end_of(r) == import_end(src.chars@, p as int),
        in_range(r, p as int, src.chars@.len() as int),
        r matches Some((v, _)) ==> import_ok(v, src.chars@, p as int),
{
    let s = &src.chars;
    let a = match tag(s, p, "import") {
        Some(a) => a,
        None => return None,
    };
    let (x, y, b) = match wstr(s, a) {
        Some(t) => t,
        None => return None,
    };
    match tag(s, b, ";") {
        Some(e) => Some((Elem::Import { name: src.slice(x, y) }, e)),
        None => None,
    }
}

/// The package name runs up to the next `;`.
pub open spec fn package_name_end(s: Seq<char>, p: int) -> Option<int> {
    let e = run_end(s, p, CharClass::NotSemicolon);
    if e > p {
        Some(e)
    } else {
        None
    }
}

pub open spec fn package_end(s: Seq<char>, p: int) -> Option<int> {
    match tag_end(s, p, "package"@) {
        None => None,
        Some(a) => match package_name_end(s, ws_end(s, a)) {
            None => None,
            Some(b) => tag_end(s, ws_end(s, b), ";"@),
        },
    }
}

fn package(src: &Source, p: usize) -> (r: Option<(Elem, usize)>)
    requires
        p <= src.chars@.len(),
    ensures
        end_of(r) == package_end(src.chars@, p as int),
        in_range(r, p as int, src.chars@.len() as int),
        r matches Some((v, _)) ==> package_ok(v, src.chars@, p as int),
{
    let s = &src.chars;
    let a = match tag(s, p, "package") {
        Some(a) => a,
        None => return None,
    };
    let x = ws(s, a);
    let y = run(s, x, CharClass::NotSemicolon);
    if y == x {
        return None;
    }
    match tag(s, ws(s, y), ";") {
        Some(e) => Some((Elem::Package { name: src.slice(x, y) }, e)),
        None => None,
    }
}

/// A value of an option: a string, a number, a boolean, a braced list of
/// `name: value` entries, or a bare constant, tried in that order.
pub open spec fn option_value_end(s: Seq<char>, p: int) -> Option<int>
    decreases s.len() - p, 1int,
    when 0 <= p <= s.len()
{
    if str_end(s, p) is Some {
        str_end(s, p)
    } else if num_end(s, p) is Some {
        num_end(s, p)
    } else if bool_end(s, p) is Some {
        bool_end(s, p)
    } else if option_msg_end(s, p) is Some {
        option_msg_end(s, p)
    } else {
        alnum_end(s, p)
    }
}

pub open spec fn option_msg_end(s: Seq<char>, p: int) -> Option<int>
    decreases s.len() - p, 0int,
    when 0 <= p <= s.len()
{
    match tag_end(s, p, "{"@) {
        None => None,
        Some(a) => {
            proof {
                reveal_strlit("{");
            }
            wtag_end(s, option_entries_end(s, a), "}"@)
        },
    }
}

/// `name : value` followed by an optional `,` or `;`.
pub open spec fn option_entry_end(s: Seq<char>, p: int) -> Option<int>
    decreases s.len() - p, 2int,
    when 0 <= p <= s.len()
{
    match ident_end(s, p) {
        None => None,
        Some(a) => match wtag_end(s, a, ":"@) {
            None => None,
            Some(b) => {
                proof {
                    lemma_run_end(s, p + 1, CharClass::Ident);
                    lemma_ws_end(s, a);
                    lemma_ws_end(s, ws_end(s, a) + ":"@.len());
                }
                match option_value_end(s, b) {
                    None => None,
                    Some(c) => Some(
                        if c < s.len() && (s[c] == ',' || s[c] == ';') {
                            c + 1
                        } else {
                            c
                        },
                    ),
                }
            },
        },
    }
}

/// As many whitespace-wrapped entries as match.
pub open spec fn option_entries_end(s: Seq<char>, p: int) -> int
    decreases s.len() - p, 3int,
    when 0 <= p <= s.len()
{
    proof {
        lemma_ws_end(s, p);
    }
    match option_entry_end(s, ws_end(s, p)) {
        Some(e) => if p < e <= s.len() {
            proof {
                lemma_ws_end(s, e);
            }
            option_entries_end(s, ws_end(s, e))
        } else {
            p
        },
        None => p,
    }
}


fn option_value(src: &Source, p: usize) -> (r: Option<(OptionValue, usize)>)
    requires
        p <= src.chars@.len(),
    ensures
        end_of(r) == option_value_end(src.chars@, p as int),
        in_range(r, p as int, src.chars@.len() as int),
        r matches Some((v, _)) ==> option_value_ok(v, src.chars@, p as int),
    decreases src.chars@.len() - p, 1int,
{
    let s = &src.chars;
    if let Some(e) = quoted(s, p) {
        return Some((OptionValue::Str { value: src.slice(p + 1, e - 1) }, e));
    }
    if let Some((v, e)) = number(s, p) {
        return Some((OptionValue::Num { value: v }, e));
    }
    if let Some((v, e)) = boolean(s, p) {
        return Some((OptionValue::Bool { value: v }, e));
    }
    if let Some(e) = option_msg(src, p) {
        return Some((OptionValue::Msg { value: String::new() }, e));
    }
    match alnum1(s, p) {
        Some(e) => Some((OptionValue::Constant { value: src.slice(p, e) }, e)),
        None => None,
    }
}

fn option_msg(src: &Source, p: usize) -> (r: Option<usize>)
    requires
        p <= src.chars@.len(),
    ensures
        opt_int(r) == option_msg_end(src.chars@, p as int),
        r matches Some(e) ==> p <= e <= src.chars@.len(),
    decreases src.chars@.len() - p, 0int,
{
    let s = &src.chars;
    let a = match tag(s, p, "{") {
        Some(a) => a,
        None => return None,
    };
    proof {
        reveal_strlit("{");
    }
    let b = option_entries(src, a);
    wtag(s, b, "}")
}

fn option_entry(src: &Source, p: usize) -> (r: Option<usize>)
    requires
        p <= src.chars@.len(),
    ensures
        opt_int(r) == option_entry_end(src.chars@, p as int),
        r matches Some(e) ==> p <= e <= src.chars@.len(),
    decreases src.chars@.len() - p, 2int,
{
    let s = &src.chars;
    let a = match identifier(s, p) {
        Some(a) => a,
        None => return None,
    };
    let b = match wtag(s, a, ":") {
        Some(b) => b,
        None => return None,
    };
    match option_value(src, b) {
        Some((_, c)) => Some(
            if c < s.len() && (s[c] == ',' || s[c] == ';') {
                c + 1
            } else {
                c
            },
        ),
        None => None,
    }
}

fn option_entries(src: &Source, p: usize) -> (r: usize)
    requires
        p <= src.chars@.len(),
    ensures
        r == option_entries_end(src.chars@, p as int),
        p <= r <= src.chars@.len(),
    decreases src.chars@.len() - p, 3int,
{
    let s = &src.chars;
    let mut i = p;
    loop
        invariant
                s@ == src.chars@,
            p <= i <= s@.len(),
            option_entries_end(s@, i as int) == option_entries_end(s@, p as int),
        decreases s@.len() - i,
    {
        let q = ws(s, i);
        match option_entry(src, q) {
            Some(e) => {
                if i < e {
                    i = ws(s, e);
                } else {
                    return i;
                }
            },
            None => {
                return i;
            },
        }
    }
}

pub open spec fn option_name_end(s: Seq<char>, p: int) -> Option<int> {
    let a = opt_end(tag_end(s, p, "("@), p);
    match wident_end(s, a) {
        Some(b) => Some(opt_end(tag_end(s, b, ")"@), b)),
        None => None,
    }
}

/// An option's name, optionally in parentheses.
fn option_name(src: &Source, p: usize) -> (r: Option<(String, usize)>)
    requires
        p <= src.chars@.len(),
    ensures
        end_of(r) == option_name_end(src.chars@, p as int),
        in_range(r, p as int, src.chars@.len() as int),
        r matches Some((v, _)) ==> v@ == option_name_text(src.chars@, p as int),
{
    let s = &src.chars;
    let a = match tag(s, p, "(") {
        Some(a) => a,
        None => p,
    };
    let (x, y, b) = match wident(s, a) {
        Some(t) => t,
        None => return None,
    };
    let e = match tag(s, b, ")") {
        Some(e) => e,
        None => b,
    };
    Some((src.slice(x, y), e))
}

/// `name = value` after the keyword or bracket that opens an option, up to
/// the closing token `close`.
pub open spec fn option_body_end(s: Seq<char>, p: int, close: Seq<char>) -> Option<int> {
    match option_name_end(s, ws_end(s, p)) {
        None => None,
        Some(b) => match tag_end(s, ws_end(s, b), "="@) {
            None => None,
            Some(d) => match option_value_end(s, ws_end(s, d)) {
                None => None,
                Some(e) => tag_end(s, ws_end(s, e), close),
            },
        },
    }
}

fn option_body(src: &Source, p: usize, close: &str) -> (r: Option<(OptionDecl, usize)>)
    requires
        p <= src.chars@.len(),
    ensures
        end_of(r) == option_body_end(src.chars@, p as int, close@),
        in_range(r, p as int, src.chars@.len() as int),
        r matches Some((v, _)) ==> option_body_ok(v, src.chars@, p as int),
{
    let s = &src.chars;
    let (name, b) = match option_name(src, ws(s, p)) {
        Some(t) => t,
        None => return None,
    };
    let d = match tag(s, ws(s, b), "=") {
        Some(d) => d,
        None => return None,
    };
    let (value, e) = match option_value(src, ws(s, d)) {
        Some(t) => t,
        None => return None,
    };
    match tag(s, ws(s, e), close) {
        Some(f) => Some((OptionDecl { name, value }, f)),
        None => None,
    }
}

pub open spec fn option_end(s: Seq<char>, p: int) -> Option<int> {
    match tag_end(s, p, "option"@) {
        None => None,
        Some(a) => option_body_end(s, a, ";"@),
    }
}

/// `option name = value;`
fn option(src: &Source, p: usize) -> (r: Option<(OptionDecl, usize)>)
    requires
        p <= src.chars@.len(),
    ensures
        end_of(r) == option_end(src.chars@, p as int),
        in_range(r, p as int, src.chars@.len() as int),
        r matches Some((v, _)) ==> option_ok(v, src.chars@, p as int),
{
    match tag(&src.chars, p, "option") {
        None => None,
        Some(a) => option_body(src, a, ";"),
    }
}

pub open spec fn field_options_end(s: Seq<char>, p: int) -> Option<int> {
    match tag_end(s, p, "["@) {
        None => None,
        Some(a) => option_body_end(s, a, "]"@),
    }
}

/// `[name = value]` after a field.
fn field_options(src: &Source, p: usize) -> (r: Option<usize>)
    requires
        p <= src.chars@.len(),
    ensures
        opt_int(r) == field_options_end(src.chars@, p as int),
        r matches Some(e) ==> p <= e <= src.chars@.len(),
{
    match tag(&src.chars, p, "[") {
        None => None,
        Some(a) => match option_body(src, a, "]") {
            Some((_, e)) => Some(e),
            None => None,
        },
    }
}

/// Skips optional field options.
fn opt_field_options(src: &Source, p: usize) -> (r: usize)
    requires
        p <= src.chars@.len(),
    ensures
        r == opt_end(field_options_end(src.chars@, p as int), p as int),
        p <= r <= src.chars@.len(),
{
    match field_options(src, p) {
        Some(e) => e,
        None => p,
    }
}

pub open spec fn field_flag_end(s: Seq<char>, p: int) -> int {
    match tag_end(s, p, "optional"@) {
        Some(e) => e,
        None => match tag_end(s, p, "repeated"@) {
            Some(e) => e,
            None => opt_end(tag_end(s, p, "required"@), p),
        },
    }
}

fn field_flag(s: &Vec<char>, p: usize) -> (r: (Flag, usize))
    requires
        p <= s@.len(),
    ensures
        r.1 == field_flag_end(s@, p as int),
        p <= r.1 <= s@.len(),
        r.0 == flag_of(s@, p as int),
{
    if let Some(e) = tag(s, p, "optional") {
        (Flag::Optional, e)
    } else if let Some(e) = tag(s, p, "repeated") {
        (Flag::Repeated, e)
    } else if let Some(e) = tag(s, p, "required") {
        (Flag::Required, e)
    } else {
        (Flag::Singular, p)
    }
}


pub open spec fn enum_reserved_end(s: Seq<char>, p: int) -> Option<int> {
    match tag_end(s, p, "reserved"@) {
        None => None,
        Some(a) => match wnum_end(s, a) {
            None => None,
            Some(b) => tag_end(s, b, ";"@),
        },
    }
}

pub open spec fn enum_value_end(s: Seq<char>, p: int) -> Option<int> {
    match wident_end(s, p) {
        None => None,
        Some(a) => match tag_end(s, a, "="@) {
            None => None,
            Some(b) => match wnum_end(s, b) {
                None => None,
                Some(c) => {
                    let d = opt_end(field_options_end(s, c), c);
                    tag_end(s, run_end(s, d, CharClass::Blank), ";"@)
                },
            },
        },
    }
}

/// An entry of an enum body: `reserved n;` or `NAME = n [options];`.
#[verifier::opaque]
pub open spec fn enum_item_end(s: Seq<char>, p: int) -> Option<int> {
    if enum_reserved_end(s, p) is Some {
        enum_reserved_end(s, p)
    } else {
        enum_value_end(s, p)
    }
}

pub open spec fn enum_items_end(s: Seq<char>, p: int) -> int
    decreases s.len() - p,
    when 0 <= p <= s.len()
{
    proof {
        lemma_ws_end(s, p);
    }
    match enum_item_end(s, ws_end(s, p)) {
        Some(e) => if p < e <= s.len() {
            proof {
                lemma_ws_end(s, e);
            }
            enum_items_end(s, ws_end(s, e))
        } else {
            p
        },
        None => p,
    }
}

fn enum_item(src: &Source, p: usize) -> (r: Option<(EnumValue, usize)>)
    requires
        p <= src.chars@.len(),
    ensures
        end_of(r) == enum_item_end(src.chars@, p as int),
        in_range(r, p as int, src.chars@.len() as int),
        r matches Some((v, _)) ==> enum_item_ok(v, src.chars@, p as int),
{
    proof {
        reveal(enum_item_end);
        reveal(enum_item_ok);
    }
    let s = &src.chars;
    if let Some(a) = tag(s, p, "reserved") {
        if let Some((idx, b)) = wnumber(s, a) {
            if let Some(e) = tag(s, b, ";") {
                return Some((EnumValue::Reserved { idx }, e));
            }
        }
    }
    let (x, y, a) = match wident(s, p) {
        Some(t) => t,
        None => return None,
    };
    let b = match tag(s, a, "=") {
        Some(b) => b,
        None => return None,
    };
    let (idx, c) = match wnumber(s, b) {
        Some(t) => t,
        None => return None,
    };
    let d = opt_field_options(src, c);
    match tag(s, run(s, d, CharClass::Blank), ";") {
        Some(e) => Some((EnumValue::Single { name: src.slice(x, y), idx }, e)),
        None => None,
    }
}

fn enum_items(src: &Source, p: usize) -> (r: (Vec<EnumValue>, usize))
    requires
        p <= src.chars@.len(),
    ensures
        r.1 == enum_items_end(src.chars@, p as int),
        p <= r.1 <= src.chars@.len(),
        enum_items_ok(r.0@, src.chars@, p as int),
    decreases src.chars@.len() - p,
{
    let s = &src.chars;
    match enum_item(src, ws(s, p)) {
        Some((v, e)) => {
            if p < e {
                let (mut rest, f) = enum_items(src, ws(s, e));
                let ghost tail = rest@;
                rest.insert(0, v);
                assert(rest@.drop_first() =~= tail);
                (rest, f)
            } else {
                (Vec::new(), p)
            }
        },
        None => (Vec::new(), p),
    }
}

pub open spec fn enum_end(s: Seq<char>, p: int) -> Option<int> {
    match tag_end(s, p, "enum"@) {
        None => None,
        Some(a) => match walnum_end(s, a) {
            None => None,
            Some(b) => match tag_end(s, b, "{"@) {
                None => None,
                Some(c) => match wtag_end(s, enum_items_end(s, c), "}"@) {
                    None => None,
                    Some(e) => Some(opt_end(tag_end(s, e, ";"@), e)),
                },
            },
        },
    }
}

/// `enum Name { ... }`, with an optional `;` after it.
fn enum0(src: &Source, p: usize) -> (r: Option<(Enum, usize)>)
    requires
        p <= src.chars@.len(),
    ensures
        end_of(r) == enum_end(src.chars@, p as int),
        in_range(r, p as int, src.chars@.len() as int),
        r matches Some((v, _)) ==> enum_ok(v, src.chars@, p as int),
{
    let s = &src.chars;
    let a = match tag(s, p, "enum") {
        Some(a) => a,
        None => return None,
    };
    let (x, y, b) = match walnum(s, a) {
        Some(t) => t,
        None => return None,
    };
    let c = match tag(s, b, "{") {
        Some(c) => c,
        None => return None,
    };
    let (values, d) = enum_items(src, c);
    let e = match wtag(s, d, "}") {
        Some(e) => e,
        None => return None,
    };
    let f = match tag(s, e, ";") {
        Some(f) => f,
        None => e,
    };
    Some((Enum { name: src.slice(x, y), values }, f))
}

pub open spec fn map_end(s: Seq<char>, p: int) -> Option<int> {
    match tag_end(s, p, "map"@) {
        None => None,
        Some(a) => match tag_end(s, run_end(s, a, CharClass::Blank), "<"@) {
            None => None,
            Some(c) => match wident_end(s, c) {
                None => None,
                Some(d) => match tag_end(s, d, ","@) {
                    None => None,
                    Some(e) => match wident_end(s, e) {
                        None => None,
                        Some(f) => match tag_end(s, f, ">"@) {
                            None => None,
                            Some(g) => match wident_end(s, g) {
                                None => None,
                                Some(h) => match tag_end(s, h, "="@) {
                                    None => None,
                                    Some(i) => match wnum_end(s, i) {
                                        None => None,
                                        Some(j) => tag_end(
                                            s,
                                            opt_end(field_options_end(s, j), j),
                                            ";"@,
                                        ),
                                    },
                                },
                            },
                        },
                    },
                },
            },
        },
    }
}

/// `map<Key, Value> name = n [options];`
fn proto_map(src: &Source, p: usize) -> (r: Option<(Field, usize)>)
    requires
        p <= src.chars@.len(),
    ensures
        end_of(r) == map_end(src.chars@, p as int),
        in_range(r, p as int, src.chars@.len() as int),
        r matches Some((v, _)) ==> map_ok(v, src.chars@, p as int),
{
    let s = &src.chars;
    let a = match tag(s, p, "map") {
        Some(a) => a,
        None => return None,
    };
    let c = match tag(s, run(s, a, CharClass::Blank), "<") {
        Some(c) => c,
        None => return None,
    };
    let (kx, ky, d) = match wident(s, c) {
        Some(t) => t,
        None => return None,
    };
    let e = match tag(s, d, ",") {
        Some(e) => e,
        None => return None,
    };
    let (vx, vy, f) = match wident(s, e) {
        Some(t) => t,
        None => return None,
    };
    let g = match tag(s, f, ">") {
        Some(g) => g,
        None => return None,
    };
    let (nx, ny, h) = match wident(s, g) {
        Some(t) => t,
        None => return None,
    };
    let i = match tag(s, h, "=") {
        Some(i) => i,
        None => return None,
    };
    let (idx, j) = match wnumber(s, i) {
        Some(t) => t,
        None => return None,
    };
    match tag(s, opt_field_options(src, j), ";") {
        Some(k) => Some(
            (
                Field::MapField {
                    name: src.slice(nx, ny),
                    key_type: src.slice(kx, ky),
                    value_type: src.slice(vx, vy),
                    idx,
                },
                k,
            ),
        ),
        None => None,
    }
}

#[verifier::opaque]
pub open spec fn message_field_end(s: Seq<char>, p: int) -> Option<int> {
    match wident_end(s, field_flag_end(s, p)) {
        None => None,
        Some(b) => match wident_end(s, b) {
            None => None,
            Some(c) => match tag_end(s, c, "="@) {
                None => None,
                Some(d) => match wnum_end(s, d) {
                    None => None,
                    Some(e) => {
                        let f = opt_end(field_options_end(s, e), e);
                        tag_end(s, run_end(s, f, CharClass::Blank), ";"@)
                    },
                },
            },
        },
    }
}

/// `[optional|repeated|required] Type name = n [options];`
fn message_field(src: &Source, p: usize) -> (r: Option<(Field, usize)>)
    requires
        p <= src.chars@.len(),
    ensures
        end_of(r) == message_field_end(src.chars@, p as int),
        in_range(r, p as int, src.chars@.len() as int),
        r matches Some((v, _)) ==> message_field_ok(v, src.chars@, p as int),
{
    proof {
        reveal(message_field_end);
        reveal(message_field_ok);
    }
    let s = &src.chars;
    let (flag, a) = field_flag(s, p);
    let (tx, ty, b) = match wident(s, a) {
        Some(t) => t,
        None => return None,
    };
    let (nx, ny, c) = match wident(s, b) {
        Some(t) => t,
        None => return None,
    };
    let d = match tag(s, c, "=") {
        Some(d) => d,
        None => return None,
    };
    let (idx, e) = match wnumber(s, d) {
        Some(t) => t,
        None => return None,
    };
    let f = opt_field_options(src, e);
    match tag(s, run(s, f, CharClass::Blank), ";") {
        Some(g) => Some(
            (
                Field::Single {
                    name: src.slice(nx, ny),
                    field_type: src.slice(tx, ty),
                    idx,
                    flag,
                },
                g,
            ),
        ),
        None => None,
    }
}

pub open spec fn extensions_end(s: Seq<char>, p: int) -> Option<int> {
    match tag_end(s, p, "extensions"@) {
        None => None,
        Some(a) => match walnum_end(s, a) {
            None => None,
            Some(b) => match tag_end(s, b, "to"@) {
                None => None,
                Some(c) => match walnum_end(s, c) {
                    None => None,
                    Some(d) => tag_end(s, d, ";"@),
                },
            },
        },
    }
}

/// `extensions a to b;`
fn extensions_field(src: &Source, p: usize) -> (r: Option<(Field, usize)>)
    requires
        p <= src.chars@.len(),
    ensures
        end_of(r) == extensions_end(src.chars@, p as int),
        in_range(r, p as int, src.chars@.len() as int),
        r matches Some((v, _)) ==> extensions_ok(v, src.chars@, p as int),
{
    let s = &src.chars;
    let a = match tag(s, p, "extensions") {
        Some(a) => a,
        None => return None,
    };
    let (fx, fy, b) = match walnum(s, a) {
        Some(t) => t,
        None => return None,
    };
    let c = match tag(s, b, "to") {
        Some(c) => c,
        None => return None,
    };
    let (tx, ty, d) = match walnum(s, c) {
        Some(t) => t,
        None => return None,
    };
    match tag(s, d, ";") {
        Some(e) => Some((Field::Extensions(src.slice(fx, fy), src.slice(tx, ty)), e)),
        None => None,
    }
}


/// The rest of a comma-separated list of numbers whose last item ended at
/// `p`. A trailing comma is left unconsumed.
pub open spec fn num_list_rest(s: Seq<char>, p: int) -> int
    decreases s.len() - p,
    when 0 <= p <= s.len()
{
    match wtag_end(s, p, ","@) {
        None => p,
        Some(a) => match num_end(s, a) {
            Some(b) => if p < b <= s.len() {
                num_list_rest(s, b)
            } else {
                p
            },
            None => p,
        },
    }
}

/// The rest of a comma-separated list of quoted names.
pub open spec fn str_list_rest(s: Seq<char>, p: int) -> int
    decreases s.len() - p,
    when 0 <= p <= s.len()
{
    match wtag_end(s, p, ","@) {
        None => p,
        Some(a) => match str_end(s, a) {
            Some(b) => if p < b <= s.len() {
                str_list_rest(s, b)
            } else {
                p
            },
            None => p,
        },
    }
}

/// Numbers or quoted names, separated by commas; the first item decides which.
pub open spec fn reserved_list_end(s: Seq<char>, p: int) -> Option<int> {
    match num_end(s, p) {
        Some(e) => Some(num_list_rest(s, e)),
        None => match str_end(s, p) {
            Some(e) => Some(str_list_rest(s, e)),
            None => None,
        },
    }
}

fn reserved_list(src: &Source, p: usize) -> (r: Option<(ReservedField, usize)>)
    requires
        p <= src.chars@.len(),
    ensures
        end_of(r) == reserved_list_end(src.chars@, p as int),
        in_range(r, p as int, src.chars@.len() as int),
        r matches Some((v, _)) ==> reserved_list_ok(v, src.chars@, p as int),
{
    let s = &src.chars;
    if let Some((first, e0)) = number(s, p) {
        let mut idx: Vec<i32> = vec![first];
        let mut i = e0;
        loop
            invariant
                        s@ == src.chars@,
                p <= e0 <= i <= s@.len(),
                num_list_rest(s@, i as int) == num_list_rest(s@, e0 as int),
                idx@ + num_list_vals(s@, i as int) == seq![first] + num_list_vals(s@, e0 as int),
            ensures
                p <= i <= s@.len(),
                i == num_list_rest(s@, e0 as int),
                idx@ == seq![first] + num_list_vals(s@, e0 as int),
            decreases s@.len() - i,
        {
            let a = match wtag(s, i, ",") {
                Some(a) => a,
                None => {
                    assert(idx@ + Seq::<i32>::empty() =~= idx@);
                    break;
                },
            };
            match number(s, a) {
                Some((v, b)) => {
                    if i < b {
                        let ghost before = idx@;
                        idx.push(v);
                        assert(before + num_list_vals(s@, i as int) =~= idx@ + num_list_vals(
                            s@,
                            b as int,
                        ));
                        i = b;
                    } else {
                        assert(idx@ + Seq::<i32>::empty() =~= idx@);
                        break;
                    }
                },
                None => {
                    assert(idx@ + Seq::<i32>::empty() =~= idx@);
                    break;
                },
            }
        }
        return Some((ReservedField::Idx { idx }, i));
    }
    let e0 = match quoted(s, p) {
        Some(e) => e,
        None => return None,
    };
    let mut name: Vec<String> = vec![src.slice(p + 1, e0 - 1)];
    assert(views(name@) =~= seq![str_text(s@, p as int)]);
    let mut i = e0;
    loop
        invariant
                s@ == src.chars@,
            p <= e0 <= i <= s@.len(),
            str_end(s@, p as int) == Some(e0 as int),
            str_list_rest(s@, i as int) == str_list_rest(s@, e0 as int),
            views(name@) + str_list_vals(s@, i as int) == seq![str_text(s@, p as int)]
                + str_list_vals(s@, e0 as int),
        ensures
            p <= i <= s@.len(),
            i == str_list_rest(s@, e0 as int),
            views(name@) == seq![str_text(s@, p as int)] + str_list_vals(s@, e0 as int),
        decreases s@.len() - i,
    {
        let a = match wtag(s, i, ",") {
            Some(a) => a,
            None => {
                assert(views(name@) + Seq::<Seq<char>>::empty() =~= views(name@));
                break;
            },
        };
        match quoted(s, a) {
            Some(b) => {
                if i < b {
                    let ghost before = views(name@);
                    name.push(src.slice(a + 1, b - 1));
                    assert(views(name@) =~= before.push(str_text(s@, a as int)));
                    assert(before + str_list_vals(s@, i as int) =~= views(name@) + str_list_vals(
                        s@,
                        b as int,
                    ));
                    i = b;
                } else {
                    assert(views(name@) + Seq::<Seq<char>>::empty() =~= views(name@));
                    break;
                }
            },
            None => {
                assert(views(name@) + Seq::<Seq<char>>::empty() =~= views(name@));
                break;
            },
        }
    }
    Some((ReservedField::Name { name }, i))
}

pub open spec fn reserved_end(s: Seq<char>, p: int) -> Option<int> {
    match tag_end(s, p, "reserved"@) {
        None => None,
        Some(a) => match reserved_list_end(s, ws_end(s, a)) {
            None => None,
            Some(b) => tag_end(s, ws_end(s, b), ";"@),
        },
    }
}

/// `reserved 1, 2;` or `reserved "a", "b";` in a message body.
fn message_field_reserved(src: &Source, p: usize) -> (r: Option<(Field, usize)>)
    requires
        p <= src.chars@.len(),
    ensures
        end_of(r) == reserved_end(src.chars@, p as int),
        in_range(r, p as int, src.chars@.len() as int),
        r matches Some((v, _)) ==> reserved_ok(v, src.chars@, p as int),
{
    let s = &src.chars;
    let a = match tag(s, p, "reserved") {
        Some(a) => a,
        None => return None,
    };
    let (list, b) = match reserved_list(src, ws(s, a)) {
        Some(t) => t,
        None => return None,
    };
    match tag(s, ws(s, b), ";") {
        Some(e) => Some((Field::Reserved(list), e)),
        None => None,
    }
}

pub open spec fn message_fields_end(s: Seq<char>, p: int) -> int
    decreases s.len() - p,
    when 0 <= p <= s.len()
{
    proof {
        lemma_ws_end(s, p);
    }
    match message_field_end(s, ws_end(s, p)) {
        Some(e) => if p < e <= s.len() {
            proof {
                lemma_ws_end(s, e);
            }
            message_fields_end(s, ws_end(s, e))
        } else {
            p
        },
        None => p,
    }
}

pub open spec fn extend_end(s: Seq<char>, p: int) -> Option<int> {
    match tag_end(s, p, "extend"@) {
        None => None,
        Some(a) => match wident_end(s, a) {
            None => None,
            Some(b) => match tag_end(s, b, "{"@) {
                None => None,
                Some(c) => tag_end(s, message_fields_end(s, c), "}"@),
            },
        },
    }
}

/// `extend Name { fields }`
fn extend(src: &Source, p: usize) -> (r: Option<(Elem, usize)>)
    requires
        p <= src.chars@.len(),
    ensures
        end_of(r) == extend_end(src.chars@, p as int),
        in_range(r, p as int, src.chars@.len() as int),
        r matches Some((v, _)) ==> extend_ok(v, src.chars@, p as int),
{
    let s = &src.chars;
    let a = match tag(s, p, "extend") {
        Some(a) => a,
        None => return None,
    };
    let (x, y, b) = match wident(s, a) {
        Some(t) => t,
        None => return None,
    };
    let c = match tag(s, b, "{") {
        Some(c) => c,
        None => return None,
    };
    let (fields, i) = message_fields(src, c);
    match tag(s, i, "}") {
        Some(e) => Some((Elem::Extend { name: src.slice(x, y), fields }, e)),
        None => None,
    }
}


/// As many whitespace-wrapped `option` statements as match.
pub open spec fn options_end(s: Seq<char>, p: int) -> int
    decreases s.len() - p,
    when 0 <= p <= s.len()
{
    proof {
        lemma_ws_end(s, p);
    }
    match option_end(s, ws_end(s, p)) {
        Some(e) => if p < e <= s.len() {
            proof {
                lemma_ws_end(s, e);
            }
            options_end(s, ws_end(s, e))
        } else {
            p
        },
        None => p,
    }
}

pub open spec fn rpc_opts_end(s: Seq<char>, p: int) -> Option<int> {
    match tag_end(s, p, "{"@) {
        None => None,
        Some(a) => wtag_end(s, options_end(s, ws_end(s, a)), "}"@),
    }
}

/// A braced block of options after an rpc; the options are not kept.
fn rpc_opts(src: &Source, p: usize) -> (r: Option<usize>)
    requires
        p <= src.chars@.len(),
    ensures
        opt_int(r) == rpc_opts_end(src.chars@, p as int),
        r matches Some(e) ==> p <= e <= src.chars@.len(),
{
    let s = &src.chars;
    let a = match tag(s, p, "{") {
        Some(a) => a,
        None => return None,
    };
    let start = ws(s, a);
    let mut i = start;
    loop
        invariant
                s@ == src.chars@,
            start <= i <= s@.len(),
            options_end(s@, i as int) == options_end(s@, start as int),
        ensures
            start <= i <= s@.len(),
            i == options_end(s@, start as int),
        decreases s@.len() - i,
    {
        match option(src, ws(s, i)) {
            Some((_, e)) => {
                if i < e {
                    i = ws(s, e);
                } else {
                    break;
                }
            },
            None => break,
        }
    }
    wtag(s, i, "}")
}

pub open spec fn rpc_end(s: Seq<char>, p: int) -> Option<int> {
    match tag_end(s, p, "rpc"@) {
        None => None,
        Some(a) => match walnum_end(s, a) {
            None => None,
            Some(b) => match wtag_end(s, b, "("@) {
                None => None,
                Some(c) => match wident_end(s, opt_end(tag_end(s, c, "stream"@), c)) {
                    None => None,
                    Some(e) => match wtag_end(s, e, ")"@) {
                        None => None,
                        Some(f) => match tag_end(s, f, "returns"@) {
                            None => None,
                            Some(g) => match wtag_end(s, g, "("@) {
                                None => None,
                                Some(h) => match wident_end(
                                    s,
                                    opt_end(tag_end(s, h, "stream"@), h),
                                ) {
                                    None => None,
                                    Some(j) => match wtag_end(s, j, ")"@) {
                                        None => None,
                                        Some(k) => {
                                            let l = opt_end(rpc_opts_end(s, k), k);
                                            Some(opt_end(tag_end(s, l, ";"@), l))
                                        },
                                    },
                                },
                            },
                        },
                    },
                },
            },
        },
    }
}

/// `rpc Name ([stream] Request) returns ([stream] Response)` followed by
/// `;` or a block of options.
fn rpc(src: &Source, p: usize) -> (r: Option<(ServiceNode, usize)>)
    requires
        p <= src.chars@.len(),
    ensures
        end_of(r) == rpc_end(src.chars@, p as int),
        in_range(r, p as int, src.chars@.len() as int),
        r matches Some((v, _)) ==> rpc_ok(v, src.chars@, p as int),
{
    let s = &src.chars;
    let a = match tag(s, p, "rpc") {
        Some(a) => a,
        None => return None,
    };
    let (nx, ny, b) = match walnum(s, a) {
        Some(t) => t,
        None => return None,
    };
    let c = match wtag(s, b, "(") {
        Some(c) => c,
        None => return None,
    };
    let (stream_request, d) = match tag(s, c, "stream") {
        Some(d) => (true, d),
        None => (false, c),
    };
    let (qx, qy, e) = match wident(s, d) {
        Some(t) => t,
        None => return None,
    };
    let f = match wtag(s, e, ")") {
        Some(f) => f,
        None => return None,
    };
    let g = match tag(s, f, "returns") {
        Some(g) => g,
        None => return None,
    };
    let h = match wtag(s, g, "(") {
        Some(h) => h,
        None => return None,
    };
    let (stream_response, i) = match tag(s, h, "stream") {
        Some(i) => (true, i),
        None => (false, h),
    };
    let (rx, ry, j) = match wident(s, i) {
        Some(t) => t,
        None => return None,
    };
    let k = match wtag(s, j, ")") {
        Some(k) => k,
        None => return None,
    };
    let l = match rpc_opts(src, k) {
        Some(l) => l,
        None => k,
    };
    let m = match tag(s, l, ";") {
        Some(m) => m,
        None => l,
    };
    let rpc = Rpc {
        name: src.slice(nx, ny),
        request: src.slice(qx, qy),
        stream_request,
        response: src.slice(rx, ry),
        stream_response,
    };
    Some((ServiceNode::Rpc(rpc), m))
}

/// An entry of a service body: an rpc or an option.
#[verifier::opaque]
pub open spec fn service_item_end(s: Seq<char>, p: int) -> Option<int> {
    if rpc_end(s, p) is Some {
        rpc_end(s, p)
    } else {
        option_end(s, p)
    }
}

pub open spec fn service_items_end(s: Seq<char>, p: int) -> int
    decreases s.len() - p,
    when 0 <= p <= s.len()
{
    proof {
        lemma_ws_end(s, p);
    }
    match service_item_end(s, ws_end(s, p)) {
        Some(e) => if p < e <= s.len() {
            proof {
                lemma_ws_end(s, e);
            }
            service_items_end(s, ws_end(s, e))
        } else {
            p
        },
        None => p,
    }
}

fn service_item(src: &Source, p: usize) -> (r: Option<(ServiceNode, usize)>)
    requires
        p <= src.chars@.len(),
    ensures
        end_of(r) == service_item_end(src.chars@, p as int),
        in_range(r, p as int, src.chars@.len() as int),
        r matches Some((v, _)) ==> service_item_ok(v, src.chars@, p as int),
{
    proof {
        reveal(service_item_end);
        reveal(service_item_ok);
    }
    if let Some(t) = rpc(src, p) {
        return Some(t);
    }
    match option(src, p) {
        Some((o, e)) => Some((ServiceNode::Option(o), e)),
        None => None,
    }
}

pub open spec fn service_end(s: Seq<char>, p: int) -> Option<int> {
    match tag_end(s, p, "service"@) {
        None => None,
        Some(a) => match walnum_end(s, a) {
            None => None,
            Some(b) => match wtag_end(s, b, "{"@) {
                None => None,
                Some(c) => wtag_end(s, service_items_end(s, ws_end(s, c)), "}"@),
            },
        },
    }
}

/// `service Name { rpcs and options }`
fn service(src: &Source, p: usize) -> (r: Option<(Elem, usize)>)
    requires
        p <= src.chars@.len(),
    ensures
        end_of(r) == service_end(src.chars@, p as int),
        in_range(r, p as int, src.chars@.len() as int),
        r matches Some((v, _)) ==> service_ok(v, src.chars@, p as int),
{
    let s = &src.chars;
    let a = match tag(s, p, "service") {
        Some(a) => a,
        None => return None,
    };
    let (x, y, b) = match walnum(s, a) {
        Some(t) => t,
        None => return None,
    };
    let c = match wtag(s, b, "{") {
        Some(c) => c,
        None => return None,
    };
    let start = ws(s, c);
    let (nodes, i) = service_items(src, start);
    match wtag(s, i, "}") {
        Some(e) => Some((Elem::Service { name: src.slice(x, y), nodes }, e)),
        None => None,
    }
}


/// An entry of a message body. The alternatives are tried in this order:
/// oneof, reserved, plain field, map field, extensions, nested message,
/// nested enum.
pub open spec fn field_end(s: Seq<char>, p: int) -> Option<int>
    decreases s.len() - p, 2int,
    when 0 <= p <= s.len()
{
    if oneof_end(s, p) is Some {
        oneof_end(s, p)
    } else if reserved_end(s, p) is Some {
        reserved_end(s, p)
    } else if message_field_end(s, p) is Some {
        message_field_end(s, p)
    } else if map_end(s, p) is Some {
        map_end(s, p)
    } else if extensions_end(s, p) is Some {
        extensions_end(s, p)
    } else if message_end(s, p) is Some {
        message_end(s, p)
    } else {
        enum_end(s, p)
    }
}

/// As many whitespace-wrapped fields as match.
pub open spec fn fields_end(s: Seq<char>, p: int) -> int
    decreases s.len() - p, 3int,
    when 0 <= p <= s.len()
{
    proof {
        lemma_ws_end(s, p);
    }
    match field_end(s, ws_end(s, p)) {
        Some(e) => if p < e <= s.len() {
            proof {
                lemma_ws_end(s, e);
            }
            fields_end(s, ws_end(s, e))
        } else {
            p
        },
        None => p,
    }
}

pub open spec fn oneof_end(s: Seq<char>, p: int) -> Option<int>
    decreases s.len() - p, 1int,
    when 0 <= p <= s.len()
{
    match tag_end(s, p, "oneof"@) {
        None => None,
        Some(a) => match wident_end(s, a) {
            None => None,
            Some(b) => match tag_end(s, b, "{"@) {
                None => None,
                Some(c) => {
                    proof {
                        reveal_strlit("oneof");
                        lemma_wident_end(s, a);
                    }
                    match wtag_end(s, fields_end(s, c), "}"@) {
                        None => None,
                        Some(e) => Some(opt_end(tag_end(s, e, ";"@), e)),
                    }
                },
            },
        },
    }
}

pub open spec fn message_end(s: Seq<char>, p: int) -> Option<int>
    decreases s.len() - p, 1int,
    when 0 <= p <= s.len()
{
    match tag_end(s, p, "message"@) {
        None => None,
        Some(a) => match walnum_end(s, a) {
            None => None,
            Some(b) => match wtag_end(s, b, "{"@) {
                None => None,
                Some(c) => {
                    proof {
                        reveal_strlit("message");
                        lemma_walnum_end(s, a);
                        lemma_wtag_end(s, b, "{"@);
                    }
                    match wtag_end(s, fields_end(s, c), "}"@) {
                        None => None,
                        Some(e) => Some(opt_end(tag_end(s, e, ";"@), e)),
                    }
                },
            },
        },
    }
}

fn field(src: &Source, p: usize) -> (r: Option<(Field, usize)>)
    requires
        p <= src.chars@.len(),
    ensures
        end_of(r) == field_end(src.chars@, p as int),
        in_range(r, p as int, src.chars@.len() as int),
        r matches Some((v, _)) ==> field_ok(v, src.chars@, p as int),
    decreases src.chars@.len() - p, 2int,
{
    if let Some(t) = oneof(src, p) {
        return Some(t);
    }
    if let Some(t) = message_field_reserved(src, p) {
        return Some(t);
    }
    if let Some(t) = message_field(src, p) {
        return Some(t);
    }
    if let Some(t) = proto_map(src, p) {
        return Some(t);
    }
    if let Some(t) = extensions_field(src, p) {
        return Some(t);
    }
    if let Some((m, e)) = message(src, p) {
        return Some((Field::SubMessage(m), e));
    }
    match enum0(src, p) {
        Some((v, e)) => Some((Field::SubEnum(v), e)),
        None => None,
    }
}

fn fields(src: &Source, p: usize) -> (r: (Vec<Field>, usize))
    requires
        p <= src.chars@.len(),
    ensures
        r.1 == fields_end(src.chars@, p as int),
        p <= r.1 <= src.chars@.len(),
        fields_ok(r.0@, src.chars@, p as int),
    decreases src.chars@.len() - p, 3int,
{
    let s = &src.chars;
    match field(src, ws(s, p)) {
        Some((v, e)) => {
            if p < e {
                let (mut rest, f) = fields(src, ws(s, e));
                let ghost tail = rest@;
                rest.insert(0, v);
                assert(rest@.subrange(1, rest@.len() as int) =~= tail);
                (rest, f)
            } else {
                (Vec::new(), p)
            }
        },
        None => (Vec::new(), p),
    }
}

/// `oneof name { fields }`, with an optional `;` after it.
fn oneof(src: &Source, p: usize) -> (r: Option<(Field, usize)>)
    requires
        p <= src.chars@.len(),
    ensures
        end_of(r) == oneof_end(src.chars@, p as int),
        in_range(r, p as int, src.chars@.len() as int),
        r matches Some((v, _)) ==> field_ok(v, src.chars@, p as int),
    decreases src.chars@.len() - p, 1int,
{
    let s = &src.chars;
    let a = match tag(s, p, "oneof") {
        Some(a) => a,
        None => return None,
    };
    let (x, y, b) = match wident(s, a) {
        Some(t) => t,
        None => return None,
    };
    let c = match tag(s, b, "{") {
        Some(c) => c,
        None => return None,
    };
    proof {
        reveal_strlit("oneof");
    }
    let (items, d) = fields(src, c);
    let e = match wtag(s, d, "}") {
        Some(e) => e,
        None => return None,
    };
    let f = match tag(s, e, ";") {
        Some(f) => f,
        None => e,
    };
    Some((Field::OneOf { name: src.slice(x, y), fields: items }, f))
}

/// `message Name { fields }`, with an optional `;` after it.
fn message(src: &Source, p: usize) -> (r: Option<(Msg, usize)>)
    requires
        p <= src.chars@.len(),
    ensures
        end_of(r) == message_end(src.chars@, p as int),
        in_range(r, p as int, src.chars@.len() as int),
        r matches Some((v, _)) ==> msg_ok(v, src.chars@, p as int),
    decreases src.chars@.len() - p, 1int,
{
    let s = &src.chars;
    let a = match tag(s, p, "message") {
        Some(a) => a,
        None => return None,
    };
    let (x, y, b) = match walnum(s, a) {
        Some(t) => t,
        None => return None,
    };
    let c = match wtag(s, b, "{") {
        Some(c) => c,
        None => return None,
    };
    proof {
        reveal_strlit("message");
    }
    let (items, d) = fields(src, c);
    let e = match wtag(s, d, "}") {
        Some(e) => e,
        None => return None,
    };
    let f = match tag(s, e, ";") {
        Some(f) => f,
        None => e,
    };
    Some((Msg { name: src.slice(x, y), fields: items }, f))
}


/// A top-level declaration, tried in this order: import, package, extend,
/// option, message, enum, service.
#[verifier::opaque]
pub open spec fn elem_end(s: Seq<char>, p: int) -> Option<int> {
    if import_end(s, p) is Some {
        import_end(s, p)
    } else if package_end(s, p) is Some {
        package_end(s, p)
    } else if extend_end(s, p) is Some {
        extend_end(s, p)
    } else if option_end(s, p) is Some {
        option_end(s, p)
    } else if message_end(s, p) is Some {
        message_end(s, p)
    } else if enum_end(s, p) is Some {
        enum_end(s, p)
    } else {
        service_end(s, p)
    }
}

pub open spec fn elems_end(s: Seq<char>, p: int) -> int
    decreases s.len() - p,
    when 0 <= p <= s.len()
{
    proof {
        lemma_ws_end(s, p);
    }
    match elem_end(s, ws_end(s, p)) {
        Some(e) => if p < e <= s.len() {
            proof {
                lemma_ws_end(s, e);
            }
            elems_end(s, ws_end(s, e))
        } else {
            p
        },
        None => p,
    }
}

/// Where the grammar stops on `s`: a `syntax` header, then as many
/// declarations as match; `None` where the header does not match.
pub open spec fn proto_end(s: Seq<char>) -> Option<int> {
    match syntax_end(s, ws_end(s, 0)) {
        None => None,
        Some(a) => Some(elems_end(s, ws_end(s, a))),
    }
}

fn elem(src: &Source, p: usize) -> (r: Option<(Elem, usize)>)
    requires
        p <= src.chars@.len(),
    ensures
        end_of(r) == elem_end(src.chars@, p as int),
        in_range(r, p as int, src.chars@.len() as int),
        r matches Some((v, _)) ==> elem_ok(v, src.chars@, p as int),
{
    proof {
        reveal(elem_end);
        reveal(elem_ok);
    }
    if let Some(t) = import(src, p) {
        return Some(t);
    }
    if let Some(t) = package(src, p) {
        return Some(t);
    }
    if let Some(t) = extend(src, p) {
        return Some(t);
    }
    if let Some((o, e)) = option(src, p) {
        return Some((Elem::Option(o), e));
    }
    if let Some((m, e)) = message(src, p) {
        return Some((Elem::Message(m), e));
    }
    if let Some((v, e)) = enum0(src, p) {
        return Some((Elem::Enum(v), e));
    }
    service(src, p)
}

fn elems(src: &Source, p: usize) -> (r: (Vec<Elem>, usize))
    requires
        p <= src.chars@.len(),
    ensures
        r.1 == elems_end(src.chars@, p as int),
        p <= r.1 <= src.chars@.len(),
        elems_ok(r.0@, src.chars@, p as int),
    decreases src.chars@.len() - p,
{
    let s = &src.chars;
    match elem(src, ws(s, p)) {
        Some((v, e)) => {
            if p < e {
                let (mut rest, f) = elems(src, ws(s, e));
                let ghost tail = rest@;
                rest.insert(0, v);
                assert(rest@.drop_first() =~= tail);
                (rest, f)
            } else {
                (Vec::new(), p)
            }
        },
        None => (Vec::new(), p),
    }
}

fn message_fields(src: &Source, p: usize) -> (r: (Vec<Field>, usize))
    requires
        p <= src.chars@.len(),
    ensures
        r.1 == message_fields_end(src.chars@, p as int),
        p <= r.1 <= src.chars@.len(),
        message_fields_ok(r.0@, src.chars@, p as int),
    decreases src.chars@.len() - p,
{
    let s = &src.chars;
    match message_field(src, ws(s, p)) {
        Some((v, e)) => {
            if p < e {
                let (mut rest, f) = message_fields(src, ws(s, e));
                let ghost tail = rest@;
                rest.insert(0, v);
                assert(rest@.drop_first() =~= tail);
                (rest, f)
            } else {
                (Vec::new(), p)
            }
        },
        None => (Vec::new(), p),
    }
}

fn service_items(src: &Source, p: usize) -> (r: (Vec<ServiceNode>, usize))
    requires
        p <= src.chars@.len(),
    ensures
        r.1 == service_items_end(src.chars@, p as int),
        p <= r.1 <= src.chars@.len(),
        service_items_ok(r.0@, src.chars@, p as int),
    decreases src.chars@.len() - p,
{
    let s = &src.chars;
    match service_item(src, ws(s, p)) {
        Some((v, e)) => {
            if p < e {
                let (mut rest, f) = service_items(src, ws(s, e));
                let ghost tail = rest@;
                rest.insert(0, v);
                assert(rest@.drop_first() =~= tail);
                (rest, f)
            } else {
                (Vec::new(), p)
            }
        },
        None => (Vec::new(), p),
    }
}

/// Declarations stop at a fragment where no declaration matches: the
/// grammar then ends before the input does (unless only whitespace
/// follows), and by `parse`'s contract the result is `IncompleteParsing`,
/// never a truncated tree.
pub proof fn lemma_unmatched_fragment_stops(s: Seq<char>, p: int)
    requires
        0 <= p <= s.len(),
        elem_end(s, ws_end(s, p)) is None,
    ensures
        elems_end(s, p) == p,
        ws_end(s, p) < s.len() ==> p < s.len(),
{
    lemma_ws_end(s, p);
}

/// The first characters of `s` from `p`, to show where parsing stopped.
pub open spec fn excerpt(s: Seq<char>, p: int) -> Seq<char> {
    if p + 40 <= s.len() {
        s.subrange(p, p + 40)
    } else {
        s.subrange(p, s.len() as int)
    }
}

pub open spec fn header_error(s: Seq<char>) -> Seq<char> {
    "expected `syntax = \"...\";` at: "@ + excerpt(s, ws_end(s, 0))
}

/// Parses a whole file. `file_name` is only recorded in the result.
///
/// The grammar must consume the whole input: a file whose header matches
/// but whose declarations stop before the end is `IncompleteParsing`; a
/// file whose header does not match is `ParsingError`.
pub fn parse(file_name: &str, input: &str) -> (r: Result<Proto, PtError>)
    ensures
        match proto_end(input@) {
            None => r matches Err(PtError::ParsingError(m)) && m@ == header_error(input@),
            Some(e) => if e == input@.len() {
                r matches Ok(p) && p.file@ == file_name@ && p.syntax@ == syntax_value(
                    input@,
                    ws_end(input@, 0),
                ) && elems_ok(
                    p.elems@,
                    input@,
                    ws_end(input@, pos(syntax_end(input@, ws_end(input@, 0)))),
                )
            } else {
                r matches Err(PtError::IncompleteParsing)
            },
        },
{
    let src = Source::new(input);
    let s = &src.chars;
    let q = ws(s, 0);
    let (syntax, a) = match syntax(&src, q) {
        Some(t) => t,
        None => {
            let end = if s.len() - q >= 40 {
                q + 40
            } else {
                s.len()
            };
            let mut m = String::from_str("expected `syntax = \"...\";` at: ");
            m.append(src.slice(q, end).as_str());
            return Err(PtError::ParsingError(m));
        },
    };
    let (elems, e) = elems(&src, ws(s, a));
    if e == s.len() {
        Ok(Proto { file: file_name.to_owned(), syntax, elems })
    } else {
        Err(PtError::IncompleteParsing)
    }
}

/// The end of a rule that is known to match.
pub open spec fn pos(o: Option<int>) -> int {
    match o {
        Some(e) => e,
        None => 0,
    }
}

/// The identifier after the whitespace at `p`.
pub open spec fn wident_text(s: Seq<char>, p: int) -> Seq<char> {
    let q = ws_end(s, p);
    s.subrange(q, pos(ident_end(s, q)))
}

/// The run of letters and digits after the whitespace at `p`.
pub open spec fn walnum_text(s: Seq<char>, p: int) -> Seq<char> {
    let q = ws_end(s, p);
    s.subrange(q, pos(alnum_end(s, q)))
}

/// The text between the quotes of the string at `p`.
pub open spec fn str_text(s: Seq<char>, p: int) -> Seq<char> {
    s.subrange(p + 1, pos(str_end(s, p)) - 1)
}

/// The value of the number after the whitespace at `p`.
pub open spec fn wnum_val(s: Seq<char>, p: int) -> int {
    match number_spec(s, ws_end(s, p)) {
        Some((v, _)) => v,
        None => 0,
    }
}

pub open spec fn import_ok(v: Elem, s: Seq<char>, p: int) -> bool {
    let a = pos(tag_end(s, p, "import"@));
    v matches Elem::Import { name } && name@ == str_text(s, ws_end(s, a))
}

pub open spec fn package_ok(v: Elem, s: Seq<char>, p: int) -> bool {
    let x = ws_end(s, pos(tag_end(s, p, "package"@)));
    v matches Elem::Package { name } && name@ == s.subrange(x, run_end(s, x, CharClass::NotSemicolon))
}

/// The value built for an option value at `p`.
pub open spec fn option_value_ok(v: OptionValue, s: Seq<char>, p: int) -> bool {
    if str_end(s, p) is Some {
        v matches OptionValue::Str { value } && value@ == str_text(s, p)
    } else if number_spec(s, p) is Some {
        v matches OptionValue::Num { value } && value == number_spec(s, p)->Some_0.0
    } else if bool_end(s, p) is Some {
        v matches OptionValue::Bool { value } && value == (tag_end(s, p, "true"@) is Some)
    } else if option_msg_end(s, p) is Some {
        v matches OptionValue::Msg { value } && value@ == Seq::<char>::empty()
    } else {
        v matches OptionValue::Constant { value } && value@ == s.subrange(p, pos(alnum_end(s, p)))
    }
}

pub open spec fn option_name_text(s: Seq<char>, p: int) -> Seq<char> {
    wident_text(s, opt_end(tag_end(s, p, "("@), p))
}

pub open spec fn option_body_ok(o: OptionDecl, s: Seq<char>, p: int) -> bool {
    let q = ws_end(s, p);
    let b = pos(option_name_end(s, q));
    let d = pos(tag_end(s, ws_end(s, b), "="@));
    o.name@ == option_name_text(s, q) && option_value_ok(o.value, s, ws_end(s, d))
}

pub open spec fn option_ok(o: OptionDecl, s: Seq<char>, p: int) -> bool {
    option_body_ok(o, s, pos(tag_end(s, p, "option"@)))
}

pub open spec fn flag_of(s: Seq<char>, p: int) -> Flag {
    if tag_end(s, p, "optional"@) is Some {
        Flag::Optional
    } else if tag_end(s, p, "repeated"@) is Some {
        Flag::Repeated
    } else if tag_end(s, p, "required"@) is Some {
        Flag::Required
    } else {
        Flag::Singular
    }
}

#[verifier::opaque]
pub open spec fn enum_item_ok(v: EnumValue, s: Seq<char>, p: int) -> bool {
    if enum_reserved_end(s, p) is Some {
        v matches EnumValue::Reserved { idx } && idx == wnum_val(s, pos(tag_end(s, p, "reserved"@)))
    } else {
        v matches EnumValue::Single { name, idx } && name@ == wident_text(s, p) && idx == wnum_val(
            s,
            pos(tag_end(s, pos(wident_end(s, p)), "="@)),
        )
    }
}

/// `vs` are the entries of an enum body that starts at `p`, in order.
pub open spec fn enum_items_ok(vs: Seq<EnumValue>, s: Seq<char>, p: int) -> bool
    decreases vs.len(),
{
    let q = ws_end(s, p);
    match enum_item_end(s, q) {
        Some(e) => if p < e <= s.len() {
            vs.len() > 0 && enum_item_ok(vs[0], s, q) && enum_items_ok(vs.drop_first(), s, ws_end(s, e))
        } else {
            vs.len() == 0
        },
        None => vs.len() == 0,
    }
}

pub open spec fn enum_ok(v: Enum, s: Seq<char>, p: int) -> bool {
    let a = pos(tag_end(s, p, "enum"@));
    let c = pos(tag_end(s, pos(walnum_end(s, a)), "{"@));
    v.name@ == walnum_text(s, a) && enum_items_ok(v.values@, s, c)
}

pub open spec fn map_ok(v: Field, s: Seq<char>, p: int) -> bool {
    let a = pos(tag_end(s, p, "map"@));
    let c = pos(tag_end(s, run_end(s, a, CharClass::Blank), "<"@));
    let e = pos(tag_end(s, pos(wident_end(s, c)), ","@));
    let g = pos(tag_end(s, pos(wident_end(s, e)), ">"@));
    let i = pos(tag_end(s, pos(wident_end(s, g)), "="@));
    v matches Field::MapField { name, key_type, value_type, idx } && key_type@ == wident_text(s, c)
        && value_type@ == wident_text(s, e) && name@ == wident_text(s, g) && idx == wnum_val(s, i)
}

#[verifier::opaque]
pub open spec fn message_field_ok(v: Field, s: Seq<char>, p: int) -> bool {
    let a = field_flag_end(s, p);
    let b = pos(wident_end(s, a));
    let d = pos(tag_end(s, pos(wident_end(s, b)), "="@));
    v matches Field::Single { name, field_type, idx, flag } && flag == flag_of(s, p) && field_type@
        == wident_text(s, a) && name@ == wident_text(s, b) && idx == wnum_val(s, d)
}

pub open spec fn extensions_ok(v: Field, s: Seq<char>, p: int) -> bool {
    let a = pos(tag_end(s, p, "extensions"@));
    let c = pos(tag_end(s, pos(walnum_end(s, a)), "to"@));
    v matches Field::Extensions(from, to) && from@ == walnum_text(s, a) && to@ == walnum_text(s, c)
}

/// The numbers after the one that ended at `p` in a comma-separated list.
pub open spec fn num_list_vals(s: Seq<char>, p: int) -> Seq<i32>
    decreases s.len() - p,
    when 0 <= p <= s.len()
{
    match wtag_end(s, p, ","@) {
        None => Seq::empty(),
        Some(a) => match number_spec(s, a) {
            Some((v, b)) => if p < b <= s.len() {
                seq![v as i32] + num_list_vals(s, b)
            } else {
                Seq::empty()
            },
            None => Seq::empty(),
        },
    }
}

/// The names after the one that ended at `p` in a comma-separated list.
pub open spec fn str_list_vals(s: Seq<char>, p: int) -> Seq<Seq<char>>
    decreases s.len() - p,
    when 0 <= p <= s.len()
{
    match wtag_end(s, p, ","@) {
        None => Seq::empty(),
        Some(a) => match str_end(s, a) {
            Some(b) => if p < b <= s.len() {
                seq![str_text(s, a)] + str_list_vals(s, b)
            } else {
                Seq::empty()
            },
            None => Seq::empty(),
        },
    }
}

pub open spec fn reserved_list_ok(r: ReservedField, s: Seq<char>, p: int) -> bool {
    match number_spec(s, p) {
        Some((v, e)) => r matches ReservedField::Idx { idx } && idx@ == seq![v as i32]
            + num_list_vals(s, e),
        None => r matches ReservedField::Name { name } && views(name@) == seq![str_text(s, p)] + str_list_vals(s, pos(str_end(s, p))),
    }
}

pub open spec fn reserved_ok(v: Field, s: Seq<char>, p: int) -> bool {
    v matches Field::Reserved(r) && reserved_list_ok(r, s, ws_end(s, pos(tag_end(s, p, "reserved"@))))
}

/// `vs` are the fields of an `extend` body that starts at `p`, in order.
pub open spec fn message_fields_ok(vs: Seq<Field>, s: Seq<char>, p: int) -> bool
    decreases vs.len(),
{
    let q = ws_end(s, p);
    match message_field_end(s, q) {
        Some(e) => if p < e <= s.len() {
            vs.len() > 0 && message_field_ok(vs[0], s, q) && message_fields_ok(
                vs.drop_first(),
                s,
                ws_end(s, e),
            )
        } else {
            vs.len() == 0
        },
        None => vs.len() == 0,
    }
}

pub open spec fn extend_ok(v: Elem, s: Seq<char>, p: int) -> bool {
    let a = pos(tag_end(s, p, "extend"@));
    let c = pos(tag_end(s, pos(wident_end(s, a)), "{"@));
    v matches Elem::Extend { name, fields } && name@ == wident_text(s, a) && message_fields_ok(
        fields@,
        s,
        c,
    )
}

pub open spec fn rpc_ok(v: ServiceNode, s: Seq<char>, p: int) -> bool {
    let a = pos(tag_end(s, p, "rpc"@));
    let c = pos(wtag_end(s, pos(walnum_end(s, a)), "("@));
    let d = opt_end(tag_end(s, c, "stream"@), c);
    let g = pos(tag_end(s, pos(wtag_end(s, pos(wident_end(s, d)), ")"@)), "returns"@));
    let h = pos(wtag_end(s, g, "("@));
    let i = opt_end(tag_end(s, h, "stream"@), h);
    v matches ServiceNode::Rpc(r) && r.name@ == walnum_text(s, a) && r.stream_request == (tag_end(
        s,
        c,
        "stream"@,
    ) is Some) && r.request@ == wident_text(s, d) && r.stream_response == (tag_end(
        s,
        h,
        "stream"@,
    ) is Some) && r.response@ == wident_text(s, i)
}

#[verifier::opaque]
pub open spec fn service_item_ok(v: ServiceNode, s: Seq<char>, p: int) -> bool {
    if rpc_end(s, p) is Some {
        rpc_ok(v, s, p)
    } else {
        v matches ServiceNode::Option(o) && option_ok(o, s, p)
    }
}

/// `vs` are the entries of a service body that starts at `p`, in order.
pub open spec fn service_items_ok(vs: Seq<ServiceNode>, s: Seq<char>, p: int) -> bool
    decreases vs.len(),
{
    let q = ws_end(s, p);
    match service_item_end(s, q) {
        Some(e) => if p < e <= s.len() {
            vs.len() > 0 && service_item_ok(vs[0], s, q) && service_items_ok(
                vs.drop_first(),
                s,
                ws_end(s, e),
            )
        } else {
            vs.len() == 0
        },
        None => vs.len() == 0,
    }
}

pub open spec fn service_ok(v: Elem, s: Seq<char>, p: int) -> bool {
    let a = pos(tag_end(s, p, "service"@));
    let c = pos(wtag_end(s, pos(walnum_end(s, a)), "{"@));
    v matches Elem::Service { name, nodes } && name@ == walnum_text(s, a) && service_items_ok(
        nodes@,
        s,
        ws_end(s, c),
    )
}

/// The field built for the text at `p`, by the first alternative that
/// matches there.
pub open spec fn field_ok(v: Field, s: Seq<char>, p: int) -> bool
    decreases v,
{
    if oneof_end(s, p) is Some {
        match v {
            Field::OneOf { name, fields } => {
                let c = pos(tag_end(s, pos(wident_end(s, pos(tag_end(s, p, "oneof"@)))), "{"@));
                proof {
                    assert(decreases_to!(fields => fields@));
                }
                name@ == wident_text(s, pos(tag_end(s, p, "oneof"@))) && fields_ok(fields@, s, c)
            },
            _ => false,
        }
    } else if reserved_end(s, p) is Some {
        reserved_ok(v, s, p)
    } else if message_field_end(s, p) is Some {
        message_field_ok(v, s, p)
    } else if map_end(s, p) is Some {
        map_ok(v, s, p)
    } else if extensions_end(s, p) is Some {
        extensions_ok(v, s, p)
    } else if message_end(s, p) is Some {
        match v {
            Field::SubMessage(m) => msg_ok(m, s, p),
            _ => false,
        }
    } else {
        match v {
            Field::SubEnum(e) => enum_ok(e, s, p),
            _ => false,
        }
    }
}

/// `vs` are the fields of a body that starts at `p`, in order.
pub open spec fn fields_ok(vs: Seq<Field>, s: Seq<char>, p: int) -> bool
    decreases vs,
{
    let q = ws_end(s, p);
    match field_end(s, q) {
        Some(e) => if p < e <= s.len() {
            proof {
                if vs.len() > 0 {
                    assert(decreases_to!(vs => vs[0]));
                    assert(decreases_to!(vs => vs.subrange(1, vs.len() as int)));
                }
            }
            vs.len() > 0 && field_ok(vs[0], s, q) && fields_ok(vs.subrange(1, vs.len() as int), s, ws_end(s, e))
        } else {
            vs.len() == 0
        },
        None => vs.len() == 0,
    }
}

/// The message built for the text at `p`.
pub open spec fn msg_ok(m: Msg, s: Seq<char>, p: int) -> bool
    decreases m,
{
    let a = pos(tag_end(s, p, "message"@));
    let c = pos(wtag_end(s, pos(walnum_end(s, a)), "{"@));
    proof {
        assert(decreases_to!(m.fields => m.fields@));
    }
    m.name@ == walnum_text(s, a) && fields_ok(m.fields@, s, c)
}

/// The element built for the text at `p`, by the first alternative that
/// matches there.
#[verifier::opaque]
pub open spec fn elem_ok(v: Elem, s: Seq<char>, p: int) -> bool {
    if import_end(s, p) is Some {
        import_ok(v, s, p)
    } else if package_end(s, p) is Some {
        package_ok(v, s, p)
    } else if extend_end(s, p) is Some {
        extend_ok(v, s, p)
    } else if option_end(s, p) is Some {
        v matches Elem::Option(o) && option_ok(o, s, p)
    } else if message_end(s, p) is Some {
        v matches Elem::Message(m) && msg_ok(m, s, p)
    } else if enum_end(s, p) is Some {
        v matches Elem::Enum(e) && enum_ok(e, s, p)
    } else {
        service_ok(v, s, p)
    }
}

/// `vs` are the top-level elements from `p`, in order.
pub open spec fn elems_ok(vs: Seq<Elem>, s: Seq<char>, p: int) -> bool
    decreases vs.len(),
{
    let q = ws_end(s, p);
    match elem_end(s, q) {
        Some(e) => if p < e <= s.len() {
            vs.len() > 0 && elem_ok(vs[0], s, q) && elems_ok(vs.drop_first(), s, ws_end(s, e))
        } else {
            vs.len() == 0
        },
        None => vs.len() == 0,
    }
}

} // verus!
