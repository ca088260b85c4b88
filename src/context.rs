//! The symbol table: every message and enum of a file, nested ones
//! included, under its full dotted name.
use vstd::prelude::*;
use crate::ast::{Elem, Field, Proto};

verus! {

/// The names generated for one declaration.
pub struct TypeNames {
    /// Scope path and name joined by `.`; the key of the table.
    pub full: Seq<char>,
    /// Scope path and name joined by `_`; the name of the generated type.
    pub ts: Seq<char>,
    /// `ts` followed by `Schema`; the name of the generated schema.
    pub schema: Seq<char>,
}

/// `parts` joined by `sep`.
pub open spec fn join(parts: Seq<Seq<char>>, sep: Seq<char>) -> Seq<char>
    decreases parts.len(),
{
    if parts.len() == 0 {
        Seq::empty()
    } else if parts.len() == 1 {
        parts[0]
    } else {
        join(parts.drop_last(), sep) + sep + parts.last()
    }
}

pub open spec fn names_of(parents: Seq<Seq<char>>, name: Seq<char>) -> TypeNames {
    TypeNames {
        full: join(parents.push(name), "."@),
        ts: join(parents.push(name), "_"@),
        schema: join(parents.push(name), "_"@) + "Schema"@,
    }
}

/// The names of a declaration depend on its scope path and its own name
/// alone, so they are the same whatever order the declarations are visited
/// in: `c` nested in `a` then `b` is `a.b.c`, `a_b_c` and `a_b_cSchema`.
pub proof fn lemma_nested_names(a: Seq<char>, b: Seq<char>, c: Seq<char>)
    ensures
        names_of(seq![a, b], c).full == a + "."@ + b + "."@ + c,
        names_of(seq![a, b], c).ts == a + "_"@ + b + "_"@ + c,
        names_of(seq![a, b], c).schema == a + "_"@ + b + "_"@ + c + "Schema"@,
{
    let parts = seq![a, b].push(c);
    assert(parts.drop_last() =~= seq![a, b]);
    assert(parts.drop_last().drop_last() =~= seq![a]);
    reveal_with_fuel(join, 3);
}

pub open spec fn views(v: Seq<String>) -> Seq<Seq<char>> {
    v.map_values(|x: String| x@)
}

/// A declaration's generated names.
pub struct ProtoType {
    pub full_name: String,
    pub ts_name: String,
    pub schema: String,
}

impl View for ProtoType {
    type V = TypeNames;

    open spec fn view(&self) -> TypeNames {
        TypeNames { full: self.full_name@, ts: self.ts_name@, schema: self.schema@ }
    }
}

pub(crate) fn join_exec(parts: &Vec<String>, sep: &str) -> (r: String)
    ensures
        r@ == join(views(parts@), sep@),
{
    let mut r = String::new();
    let mut i: usize = 0;
    while i < parts.len()
        invariant
            i <= parts@.len(),
            r@ == join(views(parts@.subrange(0, i as int)), sep@),
        decreases parts@.len() - i,
    {
        let ghost before = views(parts@.subrange(0, i as int));
        if i > 0 {
            r.append(sep);
        }
        r.append(parts[i].as_str());
        proof {
            let after = views(parts@.subrange(0, i + 1));
            assert(after.drop_last() =~= before);
            assert(after.last() == parts@[i as int]@);
            if i == 0 {
                assert(before =~= Seq::<Seq<char>>::empty());
            }
        }
        i = i + 1;
    }
    assert(parts@.subrange(0, i as int) =~= parts@);
    r
}

impl ProtoType {
    /// The names of declaration `name` nested in the messages `parents`,
    /// outermost first.
    pub fn new(name: &str, parents: Vec<String>) -> (r: ProtoType)
        ensures
            r@ == names_of(views(parents@), name@),
    {
        let mut parts = parents;
        let ghost old_parts = parts@;
        parts.push(name.to_owned());
        assert(views(parts@) =~= views(old_parts).push(name@));
        let full_name = join_exec(&parts, ".");
        let ts_name = join_exec(&parts, "_");
        let schema = ts_name.clone().concat("Schema");
        ProtoType { full_name, ts_name, schema }
    }
}


pub open spec fn pt_views(v: Seq<ProtoType>) -> Seq<TypeNames> {
    v.map_values(|x: ProtoType| x@)
}

/// The declarations that `f` adds to the table, nested in `parents`: a
/// nested message with everything nested in it, or a nested enum.
pub open spec fn field_decls(f: Field, parents: Seq<Seq<char>>) -> Seq<TypeNames>
    decreases f,
{
    match f {
        Field::SubMessage(m) => {
            proof {
                assert(decreases_to!(m.fields => m.fields@));
            }
            seq![names_of(parents, m.name@)] + fields_decls(m.fields@, parents.push(m.name@))
        },
        Field::SubEnum(e) => seq![names_of(parents, e.name@)],
        _ => Seq::empty(),
    }
}

pub open spec fn fields_decls(fs: Seq<Field>, parents: Seq<Seq<char>>) -> Seq<TypeNames>
    decreases fs,
{
    if fs.len() == 0 {
        Seq::empty()
    } else {
        proof {
            assert(decreases_to!(fs => fs.subrange(0, fs.len() - 1)));
            assert(decreases_to!(fs => fs[fs.len() - 1]));
        }
        fields_decls(fs.subrange(0, fs.len() - 1), parents) + field_decls(fs[fs.len() - 1], parents)
    }
}

/// The declarations of a top-level element, in the order they are entered.
pub open spec fn elem_decls(e: Elem) -> Seq<TypeNames> {
    match e {
        Elem::Message(m) => seq![names_of(Seq::empty(), m.name@)] + fields_decls(
            m.fields@,
            seq![m.name@],
        ),
        Elem::Enum(v) => seq![names_of(Seq::empty(), v.name@)],
        _ => Seq::empty(),
    }
}

pub open spec fn elems_decls(es: Seq<Elem>) -> Seq<TypeNames>
    decreases es.len(),
{
    if es.len() == 0 {
        Seq::empty()
    } else {
        elems_decls(es.drop_last()) + elem_decls(es.last())
    }
}

/// The entry of the table under `key`: the last one entered.
pub open spec fn find_full(t: Seq<TypeNames>, key: Seq<char>) -> Option<TypeNames>
    decreases t.len(),
{
    if t.len() == 0 {
        None
    } else if t.last().full == key {
        Some(t.last())
    } else {
        find_full(t.drop_last(), key)
    }
}

/// Looks `name` up as written, then, where `parent` is given, under the
/// parent's full name.
pub open spec fn resolve(t: Seq<TypeNames>, name: Seq<char>, parent: Option<TypeNames>) -> Option<TypeNames> {
    match find_full(t, name) {
        Some(x) => Some(x),
        None => match parent {
            Some(p) => find_full(t, p.full + "."@ + name),
            None => None,
        },
    }
}

pub open spec fn parent_view(parent: Option<&ProtoType>) -> Option<TypeNames> {
    match parent {
        Some(p) => Some(p@),
        None => None,
    }
}

pub open spec fn distinct_names(t: Seq<TypeNames>) -> bool {
    forall|i: int, j: int| 0 <= i < j < t.len() ==> t[i].full != t[j].full
}

proof fn lemma_find_full_contents(t: Seq<TypeNames>, key: Seq<char>, x: TypeNames)
    requires
        distinct_names(t),
    ensures
        find_full(t, key) == Some(x) <==> (t.contains(x) && x.full == key),
    decreases t.len(),
{
    if t.len() > 0 {
        let p = t.drop_last();
        lemma_find_full_contents(p, key, x);
        if t.contains(x) && x.full == key {
            let i = choose|i: int| 0 <= i < t.len() && t[i] == x;
            if i < t.len() - 1 {
                assert(p[i] == x);
                assert(p.contains(x));
            }
        }
        if p.contains(x) {
            let i = choose|i: int| 0 <= i < p.len() && p[i] == x;
            assert(t[i] == x);
        }
    }
}

/// With distinct full names, what a lookup finds depends only on which
/// declarations the table holds, not on the order they were entered in: two
/// tables with the same entries answer every lookup alike.
pub proof fn lemma_lookup_order_free(t1: Seq<TypeNames>, t2: Seq<TypeNames>, key: Seq<char>)
    requires
        distinct_names(t1),
        distinct_names(t2),
        forall|x: TypeNames| t1.contains(x) <==> t2.contains(x),
    ensures
        find_full(t1, key) == find_full(t2, key),
        forall|parent: Option<TypeNames>| resolve(t1, key, parent) == resolve(t2, key, parent),
{
    assert forall|k: Seq<char>| find_full(t1, k) == find_full(t2, k) by {
        if let Some(x) = find_full(t1, k) {
            lemma_find_full_contents(t1, k, x);
            lemma_find_full_contents(t2, k, x);
        } else if let Some(x) = find_full(t2, k) {
            lemma_find_full_contents(t1, k, x);
            lemma_find_full_contents(t2, k, x);
        }
    }
}

fn clone_names(v: &Vec<String>) -> (r: Vec<String>)
    ensures
        views(r@) == views(v@),
{
    let r = v.clone();
    assert(r@ =~= v@);
    r
}

/// The table of a file's messages and enums.
pub struct Context {
    pub types: Vec<ProtoType>,
}

impl View for Context {
    type V = Seq<TypeNames>;

    open spec fn view(&self) -> Seq<TypeNames> {
        pt_views(self.types@)
    }
}

impl Context {
    /// Enters every message and enum of `proto`, at any depth below
    /// messages, under its full dotted name.
    pub fn new(proto: &Proto) -> (r: Context)
        ensures
            r@ == elems_decls(proto.elems@),
    {
        let mut types: Vec<ProtoType> = Vec::new();
        let mut i: usize = 0;
        while i < proto.elems.len()
            invariant
                i <= proto.elems@.len(),
                pt_views(types@) == elems_decls(proto.elems@.subrange(0, i as int)),
            decreases proto.elems@.len() - i,
        {
            let ghost before = types@;
            let ghost es = proto.elems@.subrange(0, i + 1);
            assert(es.drop_last() =~= proto.elems@.subrange(0, i as int));
            match &proto.elems[i] {
                Elem::Message(msg) => {
                    types.push(ProtoType::new(msg.name.as_str(), Vec::new()));
                    assert(views(Seq::<String>::empty()) =~= Seq::<Seq<char>>::empty());
                    let mut j: usize = 0;
                    let parents: Vec<String> = vec![msg.name.clone()];
                    assert(views(parents@) =~= seq![msg.name@]);
                    let ghost head = types@;
                    while j < msg.fields.len()
                        invariant
                            j <= msg.fields@.len(),
                            views(parents@) == seq![msg.name@],
                            pt_views(types@) == pt_views(head) + fields_decls(
                                msg.fields@.subrange(0, j as int),
                                seq![msg.name@],
                            ),
                        decreases msg.fields@.len() - j,
                    {
                        let ghost prev = types@;
                        let mut found = Self::collect(&msg.fields[j], clone_names(&parents));
                        let ghost fo = found@;
                        let ghost fs = msg.fields@.subrange(0, j + 1);
                        assert(fs.subrange(0, fs.len() - 1) =~= msg.fields@.subrange(0, j as int));
                        assert(fs[fs.len() - 1] == msg.fields@[j as int]);
                        types.append(&mut found);
                        assert(pt_views(types@) =~= pt_views(prev) + pt_views(fo));
                        j = j + 1;
                    }
                    assert(msg.fields@.subrange(0, j as int) =~= msg.fields@);
                },
                Elem::Enum(e) => {
                    types.push(ProtoType::new(e.name.as_str(), Vec::new()));
                    assert(views(Seq::<String>::empty()) =~= Seq::<Seq<char>>::empty());
                },
                _ => {},
            }
            i = i + 1;
        }
        assert(proto.elems@.subrange(0, i as int) =~= proto.elems@);
        Context { types }
    }

    /// The declarations nested in `field`, which stands in the messages
    /// `parent`, outermost first.
    pub fn collect(field: &Field, parent: Vec<String>) -> (r: Vec<ProtoType>)
        ensures
            pt_views(r@) == field_decls(*field, views(parent@)),
        decreases field,
    {
        let mut types: Vec<ProtoType> = Vec::new();
        match field {
            Field::SubMessage(msg) => {
                let ghost ps = views(parent@);
                types.push(ProtoType::new(msg.name.as_str(), clone_names(&parent)));
                let mut inner = parent;
                inner.push(msg.name.clone());
                assert(views(inner@) =~= ps.push(msg.name@));
                let mut j: usize = 0;
                while j < msg.fields.len()
                    invariant
                        *field == Field::SubMessage(*msg),
                        j <= msg.fields@.len(),
                        views(inner@) == ps.push(msg.name@),
                        pt_views(types@) == seq![names_of(ps, msg.name@)] + fields_decls(
                            msg.fields@.subrange(0, j as int),
                            ps.push(msg.name@),
                        ),
                    decreases msg.fields@.len() - j,
                {
                    let ghost prev = types@;
                    assert(decreases_to!(msg.fields => msg.fields[j as int]));
                    assert(field->SubMessage_0 == *msg);
                    assert(decreases_to!(*field => field->SubMessage_0));
                    assert(decreases_to!(*field => *msg));
                    assert(decreases_to!(*msg => msg.fields));
                    assert(decreases_to!(*field => msg.fields[j as int]));
                    let mut found = Self::collect(&msg.fields[j], clone_names(&inner));
                    let ghost fo = found@;
                    let ghost fs = msg.fields@.subrange(0, j + 1);
                    assert(fs.subrange(0, fs.len() - 1) =~= msg.fields@.subrange(0, j as int));
                    assert(fs[fs.len() - 1] == msg.fields@[j as int]);
                    types.append(&mut found);
                    assert(pt_views(types@) =~= pt_views(prev) + pt_views(fo));
                    j = j + 1;
                }
                assert(msg.fields@.subrange(0, j as int) =~= msg.fields@);
            },
            Field::SubEnum(e) => {
                types.push(ProtoType::new(e.name.as_str(), parent));
            },
            _ => {},
        }
        types
    }

    /// The entry for `name` as written, or else for `name` inside `parent`.
    pub fn get(&self, name: &str, parent: Option<&ProtoType>) -> (r: Option<&ProtoType>)
        ensures
            match r {
                Some(x) => resolve(self@, name@, parent_view(parent)) == Some(x@),
                None => resolve(self@, name@, parent_view(parent)) is None,
            },
    {
        if let Some(x) = self.find(&name.to_owned()) {
            return Some(x);
        }
        match parent {
            Some(p) => {
                let key = p.full_name.clone().concat(".").concat(name);
                self.find(&key)
            },
            None => None,
        }
    }

    fn find(&self, key: &String) -> (r: Option<&ProtoType>)
        ensures
            match r {
                Some(x) => find_full(self@, key@) == Some(x@),
                None => find_full(self@, key@) is None,
            },
    {
        let mut i = self.types.len();
        assert(self.types@.subrange(0, i as int) =~= self.types@);
        while i > 0
            invariant
                i <= self.types@.len(),
                find_full(self@, key@) == find_full(pt_views(self.types@.subrange(0, i as int)), key@),
            decreases i,
        {
            let ghost t = pt_views(self.types@.subrange(0, i as int));
            assert(t.drop_last() =~= pt_views(self.types@.subrange(0, i - 1)));
            if self.types[i - 1].full_name == *key {
                return Some(&self.types[i - 1]);
            }
            i = i - 1;
        }
        None
    }
}

} // verus!
