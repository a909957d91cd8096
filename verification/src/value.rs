//! A generic tree value: objects, arrays and scalars. Canonical job records
//! are converted into this shape before they are compared, so the diff engine
//! is independent of any one record type.
use vstd::prelude::*;
use vstd::string::StringExecFns;

use crate::strutil::{i64_string, push_char, spec_int_str};

verus! {

#[derive(Debug)]
pub enum Value {
    Null,
    Bool(bool),
    Int(i64),
    Str(String),
    Array(Vec<Value>),
    Object(Vec<(String, Value)>),
}

/// Structural equality of two tree values, comparing strings by their
/// characters and children position by position.
pub open spec fn veq(a: Value, b: Value) -> bool
    decreases a, 0int, 0int,
{
    match (a, b) {
        (Value::Null, Value::Null) => true,
        (Value::Bool(x), Value::Bool(y)) => x == y,
        (Value::Int(x), Value::Int(y)) => x == y,
        (Value::Str(x), Value::Str(y)) => x@ == y@,
        (Value::Array(x), Value::Array(y)) => x@.len() == y@.len() && (forall|i: int|
            0 <= i < x@.len() ==> veq(x@[i], y@[i])),
        (Value::Object(x), Value::Object(y)) => x@.len() == y@.len() && (forall|i: int|
            0 <= i < x@.len() ==> x@[i].0@ == y@[i].0@ && veq(x@[i].1, y@[i].1)),
        _ => false,
    }
}

pub proof fn lemma_veq_refl(v: Value)
    ensures
        veq(v, v),
    decreases v,
{
    match v {
        Value::Array(elems) => {
            assert forall|i: int| 0 <= i < elems@.len() implies veq(elems@[i], elems@[i]) by {
                lemma_veq_refl(elems@[i]);
            }
        },
        Value::Object(fields) => {
            assert forall|i: int| 0 <= i < fields@.len() implies fields@[i].0@ == fields@[i].0@
                && veq(fields@[i].1, fields@[i].1) by {
                lemma_veq_refl(fields@[i].1);
            }
        },
        _ => {},
    }
}

/// A well-formed tree has no repeated key inside any one object.
pub open spec fn wf(v: Value) -> bool
    decreases v, 1int, 0int,
{
    match v {
        Value::Array(elems) => wf_arr(elems),
        Value::Object(fields) => wf_obj(fields),
        _ => true,
    }
}

pub open spec fn wf_arr(elems: Vec<Value>) -> bool
    decreases elems, 0int, 0int,
{
    forall|i: int| 0 <= i < elems@.len() ==> wf(#[trigger] elems@[i])
}

pub open spec fn wf_obj(fields: Vec<(String, Value)>) -> bool
    decreases fields, 0int, 0int,
{
    (forall|i: int| 0 <= i < fields@.len() ==> wf(#[trigger] fields@[i].1)) && (forall|
        i: int,
        j: int,
    |
        0 <= i < j < fields@.len() ==> fields@[i].0@ != fields@[j].0@)
}

/// The value bound to key `k` in an object's field list: the first match.
pub open spec fn obj_get(fields: Seq<(String, Value)>, k: Seq<char>) -> Option<Value>
    decreases fields.len(),
{
    if fields.len() == 0 {
        Option::None
    } else if fields[0].0@ == k {
        Option::Some(fields[0].1)
    } else {
        obj_get(fields.drop_first(), k)
    }
}

pub proof fn lemma_obj_get_at(fields: Seq<(String, Value)>, k: Seq<char>, i: int)
    requires
        0 <= i < fields.len(),
        fields[i].0@ == k,
        forall|t: int| 0 <= t < i ==> fields[t].0@ != k,
    ensures
        obj_get(fields, k) == Option::Some(fields[i].1),
    decreases i,
{
    if i > 0 {
        lemma_obj_get_at(fields.drop_first(), k, i - 1);
    }
}

pub proof fn lemma_obj_get_miss(fields: Seq<(String, Value)>, k: Seq<char>)
    requires
        forall|t: int| 0 <= t < fields.len() ==> fields[t].0@ != k,
    ensures
        obj_get(fields, k) is None,
    decreases fields.len(),
{
    if fields.len() > 0 {
        lemma_obj_get_miss(fields.drop_first(), k);
    }
}

pub proof fn lemma_obj_get_exists(fields: Seq<(String, Value)>, k: Seq<char>)
    requires
        exists|t: int| 0 <= t < fields.len() && #[trigger] fields[t].0@ == k,
    ensures
        obj_get(fields, k) is Some,
    decreases fields.len(),
{
    if fields.len() > 0 && fields[0].0@ != k {
        let t = choose|t: int| 0 <= t < fields.len() && #[trigger] fields[t].0@ == k;
        assert(fields.drop_first()[t - 1].0@ == k);
        lemma_obj_get_exists(fields.drop_first(), k);
    }
}

/// Index of the first field whose key equals `k`, if any.
pub fn obj_find(fields: &Vec<(String, Value)>, k: &String) -> (r: Option<usize>)
    ensures
        match r {
            Option::Some(i) => 0 <= i < fields@.len() && fields@[i as int].0@ == k@ && obj_get(
                fields@,
                k@,
            ) == Option::Some(fields@[i as int].1),
            Option::None => obj_get(fields@, k@) is None,
        },
{
    let mut i: usize = 0;
    while i < fields.len()
        invariant
            0 <= i <= fields@.len(),
            forall|t: int| 0 <= t < i ==> fields@[t].0@ != k@,
        decreases fields@.len() - i,
    {
        if crate::strutil::str_eq(fields[i].0.as_str(), k.as_str()) {
            proof {
                lemma_obj_get_at(fields@, k@, i as int);
            }
            return Option::Some(i);
        }
        i += 1;
    }
    proof {
        lemma_obj_get_miss(fields@, k@);
    }
    Option::None
}

/// How one character appears inside a rendered, quoted string.
pub open spec fn escape_char(c: char) -> Seq<char> {
    if c == '"' {
        seq!['\\', '"']
    } else if c == '\\' {
        seq!['\\', '\\']
    } else if c == '\n' {
        seq!['\\', 'n']
    } else if c == '\r' {
        seq!['\\', 'r']
    } else if c == '\t' {
        seq!['\\', 't']
    } else {
        seq![c]
    }
}

pub open spec fn escape_str(s: Seq<char>) -> Seq<char>
    decreases s.len(),
{
    if s.len() == 0 {
        Seq::empty()
    } else {
        escape_char(s[0]) + escape_str(s.drop_first())
    }
}

proof fn lemma_escape_snoc(s: Seq<char>, c: char)
    ensures
        escape_str(s.push(c)) == escape_str(s) + escape_char(c),
    decreases s.len(),
{
    let t = s.push(c);
    if s.len() == 0 {
        assert(t[0] == c);
        assert(t.drop_first() =~= Seq::<char>::empty());
        assert(escape_str(t) == escape_char(c) + escape_str(Seq::<char>::empty()));
        assert(escape_char(c) + Seq::<char>::empty() =~= escape_char(c));
        assert(escape_str(s) + escape_char(c) =~= escape_char(c));
    } else {
        assert(t[0] == s[0]);
        assert(t.drop_first() =~= s.drop_first().push(c));
        lemma_escape_snoc(s.drop_first(), c);
        assert(escape_str(t) == escape_char(s[0]) + (escape_str(s.drop_first()) + escape_char(c)));
        assert(escape_char(s[0]) + (escape_str(s.drop_first()) + escape_char(c)) =~= (escape_char(
            s[0],
        ) + escape_str(s.drop_first())) + escape_char(c));
    }
}

/// A rendered string: quoted, with the escapes above applied.
pub open spec fn render_str(s: Seq<char>) -> Seq<char> {
    seq!['"'] + escape_str(s) + seq!['"']
}

/// The rendered text of a tree value, in a compact object notation.
pub open spec fn render(v: Value) -> Seq<char>
    decreases v, 0int, 0int,
{
    match v {
        Value::Null => "null"@,
        Value::Bool(b) => if b {
            "true"@
        } else {
            "false"@
        },
        Value::Int(i) => spec_int_str(i as int),
        Value::Str(s) => render_str(s@),
        Value::Array(elems) => seq!['['] + render_elems(elems, 0) + seq![']'],
        Value::Object(fields) => seq!['{'] + render_fields(fields, 0) + seq!['}'],
    }
}

pub open spec fn render_elems(elems: Vec<Value>, i: int) -> Seq<char>
    decreases elems, elems@.len() - i, 1int,
{
    if i < 0 || i >= elems@.len() {
        Seq::empty()
    } else if i == elems@.len() - 1 {
        render(elems@[i])
    } else {
        render(elems@[i]) + seq![','] + render_elems(elems, i + 1)
    }
}

pub open spec fn render_fields(fields: Vec<(String, Value)>, i: int) -> Seq<char>
    decreases fields, fields@.len() - i, 1int,
{
    if i < 0 || i >= fields@.len() {
        Seq::empty()
    } else if i == fields@.len() - 1 {
        render_str(fields@[i].0@) + seq![':'] + render(fields@[i].1)
    } else {
        render_str(fields@[i].0@) + seq![':'] + render(fields@[i].1) + seq![','] + render_fields(
            fields,
            i + 1,
        )
    }
}

pub fn render_string_exec(s: &String) -> (r: String)
    ensures
        r@ == render_str(s@),
{
    let mut out = String::new();
    push_char(&mut out, '"');
    let sl = s.as_str();
    let n = sl.unicode_len();
    let mut i: usize = 0;
    while i < n
        invariant
            0 <= i <= n,
            n == sl@.len(),
            sl@ == s@,
            out@ == seq!['"'] + escape_str(s@.take(i as int)),
        decreases n - i,
    {
        let c = sl.get_char(i);
        proof {
            lemma_escape_snoc(s@.take(i as int), c);
            assert(s@.take(i as int).push(c) =~= s@.take(i + 1));
        }
        if c == '"' {
            push_char(&mut out, '\\');
            push_char(&mut out, '"');
        } else if c == '\\' {
            push_char(&mut out, '\\');
            push_char(&mut out, '\\');
        } else if c == '\n' {
            push_char(&mut out, '\\');
            push_char(&mut out, 'n');
        } else if c == '\r' {
            push_char(&mut out, '\\');
            push_char(&mut out, 'r');
        } else if c == '\t' {
            push_char(&mut out, '\\');
            push_char(&mut out, 't');
        } else {
            push_char(&mut out, c);
        }
        proof {
            assert(out@ =~= seq!['"'] + escape_str(s@.take(i + 1)));
        }
        i += 1;
    }
    proof {
        assert(s@.take(n as int) =~= s@);
    }
    push_char(&mut out, '"');
    proof {
        assert(out@ =~= render_str(s@));
    }
    out
}

pub fn render_value(v: &Value) -> (r: String)
    ensures
        r@ == render(*v),
    decreases *v, 0int, 0int,
{
    match v {
        Value::Null => String::from_str("null"),
        Value::Bool(b) => if *b {
            String::from_str("true")
        } else {
            String::from_str("false")
        },
        Value::Int(i) => i64_string(*i),
        Value::Str(s) => render_string_exec(s),
        Value::Array(elems) => {
            let mut out = String::new();
            push_char(&mut out, '[');
            let body = render_elems_exec(elems, 0);
            out.append(body.as_str());
            push_char(&mut out, ']');
            proof {
                assert(out@ =~= render(*v));
            }
            out
        },
        Value::Object(fields) => {
            let mut out = String::new();
            push_char(&mut out, '{');
            let body = render_fields_exec(fields, 0);
            out.append(body.as_str());
            push_char(&mut out, '}');
            proof {
                assert(out@ =~= render(*v));
            }
            out
        },
    }
}

fn render_elems_exec(elems: &Vec<Value>, i: usize) -> (r: String)
    ensures
        r@ == render_elems(*elems, i as int),
    decreases *elems, elems@.len() - i, 0int,
{
    if i >= elems.len() {
        String::new()
    } else if i == elems.len() - 1 {
        render_value(&elems[i])
    } else {
        let mut out = render_value(&elems[i]);
        push_char(&mut out, ',');
        let rest = render_elems_exec(elems, i + 1);
        out.append(rest.as_str());
        proof {
            assert(out@ =~= render_elems(*elems, i as int));
        }
        out
    }
}

fn render_fields_exec(fields: &Vec<(String, Value)>, i: usize) -> (r: String)
    ensures
        r@ == render_fields(*fields, i as int),
    decreases *fields, fields@.len() - i, 0int,
{
    if i >= fields.len() {
        String::new()
    } else {
        let mut out = render_string_exec(&fields[i].0);
        push_char(&mut out, ':');
        let val = render_value(&fields[i].1);
        out.append(val.as_str());
        if i == fields.len() - 1 {
            proof {
                assert(out@ =~= render_fields(*fields, i as int));
            }
            out
        } else {
            push_char(&mut out, ',');
            let rest = render_fields_exec(fields, i + 1);
            out.append(rest.as_str());
            proof {
                assert(out@ =~= render_fields(*fields, i as int));
            }
            out
        }
    }
}

} // verus!
