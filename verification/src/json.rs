use vstd::prelude::*;

verus! {

broadcast use vstd::std_specs::vec::axiom_vec_index_decreases, vstd::seq::axiom_seq_index_decreases, vstd::seq::axiom_seq_subrange_decreases;

use crate::text::{chars_of, string_from_chars, trim_char, trim_ends};

/// A JSON value, held as plain data: numbers are carried as their
/// decimal text so that every variant is exact, and objects keep
/// their members in order.
#[derive(Debug)]
pub enum JsonValue {
    Null,
    Bool(bool),
    Num(String),
    Str(String),
    Arr(Vec<JsonValue>),
    Obj(Vec<(String, JsonValue)>),
}

/// The mathematical shape of a `JsonValue`: text as sequences of
/// characters, containers as sequences.
pub enum JsonV {
    Null,
    Bool(bool),
    Num(Seq<char>),
    Str(Seq<char>),
    Arr(Seq<JsonV>),
    Obj(Seq<(Seq<char>, JsonV)>),
}

/// The shape of a JSON value.
pub open spec fn jv(v: JsonValue) -> JsonV
    decreases v via jv_decreases
{
    match v {
        JsonValue::Null => JsonV::Null,
        JsonValue::Bool(b) => JsonV::Bool(b),
        JsonValue::Num(s) => JsonV::Num(s@),
        JsonValue::Str(s) => JsonV::Str(s@),
        JsonValue::Arr(a) => JsonV::Arr(
            Seq::new(
                a.len() as nat,
                |i: int|
                    if 0 <= i < a.len() {
                        jv(a[i])
                    } else {
                        JsonV::Null
                    },
            ),
        ),
        JsonValue::Obj(m) => JsonV::Obj(
            Seq::new(
                m.len() as nat,
                |i: int|
                    if 0 <= i < m.len() {
                        (m[i].0@, jv(m[i].1))
                    } else {
                        (Seq::empty(), JsonV::Null)
                    },
            ),
        ),
    }
}

#[via_fn]
proof fn jv_decreases(v: JsonValue) {
    match v {
        JsonValue::Arr(a) => {
            assert forall|i: int| 0 <= i < a.len() implies (decreases_to!(v => a[i])) by {
                vstd::std_specs::vec::axiom_vec_index_decreases(a, i);
                assert(decreases_to!(v => a));
            }
        }
        JsonValue::Obj(m) => {
            assert forall|i: int| 0 <= i < m.len() implies (decreases_to!(v => m[i].1)) by {
                vstd::std_specs::vec::axiom_vec_index_decreases(m, i);
                assert(decreases_to!(v => m));
                assert(decreases_to!(m[i] => m[i].1));
            }
        }
        _ => {}
    }
}

/// The shapes of the members of a JSON object, in order.
pub open spec fn obj_view(pairs: Seq<(String, JsonValue)>) -> Seq<(Seq<char>, JsonV)> {
    pairs.map_values(|p: (String, JsonValue)| (p.0@, jv(p.1)))
}

/// A hexadecimal digit character, lowercase.
pub open spec fn hex_digit(d: nat) -> char {
    if d < 10 {
        ((48 + d) as u8) as char
    } else {
        ((87 + d) as u8) as char
    }
}

/// How one character is written inside a JSON string: quote and
/// backslash are escaped, control characters take their short escape
/// or a `\u00..` form, and everything else stands as itself.
pub open spec fn escape_char(c: char) -> Seq<char> {
    if c == '"' {
        seq!['\\', '"']
    } else if c == '\\' {
        seq!['\\', '\\']
    } else if c as u32 == 8 {
        seq!['\\', 'b']
    } else if c as u32 == 9 {
        seq!['\\', 't']
    } else if c as u32 == 10 {
        seq!['\\', 'n']
    } else if c as u32 == 12 {
        seq!['\\', 'f']
    } else if c as u32 == 13 {
        seq!['\\', 'r']
    } else if (c as u32) < 32 {
        seq!['\\', 'u', '0', '0', hex_digit((c as u32 / 16) as nat), hex_digit((c as u32 % 16) as nat)]
    } else {
        seq![c]
    }
}

/// A text written inside a JSON string, character by character.
pub open spec fn escape_text(s: Seq<char>) -> Seq<char>
    decreases s.len(),
{
    if s.len() == 0 {
        Seq::empty()
    } else {
        escape_text(s.drop_last()) + escape_char(s.last())
    }
}

/// The compact JSON text of a value.
pub open spec fn json_text(v: JsonV) -> Seq<char>
    decreases v, 0int,
{
    match v {
        JsonV::Null => seq!['n', 'u', 'l', 'l'],
        JsonV::Bool(b) => if b {
            seq!['t', 'r', 'u', 'e']
        } else {
            seq!['f', 'a', 'l', 's', 'e']
        },
        JsonV::Num(s) => s,
        JsonV::Str(s) => seq!['"'] + escape_text(s) + seq!['"'],
        JsonV::Arr(items) => seq!['['] + json_items(items) + seq![']'],
        JsonV::Obj(members) => seq!['{'] + json_members(members) + seq!['}'],
    }
}

/// The comma-separated JSON texts of array items.
pub open spec fn json_items(items: Seq<JsonV>) -> Seq<char>
    decreases items, 0int,
{
    if items.len() == 0 {
        Seq::empty()
    } else if items.len() == 1 {
        json_text(items[0])
    } else {
        json_items(items.drop_last()) + seq![','] + json_text(items.last())
    }
}

/// The comma-separated JSON texts of object members.
pub open spec fn json_members(members: Seq<(Seq<char>, JsonV)>) -> Seq<char>
    decreases members, 1int,
{
    if members.len() == 0 {
        Seq::empty()
    } else if members.len() == 1 {
        json_member(members[0])
    } else {
        json_members(members.drop_last()) + seq![','] + json_member(members.last())
    }
}

/// The JSON text of one object member.
pub open spec fn json_member(m: (Seq<char>, JsonV)) -> Seq<char>
    decreases m.1, 1int,
{
    seq!['"'] + escape_text(m.0) + seq!['"', ':'] + json_text(m.1)
}

/// The stringified form of an argument value: its JSON text with the
/// quote characters trimmed from both ends.
pub open spec fn stringified(v: JsonV) -> Seq<char> {
    trim_ends(json_text(v), '"')
}

proof fn lemma_arr_elem_decreases(v: JsonValue, i: int)
    requires
        v is Arr,
        0 <= i < v->Arr_0.len(),
    ensures
        decreases_to!(v => v->Arr_0[i]),
{
    match v {
        JsonValue::Arr(a) => {
            vstd::std_specs::vec::axiom_vec_index_decreases(a, i);
            assert(decreases_to!(v => a));
        }
        _ => {}
    }
}

proof fn lemma_obj_elem_decreases(v: JsonValue, i: int)
    requires
        v is Obj,
        0 <= i < v->Obj_0.len(),
    ensures
        decreases_to!(v => v->Obj_0[i].1),
{
    match v {
        JsonValue::Obj(m) => {
            vstd::std_specs::vec::axiom_vec_index_decreases(m, i);
            assert(decreases_to!(v => m));
            assert(decreases_to!(m[i] => m[i].1));
        }
        _ => {}
    }
}

/// Whether a value is a JSON object.
pub fn is_object(v: &JsonValue) -> (r: bool)
    ensures
        r == (jv(*v) is Obj),
{
    match v {
        JsonValue::Obj(_) => true,
        _ => false,
    }
}

fn push_escaped(out: &mut Vec<char>, v: &Vec<char>)
    ensures
        final(out)@ == old(out)@ + escape_text(v@),
{
    let mut i: usize = 0;
    while i < v.len()
        invariant
            i <= v.len(),
            out@ == old(out)@ + escape_text(v@.subrange(0, i as int)),
        decreases v.len() - i,
    {
        let c = v[i];
        let x = c as u32;
        if c == '"' {
            out.push('\\');
            out.push('"');
        } else if c == '\\' {
            out.push('\\');
            out.push('\\');
        } else if x == 8 {
            out.push('\\');
            out.push('b');
        } else if x == 9 {
            out.push('\\');
            out.push('t');
        } else if x == 10 {
            out.push('\\');
            out.push('n');
        } else if x == 12 {
            out.push('\\');
            out.push('f');
        } else if x == 13 {
            out.push('\\');
            out.push('r');
        } else if x < 32 {
            out.push('\\');
            out.push('u');
            out.push('0');
            out.push('0');
            let hi = x / 16;
            let lo = x % 16;
            out.push(if hi < 10 {
                ((48 + hi) as u8) as char
            } else {
                ((87 + hi) as u8) as char
            });
            out.push(if lo < 10 {
                ((48 + lo) as u8) as char
            } else {
                ((87 + lo) as u8) as char
            });
        } else {
            out.push(c);
        }
        proof {
            let sub1 = v@.subrange(0, i + 1 as int);
            assert(sub1.drop_last() =~= v@.subrange(0, i as int));
            assert(sub1.last() == v@[i as int]);
            assert(out@ =~= old(out)@ + escape_text(sub1));
        }
        i = i + 1;
    }
    proof {
        assert(v@.subrange(0, v@.len() as int) =~= v@);
    }
}

fn push_str_chars(out: &mut Vec<char>, s: &str)
    ensures
        final(out)@ == old(out)@ + s@,
{
    let v = chars_of(s);
    let mut i: usize = 0;
    while i < v.len()
        invariant
            i <= v.len(),
            v@ == s@,
            out@ == old(out)@ + v@.subrange(0, i as int),
        decreases v.len() - i,
    {
        out.push(v[i]);
        proof {
            assert(v@.subrange(0, i + 1 as int) =~= v@.subrange(0, i as int).push(v@[i as int]));
        }
        i = i + 1;
    }
    proof {
        assert(v@.subrange(0, v@.len() as int) =~= v@);
    }
}

/// Write the compact JSON text of a value onto the end of `out`.
fn render_into(v: &JsonValue, out: &mut Vec<char>)
    ensures
        final(out)@ == old(out)@ + json_text(jv(*v)),
    decreases *v,
{
    match v {
        JsonValue::Null => {
            out.push('n');
            out.push('u');
            out.push('l');
            out.push('l');
            proof {
                assert(out@ =~= old(out)@ + json_text(jv(*v)));
            }
        }
        JsonValue::Bool(b) => {
            if *b {
                out.push('t');
                out.push('r');
                out.push('u');
                out.push('e');
            } else {
                out.push('f');
                out.push('a');
                out.push('l');
                out.push('s');
                out.push('e');
            }
            proof {
                assert(out@ =~= old(out)@ + json_text(jv(*v)));
            }
        }
        JsonValue::Num(s) => {
            push_str_chars(out, s.as_str());
        }
        JsonValue::Str(s) => {
            let cs = chars_of(s.as_str());
            out.push('"');
            push_escaped(out, &cs);
            out.push('"');
            proof {
                assert(out@ =~= old(out)@ + json_text(jv(*v)));
            }
        }
        JsonValue::Arr(a) => {
            let ghost items = jv(*v)->Arr_0;
            out.push('[');
            let mut i: usize = 0;
            while i < a.len()
                invariant
                    i <= a.len(),
                    items == jv(*v)->Arr_0,
                    jv(*v) is Arr,
                    *v == JsonValue::Arr(*a),
                    items.len() == a.len(),
                    forall|j: int| 0 <= j < a.len() ==> items[j] == jv(a[j]),
                    out@ == old(out)@ + seq!['['] + json_items(items.subrange(0, i as int)),
                decreases a.len() - i,
            {
                if i > 0 {
                    out.push(',');
                }
                proof {
                    lemma_arr_elem_decreases(*v, i as int);
                }
                render_into(&a[i], out);
                proof {
                    let sub1 = items.subrange(0, i + 1 as int);
                    assert(sub1.drop_last() =~= items.subrange(0, i as int));
                    assert(sub1.last() == items[i as int]);
                    if i == 0 {
                        assert(json_items(sub1) == json_text(items[0]));
                        assert(out@ =~= old(out)@ + seq!['['] + json_items(sub1));
                    } else {
                        assert(json_items(sub1) == json_items(items.subrange(0, i as int)) + seq![
                            ',',
                        ] + json_text(items[i as int]));
                        assert(out@ =~= old(out)@ + seq!['['] + json_items(sub1));
                    }
                }
                i = i + 1;
            }
            out.push(']');
            proof {
                assert(items.subrange(0, items.len() as int) =~= items);
                assert(out@ =~= old(out)@ + json_text(jv(*v)));
            }
        }
        JsonValue::Obj(m) => {
            let ghost members = jv(*v)->Obj_0;
            out.push('{');
            let mut i: usize = 0;
            while i < m.len()
                invariant
                    i <= m.len(),
                    members == jv(*v)->Obj_0,
                    jv(*v) is Obj,
                    *v == JsonValue::Obj(*m),
                    members.len() == m.len(),
                    forall|j: int|
                        0 <= j < m.len() ==> members[j] == (m[j].0@, jv(m[j].1)),
                    out@ == old(out)@ + seq!['{'] + json_members(members.subrange(0, i as int)),
                decreases m.len() - i,
            {
                if i > 0 {
                    out.push(',');
                }
                let cs = chars_of(m[i].0.as_str());
                out.push('"');
                push_escaped(out, &cs);
                out.push('"');
                out.push(':');
                proof {
                    lemma_obj_elem_decreases(*v, i as int);
                }
                render_into(&m[i].1, out);
                proof {
                    let sub1 = members.subrange(0, i + 1 as int);
                    assert(sub1.drop_last() =~= members.subrange(0, i as int));
                    assert(sub1.last() == members[i as int]);
                    assert(json_member(members[i as int]) == seq!['"'] + escape_text(m[i as int].0@)
                        + seq!['"', ':'] + json_text(jv(m[i as int].1)));
                    if i == 0 {
                        assert(json_members(sub1) == json_member(members[0]));
                        assert(out@ =~= old(out)@ + seq!['{'] + json_members(sub1));
                    } else {
                        assert(json_members(sub1) == json_members(members.subrange(0, i as int))
                            + seq![','] + json_member(members[i as int]));
                        assert(out@ =~= old(out)@ + seq!['{'] + json_members(sub1));
                    }
                }
                i = i + 1;
            }
            out.push('}');
            proof {
                assert(members.subrange(0, members.len() as int) =~= members);
                assert(out@ =~= old(out)@ + json_text(jv(*v)));
            }
        }
    }
}

/// The compact JSON text of a value.
pub fn render(v: &JsonValue) -> (r: String)
    ensures
        r@ == json_text(jv(*v)),
{
    let mut out: Vec<char> = Vec::new();
    render_into(v, &mut out);
    string_from_chars(&out)
}

/// The stringified form of an argument value, used for path
/// substitution and query values.
pub fn stringify_value(v: &JsonValue) -> (r: Vec<char>)
    ensures
        r@ == stringified(jv(*v)),
{
    let mut out: Vec<char> = Vec::new();
    render_into(v, &mut out);
    trim_char(&out, '"')
}

/// An exact copy of a value.
pub fn duplicate(v: &JsonValue) -> (r: JsonValue)
    ensures
        jv(r) == jv(*v),
    decreases *v,
{
    match v {
        JsonValue::Null => JsonValue::Null,
        JsonValue::Bool(b) => JsonValue::Bool(*b),
        JsonValue::Num(s) => JsonValue::Num(s.clone()),
        JsonValue::Str(s) => JsonValue::Str(s.clone()),
        JsonValue::Arr(a) => {
            let mut out: Vec<JsonValue> = Vec::new();
            let mut i: usize = 0;
            while i < a.len()
                invariant
                    i <= a.len(),
                    *v == JsonValue::Arr(*a),
                    out@.len() == i,
                    forall|j: int| 0 <= j < i ==> jv(out@[j]) == jv(a[j]),
                decreases a.len() - i,
            {
                proof {
                    lemma_arr_elem_decreases(*v, i as int);
                }
                let d = duplicate(&a[i]);
                out.push(d);
                i = i + 1;
            }
            let r = JsonValue::Arr(out);
            proof {
                assert(jv(r)->Arr_0 =~= jv(*v)->Arr_0);
            }
            r
        }
        JsonValue::Obj(m) => {
            let mut out: Vec<(String, JsonValue)> = Vec::new();
            let mut i: usize = 0;
            while i < m.len()
                invariant
                    i <= m.len(),
                    *v == JsonValue::Obj(*m),
                    out@.len() == i,
                    forall|j: int|
                        0 <= j < i ==> out@[j].0@ == m[j].0@ && jv(out@[j].1) == jv(m[j].1),
                decreases m.len() - i,
            {
                proof {
                    lemma_obj_elem_decreases(*v, i as int);
                }
                let k = m[i].0.clone();
                let d = duplicate(&m[i].1);
                out.push((k, d));
                i = i + 1;
            }
            let r = JsonValue::Obj(out);
            proof {
                assert(jv(r)->Obj_0 =~= jv(*v)->Obj_0);
            }
            r
        }
    }
}

} // verus!
