//! A JSON document as the model definitions carry it, with lookups whose
//! results are specified over the document's members.

use vstd::prelude::*;

use crate::text::{chars_of, push_char, str_eq};

verus! {

/// A JSON value; numbers keep their text.
#[derive(Debug)]
pub enum JsonValue {
    Null,
    Bool(bool),
    Number(String),
    Str(String),
    Array(Vec<JsonValue>),
    Object(Vec<JsonMember>),
}

/// One member of a JSON object.
#[derive(Debug)]
pub struct JsonMember {
    pub key: String,
    pub value: JsonValue,
}

/// The value of the first member named `key`.
pub open spec fn member(fields: Seq<JsonMember>, key: Seq<char>) -> Option<JsonValue>
    decreases fields.len(),
{
    if fields.len() == 0 {
        None
    } else if fields[0].key@ == key {
        Some(fields[0].value)
    } else {
        member(fields.drop_first(), key)
    }
}

/// `value[key]` for an object, nothing for anything else.
pub open spec fn spec_get(value: JsonValue, key: Seq<char>) -> Option<JsonValue> {
    match value {
        JsonValue::Object(fields) => member(fields@, key),
        _ => None,
    }
}

/// Whether `value` is an object holding a member `key`.
pub open spec fn spec_has(value: JsonValue, key: Seq<char>) -> bool {
    spec_get(value, key) is Some
}

/// `value[key]`, where `value[key]` is an object.
pub open spec fn spec_get_object(value: JsonValue, key: Seq<char>) -> Option<JsonValue> {
    match spec_get(value, key) {
        Some(v) => if v is Object {
            Some(v)
        } else {
            None
        },
        None => None,
    }
}

/// The text of `value[key]`, where that is a string.
pub open spec fn spec_get_str(value: JsonValue, key: Seq<char>) -> Option<Seq<char>> {
    match spec_get(value, key) {
        Some(JsonValue::Str(s)) => Some(s@),
        _ => None,
    }
}

pub proof fn lemma_member_index(fields: Seq<JsonMember>, key: Seq<char>)
    ensures
        member(fields, key) is Some ==> exists|i: int|
            0 <= i < fields.len() && member(fields, key) == Some(#[trigger] fields[i].value),
    decreases fields.len(),
{
    if fields.len() > 0 && fields[0].key@ != key {
        lemma_member_index(fields.drop_first(), key);
        if member(fields, key) is Some {
            let i = choose|i: int|
                0 <= i < fields.drop_first().len() && member(fields.drop_first(), key) == Some(
                    #[trigger] fields.drop_first()[i].value,
                );
            assert(fields[i + 1] == fields.drop_first()[i]);
        }
    }
}

/// A member of an object is smaller than the object.
pub proof fn lemma_get_decreases(value: JsonValue, key: Seq<char>)
    ensures
        spec_get(value, key) matches Some(x) ==> decreases_to!(value => x),
{
    if let JsonValue::Object(fields) = value {
        lemma_member_index(fields@, key);
        if let Some(x) = member(fields@, key) {
            let i = choose|i: int| 0 <= i < fields@.len() && member(fields@, key) == Some(#[trigger] fields@[i].value);
            assert(decreases_to!(value => fields));
            assert(decreases_to!(fields => fields@));
            assert(decreases_to!(fields@ => fields@[i]));
            assert(decreases_to!(fields@[i] => fields@[i].value));
        }
    }
}

pub fn member_of<'a>(fields: &'a Vec<JsonMember>, key: &str) -> (r: Option<&'a JsonValue>)
    ensures
        match r {
            Some(v) => member(fields@, key@) == Some(*v),
            None => member(fields@, key@) is None,
        },
{
    let mut i: usize = 0;
    assert(fields@.subrange(0, fields@.len() as int) =~= fields@);
    while i < fields.len()
        invariant
            i <= fields@.len(),
            member(fields@, key@) == member(fields@.subrange(i as int, fields@.len() as int), key@),
        decreases fields.len() - i,
    {
        let ghost rest = fields@.subrange(i as int, fields@.len() as int);
        assert(rest[0] == fields@[i as int]);
        if str_eq(fields[i].key.as_str(), key) {
            return Some(&fields[i].value);
        }
        assert(rest.drop_first() =~= fields@.subrange(i + 1, fields@.len() as int));
        i = i + 1;
    }
    None
}

/// `value[key]`.
pub fn get<'a>(value: &'a JsonValue, key: &str) -> (r: Option<&'a JsonValue>)
    ensures
        match r {
            Some(v) => spec_get(*value, key@) == Some(*v),
            None => spec_get(*value, key@) is None,
        },
{
    match value {
        JsonValue::Object(fields) => member_of(fields, key),
        _ => None,
    }
}

/// The text of `value[key]`, where it is a string.
pub fn get_str<'a>(value: &'a JsonValue, key: &str) -> (r: Option<&'a String>)
    ensures
        match r {
            Some(s) => spec_get_str(*value, key@) == Some(s@),
            None => spec_get_str(*value, key@) is None,
        },
{
    match get(value, key) {
        Some(JsonValue::Str(s)) => Some(s),
        _ => None,
    }
}

/// `value[key]`, where it is an object.
pub fn get_object<'a>(value: &'a JsonValue, key: &str) -> (r: Option<&'a JsonValue>)
    ensures
        match r {
            Some(v) => spec_get_object(*value, key@) == Some(*v),
            None => spec_get_object(*value, key@) is None,
        },
{
    match get(value, key) {
        Some(v) => match v {
            JsonValue::Object(_) => Some(v),
            _ => None,
        },
        None => None,
    }
}

/// Two JSON values are equal as documents: scalars by their text, arrays
/// element by element, objects as maps from key to value (member order and
/// repeated keys aside; a key stands for its first member).
pub open spec fn json_equiv(a: JsonValue, b: JsonValue) -> bool
    decreases a, 0nat,
{
    match a {
        JsonValue::Null => b is Null,
        JsonValue::Bool(x) => b matches JsonValue::Bool(y) && x == y,
        JsonValue::Number(x) => b matches JsonValue::Number(y) && x@ == y@,
        JsonValue::Str(x) => b matches JsonValue::Str(y) && x@ == y@,
        JsonValue::Array(xs) => match b {
            JsonValue::Array(ys) => arrays_equiv(xs@, ys@),
            _ => false,
        },
        JsonValue::Object(xf) => match b {
            JsonValue::Object(yf) => keys_within(yf@, xf@) && members_equiv(xf@, xf@, yf@),
            _ => false,
        },
    }
}

/// Element by element.
pub open spec fn arrays_equiv(xs: Seq<JsonValue>, ys: Seq<JsonValue>) -> bool
    decreases xs, 0nat,
{
    if xs.len() == 0 {
        ys.len() == 0
    } else if ys.len() != xs.len() {
        false
    } else {
        arrays_equiv(xs.drop_last(), ys.drop_last()) && json_equiv(xs.last(), ys.last())
    }
}

/// Every key of `ys` is a key of `xs`.
pub open spec fn keys_within(ys: Seq<JsonMember>, xs: Seq<JsonMember>) -> bool {
    forall|j: int| 0 <= j < ys.len() ==> member(xs, (#[trigger] ys[j]).key@) is Some
}

/// For the key of each member of `rest`, `ys` has it, with a value equal to
/// the one `all` has for it.
pub open spec fn members_equiv(all: Seq<JsonMember>, rest: Seq<JsonMember>, ys: Seq<JsonMember>) -> bool
    decreases all, rest.len(),
{
    if rest.len() == 0 {
        true
    } else {
        members_equiv(all, rest.drop_last(), ys) && match member(ys, rest.last().key@) {
            Some(v) => match member(all, rest.last().key@) {
                Some(x) => {
                    proof {
                        lemma_member_index(all, rest.last().key@);
                        let i = choose|i: int| 0 <= i < all.len() && member(all, rest.last().key@) == Some(#[trigger] all[i].value);
                        assert(decreases_to!(all => all[i]));
                        assert(decreases_to!(all[i] => all[i].value));
                    }
                    json_equiv(x, v)
                },
                None => false,
            },
            None => false,
        }
    }
}

fn keys_within_exec(ys: &Vec<JsonMember>, xs: &Vec<JsonMember>) -> (r: bool)
    ensures
        r == keys_within(ys@, xs@),
{
    let mut j: usize = 0;
    while j < ys.len()
        invariant
            j <= ys@.len(),
            forall|k: int| 0 <= k < j ==> member(xs@, (#[trigger] ys@[k]).key@) is Some,
        decreases ys.len() - j,
    {
        if member_of(xs, ys[j].key.as_str()).is_none() {
            return false;
        }
        j = j + 1;
    }
    true
}

/// Whether two JSON values are equal as documents.
pub fn json_equal(a: &JsonValue, b: &JsonValue) -> (r: bool)
    ensures
        r == json_equiv(*a, *b),
    decreases *a, 0nat,
{
    match a {
        JsonValue::Null => matches!(b, JsonValue::Null),
        JsonValue::Bool(x) => match b {
            JsonValue::Bool(y) => *x == *y,
            _ => false,
        },
        JsonValue::Number(x) => match b {
            JsonValue::Number(y) => str_eq(x.as_str(), y.as_str()),
            _ => false,
        },
        JsonValue::Str(x) => match b {
            JsonValue::Str(y) => str_eq(x.as_str(), y.as_str()),
            _ => false,
        },
        JsonValue::Array(xs) => match b {
            JsonValue::Array(ys) => {
                proof {
                    assert(decreases_to!(*a => xs));
                }
                arrays_equal(xs, ys)
            },
            _ => false,
        },
        JsonValue::Object(xf) => match b {
            JsonValue::Object(yf) => {
                if !keys_within_exec(yf, xf) {
                    return false;
                }
                proof {
                    assert(decreases_to!(*a => xf));
                }
                members_equal(xf, yf)
            },
            _ => false,
        },
    }
}

fn arrays_equal(xs: &Vec<JsonValue>, ys: &Vec<JsonValue>) -> (r: bool)
    ensures
        r == arrays_equiv(xs@, ys@),
    decreases xs@, 1nat,
{
    if xs.len() != ys.len() {
        proof {
            if arrays_equiv(xs@, ys@) {
                lemma_arrays_len(xs@, ys@);
            }
        }
        return false;
    }
    let mut i: usize = 0;
    proof {
        assert(xs@.subrange(0, 0) =~= Seq::<JsonValue>::empty());
        assert(ys@.subrange(0, 0) =~= Seq::<JsonValue>::empty());
    }
    while i < xs.len()
        invariant
            i <= xs@.len(),
            xs@.len() == ys@.len(),
            arrays_equiv(xs@.subrange(0, i as int), ys@.subrange(0, i as int)),
        decreases xs.len() - i,
    {
        proof {
            assert(decreases_to!(xs@ => xs@[i as int]));
            let px = xs@.subrange(0, i as int + 1);
            let py = ys@.subrange(0, i as int + 1);
            assert(px.drop_last() =~= xs@.subrange(0, i as int));
            assert(py.drop_last() =~= ys@.subrange(0, i as int));
            assert(px.last() == xs@[i as int]);
            assert(py.last() == ys@[i as int]);
        }
        if !json_equal(&xs[i], &ys[i]) {
            proof {
                if arrays_equiv(xs@, ys@) {
                    lemma_arrays_prefix(xs@, ys@, i as int + 1);
                }
            }
            return false;
        }
        i = i + 1;
    }
    proof {
        assert(xs@.subrange(0, xs@.len() as int) =~= xs@);
        assert(ys@.subrange(0, ys@.len() as int) =~= ys@);
    }
    true
}

proof fn lemma_arrays_len(xs: Seq<JsonValue>, ys: Seq<JsonValue>)
    requires
        arrays_equiv(xs, ys),
    ensures
        xs.len() == ys.len(),
{
}

/// A prefix of equal arrays is equal.
proof fn lemma_arrays_prefix(xs: Seq<JsonValue>, ys: Seq<JsonValue>, k: int)
    requires
        xs.len() == ys.len(),
        0 <= k <= xs.len(),
        arrays_equiv(xs, ys),
    ensures
        arrays_equiv(xs.subrange(0, k), ys.subrange(0, k)),
    decreases xs.len() - k,
{
    if k == xs.len() {
        assert(xs.subrange(0, k) =~= xs);
        assert(ys.subrange(0, k) =~= ys);
    } else {
        lemma_arrays_prefix(xs, ys, k + 1);
        let px = xs.subrange(0, k + 1);
        let py = ys.subrange(0, k + 1);
        assert(px.drop_last() =~= xs.subrange(0, k));
        assert(py.drop_last() =~= ys.subrange(0, k));
    }
}

/// A prefix of matching members matches.
proof fn lemma_members_prefix(all: Seq<JsonMember>, ys: Seq<JsonMember>, k: int)
    requires
        0 <= k <= all.len(),
        members_equiv(all, all, ys),
    ensures
        members_equiv(all, all.subrange(0, k), ys),
    decreases all.len() - k,
{
    if k == all.len() {
        assert(all.subrange(0, k) =~= all);
    } else {
        lemma_members_prefix(all, ys, k + 1);
        let p = all.subrange(0, k + 1);
        assert(p.drop_last() =~= all.subrange(0, k));
    }
}

fn members_equal(xf: &Vec<JsonMember>, yf: &Vec<JsonMember>) -> (r: bool)
    ensures
        r == members_equiv(xf@, xf@, yf@),
    decreases xf@, 1nat,
{
    let mut i: usize = 0;
    proof {
        assert(xf@.subrange(0, 0) =~= Seq::<JsonMember>::empty());
    }
    while i < xf.len()
        invariant
            i <= xf@.len(),
            members_equiv(xf@, xf@.subrange(0, i as int), yf@),
        decreases xf.len() - i,
    {
        let key = xf[i].key.as_str();
        let ghost p = xf@.subrange(0, i as int + 1);
        proof {
            assert(p.drop_last() =~= xf@.subrange(0, i as int));
            assert(p.last() == xf@[i as int]);
        }
        let yv = match member_of(yf, key) {
            Some(v) => v,
            None => {
                proof {
                    lemma_members_prefix_neg(xf@, yf@, i as int + 1);
                }
                return false;
            },
        };
        let xv = match member_of(xf, key) {
            Some(v) => v,
            None => {
                proof {
                    lemma_members_prefix_neg(xf@, yf@, i as int + 1);
                }
                return false;
            },
        };
        proof {
            lemma_member_index(xf@, key@);
            let j = choose|j: int| 0 <= j < xf@.len() && member(xf@, key@) == Some(#[trigger] xf@[j].value);
            assert(decreases_to!(xf@ => xf@[j]));
            assert(decreases_to!(xf@[j] => xf@[j].value));
        }
        if !json_equal(xv, yv) {
            proof {
                lemma_members_prefix_neg(xf@, yf@, i as int + 1);
            }
            return false;
        }
        i = i + 1;
    }
    proof {
        assert(xf@.subrange(0, xf@.len() as int) =~= xf@);
    }
    true
}

proof fn lemma_members_prefix_neg(all: Seq<JsonMember>, ys: Seq<JsonMember>, k: int)
    requires
        0 <= k <= all.len(),
        !members_equiv(all, all.subrange(0, k), ys),
    ensures
        !members_equiv(all, all, ys),
{
    if members_equiv(all, all, ys) {
        lemma_members_prefix(all, ys, k);
    }
}

/// Two member lists are equal as objects.
pub open spec fn objects_equiv(xs: Seq<JsonMember>, ys: Seq<JsonMember>) -> bool {
    keys_within(ys, xs) && members_equiv(xs, xs, ys)
}

/// Whether two member lists are equal as objects.
pub fn objects_equal(xs: &Vec<JsonMember>, ys: &Vec<JsonMember>) -> (r: bool)
    ensures
        r == objects_equiv(xs@, ys@),
{
    keys_within_exec(ys, xs) && members_equal(xs, ys)
}

/// Every JSON value is equal to itself as a document.
pub proof fn lemma_json_equiv_refl(a: JsonValue)
    ensures
        json_equiv(a, a),
    decreases a, 0nat,
{
    match a {
        JsonValue::Array(xs) => {
            assert(decreases_to!(a => xs));
            lemma_arrays_equiv_refl(xs@);
        },
        JsonValue::Object(xf) => {
            assert(decreases_to!(a => xf));
            assert forall|j: int| 0 <= j < xf@.len() implies member(xf@, (#[trigger] xf@[j]).key@) is Some by {
                lemma_member_present(xf@, j);
            }
            lemma_members_equiv_refl(xf@, xf@);
        },
        _ => {},
    }
}

proof fn lemma_arrays_equiv_refl(xs: Seq<JsonValue>)
    ensures
        arrays_equiv(xs, xs),
    decreases xs, 0nat,
{
    if xs.len() > 0 {
        lemma_arrays_equiv_refl(xs.drop_last());
        lemma_json_equiv_refl(xs.last());
    }
}

pub proof fn lemma_members_equiv_refl(all: Seq<JsonMember>, rest: Seq<JsonMember>)
    requires
        forall|j: int| 0 <= j < rest.len() ==> member(all, (#[trigger] rest[j]).key@) is Some,
    ensures
        members_equiv(all, rest, all),
    decreases all, rest.len(),
{
    if rest.len() > 0 {
        assert forall|j: int| 0 <= j < rest.drop_last().len() implies member(
            all,
            (#[trigger] rest.drop_last()[j]).key@,
        ) is Some by {
            assert(rest.drop_last()[j] == rest[j]);
        }
        lemma_members_equiv_refl(all, rest.drop_last());
        let k = rest.last().key@;
        assert(member(all, k) is Some);
        lemma_member_index(all, k);
        let i = choose|i: int| 0 <= i < all.len() && member(all, k) == Some(#[trigger] all[i].value);
        assert(decreases_to!(all => all[i]));
        assert(decreases_to!(all[i] => all[i].value));
        lemma_json_equiv_refl(all[i].value);
    }
}

/// A key of a member list has a first member.
pub proof fn lemma_member_present(fields: Seq<JsonMember>, j: int)
    requires
        0 <= j < fields.len(),
    ensures
        member(fields, fields[j].key@) is Some,
    decreases j,
{
    if j > 0 && fields[0].key@ != fields[j].key@ {
        lemma_member_present(fields.drop_first(), j - 1);
        assert(fields.drop_first()[j - 1] == fields[j]);
    }
}

/// A lowercase hexadecimal digit.
pub open spec fn hex_lower(d: u32) -> char {
    if d < 10 {
        ((48 + d) as u8) as char
    } else {
        ((87 + d) as u8) as char
    }
}

/// How a character of a string is written in JSON text: quotes and
/// backslashes escaped, control characters by their short escape or as
/// `\u00XX`.
pub open spec fn escape_char(c: char) -> Seq<char> {
    if c == '"' {
        seq!['\\', '"']
    } else if c == '\\' {
        seq!['\\', '\\']
    } else if c == '\n' {
        seq!['\\', 'n']
    } else if c == '\r' {
        seq!['\\', 'r']
    } else if c == '\t' {
        seq!['\\', 't']
    } else if c == '\u{8}' {
        seq!['\\', 'b']
    } else if c == '\u{c}' {
        seq!['\\', 'f']
    } else if (c as u32) < 32 {
        seq!['\\', 'u', '0', '0', hex_lower((c as u32) / 16), hex_lower((c as u32) % 16)]
    } else {
        seq![c]
    }
}

pub open spec fn escape_text(s: Seq<char>) -> Seq<char>
    decreases s.len(),
{
    if s.len() == 0 {
        Seq::empty()
    } else {
        escape_text(s.drop_last()) + escape_char(s.last())
    }
}

/// A string in JSON text.
pub open spec fn quoted(s: Seq<char>) -> Seq<char> {
    seq!['"'] + escape_text(s) + seq!['"']
}

/// The compact JSON text of a value: members in their order, no spaces.
pub open spec fn json_text(v: JsonValue) -> Seq<char>
    decreases v, 0nat,
{
    match v {
        JsonValue::Null => "null"@,
        JsonValue::Bool(b) => if b {
            "true"@
        } else {
            "false"@
        },
        JsonValue::Number(n) => n@,
        JsonValue::Str(s) => quoted(s@),
        JsonValue::Array(xs) => seq!['['] + items_text(xs@) + seq![']'],
        JsonValue::Object(fs) => seq!['{'] + members_text(fs@) + seq!['}'],
    }
}

/// Array items joined by commas.
pub open spec fn items_text(xs: Seq<JsonValue>) -> Seq<char>
    decreases xs, 0nat,
{
    if xs.len() == 0 {
        Seq::empty()
    } else if xs.len() == 1 {
        json_text(xs[0])
    } else {
        items_text(xs.drop_last()) + seq![','] + json_text(xs.last())
    }
}

/// Object members, each as `"key":value`, joined by commas.
pub open spec fn members_text(fs: Seq<JsonMember>) -> Seq<char>
    decreases fs, 0nat,
{
    if fs.len() == 0 {
        Seq::empty()
    } else {
        let last = fs.last();
        proof {
            assert(decreases_to!(fs => fs[fs.len() - 1]));
            assert(decreases_to!(fs[fs.len() - 1] => fs[fs.len() - 1].value));
        }
        let entry = quoted(last.key@) + seq![':'] + json_text(last.value);
        if fs.len() == 1 {
            entry
        } else {
            members_text(fs.drop_last()) + seq![','] + entry
        }
    }
}

fn hex_digit_lower(d: u32) -> (c: char)
    requires
        d < 16,
    ensures
        c == hex_lower(d),
{
    if d < 10 {
        let b: u8 = (48 + d) as u8;
        b as char
    } else {
        let b: u8 = (87 + d) as u8;
        b as char
    }
}

fn push_escaped(out: &mut String, c: char)
    ensures
        final(out)@ == old(out)@ + escape_char(c),
{
    let ghost start = out@;
    if c == '"' {
        push_char(out, '\\');
        push_char(out, '"');
    } else if c == '\\' {
        push_char(out, '\\');
        push_char(out, '\\');
    } else if c == '\n' {
        push_char(out, '\\');
        push_char(out, 'n');
    } else if c == '\r' {
        push_char(out, '\\');
        push_char(out, 'r');
    } else if c == '\t' {
        push_char(out, '\\');
        push_char(out, 't');
    } else if c == '\u{8}' {
        push_char(out, '\\');
        push_char(out, 'b');
    } else if c == '\u{c}' {
        push_char(out, '\\');
        push_char(out, 'f');
    } else if (c as u32) < 32 {
        let code = c as u32;
        push_char(out, '\\');
        push_char(out, 'u');
        push_char(out, '0');
        push_char(out, '0');
        push_char(out, hex_digit_lower(code / 16));
        push_char(out, hex_digit_lower(code % 16));
    } else {
        push_char(out, c);
    }
    assert(out@ =~= start + escape_char(c));
}

fn push_quoted(out: &mut String, s: &str)
    ensures
        final(out)@ == old(out)@ + quoted(s@),
{
    let ghost start = out@;
    push_char(out, '"');
    let v = chars_of(s);
    let mut i: usize = 0;
    while i < v.len()
        invariant
            i <= v@.len(),
            v@ == s@,
            out@ == start + seq!['"'] + escape_text(v@.subrange(0, i as int)),
        decreases v.len() - i,
    {
        let ghost before = out@;
        push_escaped(out, v[i]);
        proof {
            let p = v@.subrange(0, i as int + 1);
            assert(p.drop_last() =~= v@.subrange(0, i as int));
            assert(p.last() == v@[i as int]);
            assert(out@ =~= start + seq!['"'] + escape_text(p));
        }
        i = i + 1;
    }
    push_char(out, '"');
    assert(v@.subrange(0, v@.len() as int) =~= v@);
    assert(out@ =~= start + quoted(s@));
}

fn push_str_chars(out: &mut String, s: &str)
    ensures
        final(out)@ == old(out)@ + s@,
{
    out.append(s);
}

/// Appends the compact JSON text of `v`.
pub fn push_json_text(out: &mut String, v: &JsonValue)
    ensures
        final(out)@ == old(out)@ + json_text(*v),
    decreases *v, 0nat,
{
    let ghost start = out@;
    match v {
        JsonValue::Null => {
            push_str_chars(out, "null");
        },
        JsonValue::Bool(b) => {
            if *b {
                push_str_chars(out, "true");
            } else {
                push_str_chars(out, "false");
            }
        },
        JsonValue::Number(n) => {
            push_str_chars(out, n.as_str());
        },
        JsonValue::Str(s) => {
            push_quoted(out, s.as_str());
        },
        JsonValue::Array(xs) => {
            push_char(out, '[');
            proof {
                assert(decreases_to!(*v => xs));
            }
            push_items(out, xs);
            push_char(out, ']');
            assert(out@ =~= start + json_text(*v));
        },
        JsonValue::Object(fs) => {
            push_char(out, '{');
            proof {
                assert(decreases_to!(*v => fs));
            }
            push_members(out, fs);
            push_char(out, '}');
            assert(out@ =~= start + json_text(*v));
        },
    }
}

fn push_items(out: &mut String, xs: &Vec<JsonValue>)
    ensures
        final(out)@ == old(out)@ + items_text(xs@),
    decreases xs@, 1nat,
{
    let ghost start = out@;
    let mut i: usize = 0;
    proof {
        assert(xs@.subrange(0, 0) =~= Seq::<JsonValue>::empty());
    }
    while i < xs.len()
        invariant
            i <= xs@.len(),
            out@ == start + items_text(xs@.subrange(0, i as int)),
        decreases xs.len() - i,
    {
        let ghost p = xs@.subrange(0, i as int + 1);
        proof {
            assert(p.drop_last() =~= xs@.subrange(0, i as int));
            assert(p.last() == xs@[i as int]);
            assert(decreases_to!(xs@ => xs@[i as int]));
        }
        if i > 0 {
            push_char(out, ',');
        }
        push_json_text(out, &xs[i]);
        proof {
            if i == 0 {
                assert(p.len() == 1);
                assert(p[0] == xs@[0]);
                assert(items_text(xs@.subrange(0, 0)) =~= Seq::<char>::empty());
            }
            assert(out@ =~= start + items_text(p));
        }
        i = i + 1;
    }
    proof {
        assert(xs@.subrange(0, xs@.len() as int) =~= xs@);
    }
}

fn push_members(out: &mut String, fs: &Vec<JsonMember>)
    ensures
        final(out)@ == old(out)@ + members_text(fs@),
    decreases fs@, 1nat,
{
    let ghost start = out@;
    let mut i: usize = 0;
    proof {
        assert(fs@.subrange(0, 0) =~= Seq::<JsonMember>::empty());
    }
    while i < fs.len()
        invariant
            i <= fs@.len(),
            out@ == start + members_text(fs@.subrange(0, i as int)),
        decreases fs.len() - i,
    {
        let ghost p = fs@.subrange(0, i as int + 1);
        proof {
            assert(p.drop_last() =~= fs@.subrange(0, i as int));
            assert(p.last() == fs@[i as int]);
            assert(decreases_to!(fs@ => fs@[i as int]));
            assert(decreases_to!(fs@[i as int] => fs@[i as int].value));
        }
        if i > 0 {
            push_char(out, ',');
        }
        push_quoted(out, fs[i].key.as_str());
        push_char(out, ':');
        push_json_text(out, &fs[i].value);
        proof {
            if i == 0 {
                assert(members_text(fs@.subrange(0, 0)) =~= Seq::<char>::empty());
            }
            assert(out@ =~= start + members_text(p));
        }
        i = i + 1;
    }
    proof {
        assert(fs@.subrange(0, fs@.len() as int) =~= fs@);
    }
}

/// The compact JSON text of `v`.
pub fn to_json_text(v: &JsonValue) -> (r: String)
    ensures
        r@ == json_text(*v),
{
    let mut out = String::new();
    push_json_text(&mut out, v);
    assert(out@ =~= json_text(*v));
    out
}

} // verus!
