//! Structured diffing between two JSON documents (two saved states, or any
//! two documents), for comparing snapshots while debugging.
//!
//! Object members are compared by key, never by position. Arrays whose
//! elements are all objects with a string or number `id` (distinct across
//! the array) are matched by that id, so inserting or removing one element
//! does not shift every later one; other arrays are matched by position.
//! A document is held as a [`JsonValue`]; the host converts from its JSON
//! parser's values, and renders differences back to text.

use vstd::prelude::*;
use vstd::utf8::encode_utf8;
use crate::text::{decimal, decimal_string, str_eq};

verus! {

/// What a JSON number is, as the parser holds it: a non-negative integer, a
/// negative integer, or a finite float given by its IEEE-754 bits.
#[derive(Debug, Clone, Copy, PartialEq, Eq, Structural)]
pub enum NumberRepr {
    PosInt(u64),
    NegInt(i64),
    Float(u64),
}

/// A JSON document. A number keeps both what it is and the text it prints
/// as; an object keeps its members sorted by key, each key once.
#[derive(Debug, PartialEq)]
pub enum JsonValue {
    Null,
    Bool(bool),
    Number { repr: NumberRepr, text: String },
    Str(String),
    Array(Vec<JsonValue>),
    Object(Vec<JsonMember>),
}

/// One member of an object.
#[derive(Debug, PartialEq)]
pub struct JsonMember {
    pub key: String,
    pub value: JsonValue,
}

/// A document as a mathematical value.
pub enum JsonModel {
    Null,
    Bool(bool),
    Number { repr: NumberRepr, text: Seq<char> },
    Str(Seq<char>),
    Array(Seq<JsonModel>),
    Object(Seq<(Seq<char>, JsonModel)>),
}

/// The mathematical value of a document.
pub open spec fn model(v: JsonValue) -> JsonModel
    decreases v,
{
    match v {
        JsonValue::Null => JsonModel::Null,
        JsonValue::Bool(b) => JsonModel::Bool(b),
        JsonValue::Number { repr, text } => JsonModel::Number { repr, text: text@ },
        JsonValue::Str(s) => JsonModel::Str(s@),
        JsonValue::Array(xs) => JsonModel::Array(Seq::new(xs@.len(), |i: int|
            if 0 <= i < xs@.len() { model(xs@[i]) } else { JsonModel::Null })),
        JsonValue::Object(ms) => JsonModel::Object(Seq::new(ms@.len(), |i: int|
            if 0 <= i < ms@.len() { (ms@[i].key@, model(ms@[i].value)) } else { (Seq::empty(), JsonModel::Null) })),
    }
}

/// Number equality: integers by value, floats by value (so `0.0` equals
/// `-0.0`), and never an integer with a float.
pub open spec fn repr_eq(a: NumberRepr, b: NumberRepr) -> bool {
    match (a, b) {
        (NumberRepr::PosInt(x), NumberRepr::PosInt(y)) => x == y,
        (NumberRepr::NegInt(x), NumberRepr::NegInt(y)) => x == y,
        (NumberRepr::Float(x), NumberRepr::Float(y)) => x == y || (x & 0x7fff_ffff_ffff_ffffu64 == 0 && y & 0x7fff_ffff_ffff_ffffu64 == 0),
        _ => false,
    }
}

/// Equality of two documents as JSON values: same kind, equal scalars,
/// arrays equal position by position, objects with the same keys in the
/// same order and equal values.
pub open spec fn json_eq(a: JsonModel, b: JsonModel) -> bool
    decreases a,
{
    match (a, b) {
        (JsonModel::Null, JsonModel::Null) => true,
        (JsonModel::Bool(x), JsonModel::Bool(y)) => x == y,
        (JsonModel::Number { repr: x, .. }, JsonModel::Number { repr: y, .. }) => repr_eq(x, y),
        (JsonModel::Str(x), JsonModel::Str(y)) => x == y,
        (JsonModel::Array(xs), JsonModel::Array(ys)) => xs.len() == ys.len()
            && forall|i: int| 0 <= i < xs.len() ==> json_eq(#[trigger] xs[i], ys[i]),
        (JsonModel::Object(xs), JsonModel::Object(ys)) => xs.len() == ys.len()
            && forall|i: int| 0 <= i < xs.len() ==> xs[i].0 == ys[i].0 && json_eq(#[trigger] xs[i].1, ys[i].1),
        _ => false,
    }
}

/// Whether a document is held as its parser gives it: every object's
/// members in ascending key order, each key once, all the way down.
pub open spec fn well_formed_doc(v: JsonModel) -> bool
    decreases v,
{
    match v {
        JsonModel::Array(xs) => forall|i: int| 0 <= i < xs.len() ==> well_formed_doc(#[trigger] xs[i]),
        JsonModel::Object(ms) => (forall|i: int, j: int| 0 <= i < j < ms.len()
            ==> key_order(#[trigger] ms[i].0, #[trigger] ms[j].0) < 0)
            && forall|i: int| 0 <= i < ms.len() ==> well_formed_doc(#[trigger] ms[i].1),
        _ => true,
    }
}

/// Whether two documents are equal as JSON values.
pub fn json_equal(a: &JsonValue, b: &JsonValue) -> (r: bool)
    ensures
        r == json_eq(model(*a), model(*b)),
    decreases a,
{
    match (a, b) {
        (JsonValue::Null, JsonValue::Null) => true,
        (JsonValue::Bool(x), JsonValue::Bool(y)) => *x == *y,
        (JsonValue::Number { repr: x, .. }, JsonValue::Number { repr: y, .. }) => {
            match (x, y) {
                (NumberRepr::PosInt(p), NumberRepr::PosInt(q)) => *p == *q,
                (NumberRepr::NegInt(p), NumberRepr::NegInt(q)) => *p == *q,
                (NumberRepr::Float(p), NumberRepr::Float(q)) => *p == *q || ((*p & 0x7fff_ffff_ffff_ffffu64) == 0 && (*q & 0x7fff_ffff_ffff_ffffu64) == 0),
                _ => false,
            }
        },
        (JsonValue::Str(x), JsonValue::Str(y)) => x.eq(y),
        (JsonValue::Array(xs), JsonValue::Array(ys)) => {
            if xs.len() != ys.len() {
                return false;
            }
            let ghost mx = model(*a);
            let ghost my = model(*b);
            let mut i: usize = 0;
            while i < xs.len()
                invariant
                    xs@.len() == ys@.len(),
                    i <= xs@.len(),
                    *a == JsonValue::Array(*xs),
                    *b == JsonValue::Array(*ys),
                    forall|k: int| 0 <= k < i ==> json_eq(model(xs@[k]), model(ys@[k])),
                decreases xs@.len() - i,
            {
                if !json_equal(&xs[i], &ys[i]) {
                    assert(model(*a)->Array_0[i as int] == model(xs@[i as int]));
                    return false;
                }
                i += 1;
            }
            true
        },
        (JsonValue::Object(xs), JsonValue::Object(ys)) => {
            if xs.len() != ys.len() {
                return false;
            }
            let mut i: usize = 0;
            while i < xs.len()
                invariant
                    xs@.len() == ys@.len(),
                    i <= xs@.len(),
                    *a == JsonValue::Object(*xs),
                    *b == JsonValue::Object(*ys),
                    forall|k: int| 0 <= k < i ==> xs@[k].key@ == ys@[k].key@ && json_eq(model(xs@[k].value), model(ys@[k].value)),
                decreases xs@.len() - i,
            {
                if !xs[i].key.eq(&ys[i].key) || !json_equal(&xs[i].value, &ys[i].value) {
                    assert(model(*a)->Object_0[i as int] == (xs@[i as int].key@, model(xs@[i as int].value)));
                    assert(model(*a)->Object_0[i as int].1 == model(xs@[i as int].value));
                    return false;
                }
                i += 1;
            }
            true
        },
        _ => false,
    }
}


/// A difference as the model sees it: a path, and the value on each side
/// (`None` where the path exists on one side only).
pub type EntryModel = (Seq<char>, Option<JsonModel>, Option<JsonModel>);

/// A lowercase hexadecimal digit.
pub open spec fn hex_digit(d: int) -> char {
    if d < 10 { ((d + 48) as u8) as char } else { ((d + 87) as u8) as char }
}

/// How one character is written inside a JSON string: a quote, a backslash
/// and the short control escapes get a backslash, the other control
/// characters below U+0020 are written `\u00` and two lowercase hex
/// digits, and every other character is written as itself.
pub open spec fn escaped_char(c: char) -> Seq<char> {
    if c == '"' { seq!['\\', '"'] }
    else if c == '\\' { seq!['\\', '\\'] }
    else if c == '\u{8}' { seq!['\\', 'b'] }
    else if c == '\t' { seq!['\\', 't'] }
    else if c == '\n' { seq!['\\', 'n'] }
    else if c == '\u{c}' { seq!['\\', 'f'] }
    else if c == '\r' { seq!['\\', 'r'] }
    else if (c as u32) < 0x20 { seq!['\\', 'u', '0', '0', hex_digit((c as int) / 16), hex_digit((c as int) % 16)] }
    else { seq![c] }
}

/// The characters of a JSON string's contents, each escaped.
pub open spec fn escaped_text(s: Seq<char>) -> Seq<char>
    decreases s.len(),
{
    if s.len() == 0 { Seq::empty() } else { escaped_text(s.drop_last()) + escaped_char(s.last()) }
}

/// The JSON text serde_json prints for a string: quoted and escaped.
pub open spec fn json_string_text(s: Seq<char>) -> Seq<char> {
    seq!['"'] + escaped_text(s) + seq!['"']
}

/// `serde_json::Value::from(&str)` printed with `to_string`: the string's
/// JSON text, in double quotes, with [`escaped_char`] applied to each
/// character.
#[verifier::external_body]
fn string_json_text(s: &str) -> (t: String)
    ensures
        t@ == json_string_text(s@),
{
    serde_json::Value::from(s).to_string()
}

/// Lexicographic order on byte strings: negative, zero or positive.
pub open spec fn bytes_order(x: Seq<u8>, y: Seq<u8>) -> int
    decreases x.len(),
{
    if x.len() == 0 {
        if y.len() == 0 { 0 } else { -1 }
    } else if y.len() == 0 {
        1
    } else if x[0] < y[0] {
        -1
    } else if x[0] > y[0] {
        1
    } else {
        bytes_order(x.drop_first(), y.drop_first())
    }
}

/// The order of two keys as strings: by their UTF-8 bytes.
pub open spec fn key_order(a: Seq<char>, b: Seq<char>) -> int {
    bytes_order(encode_utf8(a), encode_utf8(b))
}

/// The path of an object member: the key alone at the top level, else the
/// parent path, a dot, and the key.
pub open spec fn member_path(path: Seq<char>, key: Seq<char>) -> Seq<char> {
    if path.len() == 0 { key } else { path + seq!['.'] + key }
}

/// The path of an array element matched by its id text.
pub open spec fn id_path(path: Seq<char>, id: Seq<char>) -> Seq<char> {
    path + seq!['[', 'i', 'd', '='] + id + seq![']']
}

/// The path of an array element matched by position.
pub open spec fn index_path(path: Seq<char>, i: nat) -> Seq<char> {
    path + seq!['['] + decimal(i) + seq![']']
}

/// The index of the first member of `ms` named `key`, searching from `k`.
pub open spec fn find_member(ms: Seq<(Seq<char>, JsonModel)>, key: Seq<char>, k: int) -> Option<int>
    decreases ms.len() - k,
{
    if k < 0 || k >= ms.len() {
        None
    } else if ms[k].0 == key {
        Some(k)
    } else {
        find_member(ms, key, k + 1)
    }
}

/// The id text of an array element: an object with an `id` member whose
/// value is a string (its quoted JSON text) or a number (its text).
pub open spec fn id_text(v: JsonModel) -> Option<Seq<char>> {
    match v {
        JsonModel::Object(ms) => match find_member(ms, seq!['i', 'd'], 0) {
            Some(k) => match ms[k].1 {
                JsonModel::Str(s) => Some(json_string_text(s)),
                JsonModel::Number { text, .. } => Some(text),
                _ => None,
            },
            None => None,
        },
        _ => None,
    }
}

/// Whether every element of `xs` has an id text.
pub open spec fn all_have_ids(xs: Seq<JsonModel>) -> bool {
    forall|i: int| 0 <= i < xs.len() ==> (#[trigger] id_text(xs[i])) is Some
}

/// The id texts of `xs`, in order.
pub open spec fn id_texts(xs: Seq<JsonModel>) -> Seq<Seq<char>> {
    Seq::new(xs.len(), |i: int| id_text(xs[i]).unwrap())
}

/// Whether no two keys are equal as strings.
pub open spec fn distinct_keys(keys: Seq<Seq<char>>) -> bool {
    forall|i: int, j: int| 0 <= i < j < keys.len() ==> key_order(#[trigger] keys[i], #[trigger] keys[j]) != 0
}

/// Where index `k` goes in `sorted`: before the first entry, from `p` on,
/// whose key orders after key `k`.
pub open spec fn insert_position(sorted: Seq<usize>, keys: Seq<Seq<char>>, k: int, p: int) -> int
    decreases sorted.len() - p,
{
    if p < 0 || p >= sorted.len() {
        sorted.len() as int
    } else if key_order(keys[sorted[p] as int], keys[k]) > 0 {
        p
    } else {
        insert_position(sorted, keys, k, p + 1)
    }
}

/// The indices `0..n` ordered by their keys (insertion order on ties).
pub open spec fn sorted_indices(keys: Seq<Seq<char>>, n: int) -> Seq<usize>
    decreases n,
{
    if n <= 0 {
        Seq::empty()
    } else {
        let s = sorted_indices(keys, n - 1);
        s.insert(insert_position(s, keys, n - 1, 0), (n - 1) as usize)
    }
}

/// An array's elements keyed by id, as indices sorted by id text: `None`
/// for an empty array, or one where some element has no id, or two ids are
/// equal.
pub open spec fn index_by_id(xs: Seq<JsonModel>) -> Option<Seq<usize>> {
    if xs.len() > 0 && all_have_ids(xs) && distinct_keys(id_texts(xs)) {
        Some(sorted_indices(id_texts(xs), xs.len() as int))
    } else {
        None
    }
}

/// The differences between two present values at `path`.
pub open spec fn visit(path: Seq<char>, a: JsonModel, b: JsonModel) -> Seq<EntryModel>
    decreases a, 0nat,
{
    if json_eq(a, b) {
        Seq::empty()
    } else {
        match (a, b) {
            (JsonModel::Object(am), JsonModel::Object(bm)) => merge_members(path, am, bm, 0, 0),
            (JsonModel::Array(xs), JsonModel::Array(ys)) => match (index_by_id(xs), index_by_id(ys)) {
                (Some(sa), Some(sb)) => merge_ids(path, xs, id_texts(xs), sa, ys, id_texts(ys), sb, 0, 0),
                _ => by_index(path, xs, ys, index_order(xs, ys), 0),
            },
            _ => seq![(path, Some(a), Some(b))],
        }
    }
}

/// The differences between two objects' members from positions `i` and
/// `j` on, walking both key-sorted member lists together.
pub open spec fn merge_members(
    path: Seq<char>,
    am: Seq<(Seq<char>, JsonModel)>,
    bm: Seq<(Seq<char>, JsonModel)>,
    i: int,
    j: int,
) -> Seq<EntryModel>
    decreases am, (am.len() - i) + (bm.len() - j),
{
    if i < 0 || j < 0 || i > am.len() || j > bm.len() || (i == am.len() && j == bm.len()) {
        Seq::empty()
    } else if i == am.len() || (j < bm.len() && key_order(am[i].0, bm[j].0) > 0) {
        seq![(member_path(path, bm[j].0), None, Some(bm[j].1))] + merge_members(path, am, bm, i, j + 1)
    } else if j == bm.len() || key_order(am[i].0, bm[j].0) < 0 {
        seq![(member_path(path, am[i].0), Some(am[i].1), None)] + merge_members(path, am, bm, i + 1, j)
    } else {
        visit(member_path(path, am[i].0), am[i].1, bm[j].1) + merge_members(path, am, bm, i + 1, j + 1)
    }
}

/// The differences between two id-keyed arrays from sorted positions `i`
/// and `j` on, walking both id-sorted index lists together.
pub open spec fn merge_ids(
    path: Seq<char>,
    xs: Seq<JsonModel>,
    ka: Seq<Seq<char>>,
    sa: Seq<usize>,
    ys: Seq<JsonModel>,
    kb: Seq<Seq<char>>,
    sb: Seq<usize>,
    i: int,
    j: int,
) -> Seq<EntryModel>
    decreases xs, (sa.len() - i) + (sb.len() - j),
{
    if i < 0 || j < 0 || i > sa.len() || j > sb.len() || (i == sa.len() && j == sb.len()) {
        Seq::empty()
    } else if i == sa.len() || (j < sb.len() && key_order(ka[sa[i] as int], kb[sb[j] as int]) > 0) {
        seq![(id_path(path, kb[sb[j] as int]), None, Some(ys[sb[j] as int]))]
            + merge_ids(path, xs, ka, sa, ys, kb, sb, i, j + 1)
    } else if j == sb.len() || key_order(ka[sa[i] as int], kb[sb[j] as int]) < 0 {
        seq![(id_path(path, ka[sa[i] as int]), Some(xs[sa[i] as int]), None)]
            + merge_ids(path, xs, ka, sa, ys, kb, sb, i + 1, j)
    } else if sa[i] < xs.len() {
        visit(id_path(path, ka[sa[i] as int]), xs[sa[i] as int], ys[sb[j] as int])
            + merge_ids(path, xs, ka, sa, ys, kb, sb, i + 1, j + 1)
    } else {
        Seq::empty()
    }
}

/// The decimal texts of the positions `0..n`.
pub open spec fn index_texts(n: int) -> Seq<Seq<char>> {
    Seq::new(n as nat, |i: int| decimal(i as nat))
}

/// The length of the longer of two arrays.
pub open spec fn longer(xs: Seq<JsonModel>, ys: Seq<JsonModel>) -> int {
    if xs.len() >= ys.len() { xs.len() as int } else { ys.len() as int }
}

/// The positions of two arrays matched by position, ordered by the text of
/// their paths: by their decimal digits as strings, so `[10]` comes before
/// `[2]`.
pub open spec fn index_order(xs: Seq<JsonModel>, ys: Seq<JsonModel>) -> Seq<usize> {
    sorted_indices(index_texts(longer(xs, ys)), longer(xs, ys))
}

/// The differences between two arrays matched by position, for the
/// positions `order[p..]`.
pub open spec fn by_index(path: Seq<char>, xs: Seq<JsonModel>, ys: Seq<JsonModel>, order: Seq<usize>, p: int) -> Seq<EntryModel>
    decreases xs, order.len() - p,
{
    if p < 0 || p >= order.len() {
        Seq::empty()
    } else {
        let i = order[p] as int;
        if i >= xs.len() && i >= ys.len() {
            by_index(path, xs, ys, order, p + 1)
        } else if i >= xs.len() {
            seq![(index_path(path, i as nat), None, Some(ys[i]))] + by_index(path, xs, ys, order, p + 1)
        } else if i >= ys.len() {
            seq![(index_path(path, i as nat), Some(xs[i]), None)] + by_index(path, xs, ys, order, p + 1)
        } else {
            visit(index_path(path, i as nat), xs[i], ys[i]) + by_index(path, xs, ys, order, p + 1)
        }
    }
}


/// The models of a sequence of values.
pub open spec fn models(xs: Seq<JsonValue>) -> Seq<JsonModel> {
    Seq::new(xs.len(), |i: int| model(xs[i]))
}

/// The models of a sequence of members.
pub open spec fn member_models(ms: Seq<JsonMember>) -> Seq<(Seq<char>, JsonModel)> {
    Seq::new(ms.len(), |i: int| (ms[i].key@, model(ms[i].value)))
}

proof fn lemma_model_containers(v: JsonValue)
    ensures
        v matches JsonValue::Array(xs) ==> model(v) == JsonModel::Array(models(xs@)),
        v matches JsonValue::Object(ms) ==> model(v) == JsonModel::Object(member_models(ms@)),
{
    match v {
        JsonValue::Array(xs) => {
            assert(model(v)->Array_0 =~= models(xs@));
        },
        JsonValue::Object(ms) => {
            assert(model(v)->Object_0 =~= member_models(ms@));
        },
        _ => {},
    }
}

/// The order of two strings by their UTF-8 bytes: -1, 0 or 1.
pub fn compare_keys(a: &str, b: &str) -> (r: i8)
    ensures
        r as int == key_order(a@, b@),
{
    let x = a.as_bytes();
    let y = b.as_bytes();
    let ghost xb = encode_utf8(a@);
    let ghost yb = encode_utf8(b@);
    let mut k: usize = 0;
    assert(xb.skip(0) =~= xb);
    assert(yb.skip(0) =~= yb);
    while k < x.len() && k < y.len()
        invariant
            x@ == xb,
            y@ == yb,
            xb == encode_utf8(a@),
            yb == encode_utf8(b@),
            k <= xb.len(),
            k <= yb.len(),
            bytes_order(xb, yb) == bytes_order(xb.skip(k as int), yb.skip(k as int)),
        decreases xb.len() - k,
    {
        assert(xb.skip(k as int)[0] == xb[k as int]);
        assert(yb.skip(k as int)[0] == yb[k as int]);
        if x[k] < y[k] {
            assert(bytes_order(xb.skip(k as int), yb.skip(k as int)) == -1);
            return -1;
        }
        if x[k] > y[k] {
            assert(bytes_order(xb.skip(k as int), yb.skip(k as int)) == 1);
            return 1;
        }
        assert(xb.skip(k as int).drop_first() =~= xb.skip(k as int + 1));
        assert(yb.skip(k as int).drop_first() =~= yb.skip(k as int + 1));
        k += 1;
    }
    if x.len() == k && y.len() == k {
        0
    } else if x.len() == k {
        -1
    } else {
        1
    }
}

/// A deep copy of a value.
pub fn copy_json(v: &JsonValue) -> (r: JsonValue)
    ensures
        model(r) == model(*v),
    decreases v,
{
    proof {
        lemma_model_containers(*v);
    }
    match v {
        JsonValue::Null => JsonValue::Null,
        JsonValue::Bool(b) => JsonValue::Bool(*b),
        JsonValue::Number { repr, text } => JsonValue::Number { repr: *repr, text: text.clone() },
        JsonValue::Str(s) => JsonValue::Str(s.clone()),
        JsonValue::Array(xs) => {
            let mut out: Vec<JsonValue> = Vec::new();
            let mut i: usize = 0;
            while i < xs.len()
                invariant
                    *v == JsonValue::Array(*xs),
                    i <= xs@.len(),
                    out@.len() == i,
                    forall|k: int| 0 <= k < i ==> model(#[trigger] out@[k]) == model(xs@[k]),
                decreases xs@.len() - i,
            {
                assert(decreases_to!(*v => v->Array_0));
                assert(decreases_to!(v->Array_0 => xs@));
                assert(decreases_to!(xs@ => xs@[i as int]));
                let c = copy_json(&xs[i]);
                out.push(c);
                i += 1;
            }
            let r = JsonValue::Array(out);
            proof {
                lemma_model_containers(r);
                assert(models(out@) =~= models(xs@));
            }
            r
        },
        JsonValue::Object(ms) => {
            let mut out: Vec<JsonMember> = Vec::new();
            let mut i: usize = 0;
            while i < ms.len()
                invariant
                    *v == JsonValue::Object(*ms),
                    i <= ms@.len(),
                    out@.len() == i,
                    forall|k: int| 0 <= k < i ==> (#[trigger] out@[k]).key@ == ms@[k].key@ && model(out@[k].value) == model(ms@[k].value),
                decreases ms@.len() - i,
            {
                assert(decreases_to!(*v => v->Object_0));
                assert(decreases_to!(v->Object_0 => ms@));
                assert(decreases_to!(ms@ => ms@[i as int]));
                assert(decreases_to!(ms@[i as int] => ms@[i as int].value));
                let c = copy_json(&ms[i].value);
                out.push(JsonMember { key: ms[i].key.clone(), value: c });
                i += 1;
            }
            let r = JsonValue::Object(out);
            proof {
                lemma_model_containers(r);
                assert(member_models(out@) =~= member_models(ms@));
            }
            r
        },
    }
}


/// The views of a sequence of strings.
pub open spec fn texts(v: Seq<String>) -> Seq<Seq<char>> {
    Seq::new(v.len(), |i: int| v[i]@)
}

/// The id text of an array element, if it has one.
fn element_id_text(v: &JsonValue) -> (r: Option<String>)
    ensures
        r matches Some(t) ==> id_text(model(*v)) == Some(t@),
        r is None ==> id_text(model(*v)) is None,
{
    proof {
        lemma_model_containers(*v);
    }
    match v {
        JsonValue::Object(ms) => {
            let ghost mm = member_models(ms@);
            let ghost key = seq!['i', 'd'];
            proof {
                reveal_strlit("id");
            }
            let mut k: usize = 0;
            while k < ms.len()
                invariant
                    k <= ms@.len(),
                    mm == member_models(ms@),
                    key == seq!['i', 'd'],
                    "id"@ == key,
                    *v == JsonValue::Object(*ms),
                    model(*v) == JsonModel::Object(mm),
                    find_member(mm, key, 0) == find_member(mm, key, k as int),
                decreases ms@.len() - k,
            {
                assert(mm[k as int] == (ms@[k as int].key@, model(ms@[k as int].value)));
                if str_eq(ms[k].key.as_str(), "id") {
                    proof {
                        lemma_model_containers(ms@[k as int].value);
                    }
                    return match &ms[k].value {
                        JsonValue::Str(s) => Some(string_json_text(s.as_str())),
                        JsonValue::Number { text, .. } => Some(text.clone()),
                        _ => None,
                    };
                }
                k += 1;
            }
            None
        },
        _ => None,
    }
}

/// The indices of `keys` ordered by their texts (earlier index first on a
/// tie).
fn sort_by_text(keys: &Vec<String>) -> (order: Vec<usize>)
    ensures
        order@ == sorted_indices(texts(keys@), keys@.len() as int),
        forall|q: int| 0 <= q < order@.len() ==> #[trigger] order@[q] < keys@.len(),
{
    let ghost kt = texts(keys@);
    let n = keys.len();
    let mut order: Vec<usize> = Vec::new();
    let mut k: usize = 0;
    while k < n
        invariant
            n == keys@.len(),
            kt == texts(keys@),
            k <= n,
            order@ == sorted_indices(kt, k as int),
            order@.len() == k,
            forall|q: int| 0 <= q < order@.len() ==> #[trigger] order@[q] < k,
        decreases n - k,
    {
        let mut p: usize = 0;
        while p < order.len()
            invariant
                n == keys@.len(),
                kt == texts(keys@),
                k < n,
                order@.len() == k,
                forall|q: int| 0 <= q < order@.len() ==> #[trigger] order@[q] < k,
                p <= order@.len(),
                insert_position(order@, kt, k as int, 0) == insert_position(order@, kt, k as int, p as int),
            ensures
                p <= order@.len(),
                insert_position(order@, kt, k as int, 0) == p,
            decreases order@.len() - p,
        {
            let other = order[p];
            assert(other < k);
            if compare_keys(keys[other].as_str(), keys[k].as_str()) > 0 {
                break;
            }
            p += 1;
        }
        let ghost before = order@;
        order.insert(p, k);
        assert(order@ == sorted_indices(kt, k as int + 1));
        assert forall|q: int| 0 <= q < order@.len() implies #[trigger] order@[q] < k + 1 by {
            if q < p {
                assert(order@[q] == before[q]);
            } else if q > p {
                assert(order@[q] == before[q - 1]);
            }
        }
        k += 1;
    }
    order
}

/// The decimal texts of the positions `0..n`.
fn index_keys(n: usize) -> (keys: Vec<String>)
    ensures
        texts(keys@) == index_texts(n as int),
{
    let mut keys: Vec<String> = Vec::new();
    let mut i: usize = 0;
    while i < n
        invariant
            i <= n,
            keys@.len() == i,
            forall|k: int| 0 <= k < i ==> (#[trigger] keys@[k])@ == decimal(k as nat),
        decreases n - i,
    {
        keys.push(decimal_string(i as u64));
        i += 1;
    }
    assert(texts(keys@) =~= index_texts(n as int));
    keys
}

/// The elements' id texts and their indices sorted by id, exactly when the
/// array can be matched by id.
fn ids_in_order(xs: &Vec<JsonValue>) -> (r: Option<(Vec<String>, Vec<usize>)>)
    ensures
        r matches Some((keys, order)) ==> index_by_id(models(xs@)) == Some(order@)
            && texts(keys@) == id_texts(models(xs@))
            && forall|q: int| 0 <= q < order@.len() ==> #[trigger] order@[q] < xs@.len(),
        r is None ==> index_by_id(models(xs@)) is None,
{
    let ghost ms = models(xs@);
    if xs.len() == 0 {
        return None;
    }
    let mut keys: Vec<String> = Vec::new();
    let mut i: usize = 0;
    while i < xs.len()
        invariant
            ms == models(xs@),
            i <= xs@.len(),
            keys@.len() == i,
            forall|k: int| 0 <= k < i ==> (#[trigger] id_text(ms[k])) == Some(keys@[k]@),
        decreases xs@.len() - i,
    {
        match element_id_text(&xs[i]) {
            Some(t) => {
                keys.push(t);
            },
            None => {
                assert(id_text(ms[i as int]) is None);
                return None;
            },
        }
        i += 1;
    }
    assert(all_have_ids(ms));
    let ghost kt = texts(keys@);
    assert(kt =~= id_texts(ms));
    let n = keys.len();
    let mut a: usize = 0;
    while a < n
        invariant
            n == keys@.len(),
            kt == texts(keys@),
            ms == models(xs@),
            kt == id_texts(ms),
            all_have_ids(ms),
            a <= n,
            forall|p: int, q: int| 0 <= p < a && p < q < n ==> key_order(#[trigger] kt[p], #[trigger] kt[q]) != 0,
        decreases n - a,
    {
        let mut b: usize = a + 1;
        while b < n
            invariant
                n == keys@.len(),
                kt == texts(keys@),
                ms == models(xs@),
                kt == id_texts(ms),
                all_have_ids(ms),
                a < n,
                a + 1 <= b <= n,
                forall|p: int, q: int| 0 <= p < a && p < q < n ==> key_order(#[trigger] kt[p], #[trigger] kt[q]) != 0,
                forall|q: int| a < q < b ==> key_order(kt[a as int], #[trigger] kt[q]) != 0,
            decreases n - b,
        {
            if compare_keys(keys[a].as_str(), keys[b].as_str()) == 0 {
                assert(key_order(kt[a as int], kt[b as int]) == 0);
                assert(!distinct_keys(kt));
                return None;
            }
            b += 1;
        }
        a += 1;
    }
    assert(distinct_keys(kt));
    let order = sort_by_text(&keys);
    proof {
        lemma_sorted_indices_in_range(kt, n as int);
    }
    Some((keys, order))
}


/// One leaf-level difference between two documents: where, and the value
/// on each side (`None` on the side where the path does not exist).
#[derive(Debug, PartialEq)]
pub struct DiffEntry {
    pub path: String,
    pub before: Option<JsonValue>,
    pub after: Option<JsonValue>,
}

/// The model of a side of a difference.
pub open spec fn option_model(o: Option<JsonValue>) -> Option<JsonModel> {
    match o {
        Some(v) => Some(model(v)),
        None => None,
    }
}

/// The model of a difference.
pub open spec fn entry_model(e: DiffEntry) -> EntryModel {
    (e.path@, option_model(e.before), option_model(e.after))
}

/// The models of a list of differences.
pub open spec fn entries(s: Seq<DiffEntry>) -> Seq<EntryModel> {
    Seq::new(s.len(), |i: int| entry_model(s[i]))
}

proof fn lemma_entries_push(s: Seq<DiffEntry>, e: DiffEntry)
    ensures
        entries(s.push(e)) == entries(s).push(entry_model(e)),
{
    assert(entries(s.push(e)) =~= entries(s).push(entry_model(e)));
}

fn push_entry(out: &mut Vec<DiffEntry>, path: String, before: Option<JsonValue>, after: Option<JsonValue>)
    ensures
        entries(final(out)@) == entries(old(out)@) + seq![(path@, option_model(before), option_model(after))],
{
    let ghost old_out = out@;
    let e = DiffEntry { path, before, after };
    proof {
        lemma_entries_push(old_out, e);
    }
    out.push(e);
    assert(entries(old_out).push(entry_model(e)) =~= entries(old_out) + seq![entry_model(e)]);
}

fn member_path_of(path: &str, key: &str) -> (p: String)
    ensures
        p@ == member_path(path@, key@),
{
    if path.is_empty() {
        String::from_str(key)
    } else {
        let mut p = String::from_str(path);
        p.append(".");
        p.append(key);
        proof {
            reveal_strlit(".");
        }
        p
    }
}

fn id_path_of(path: &str, id: &str) -> (p: String)
    ensures
        p@ == id_path(path@, id@),
{
    let mut p = String::from_str(path);
    p.append("[id=");
    p.append(id);
    p.append("]");
    proof {
        reveal_strlit("[id=");
        reveal_strlit("]");
    }
    p
}

fn index_path_of(path: &str, i: usize) -> (p: String)
    ensures
        p@ == index_path(path@, i as nat),
{
    let digits = decimal_string(i as u64);
    let mut p = String::from_str(path);
    p.append("[");
    p.append(digits.as_str());
    p.append("]");
    proof {
        reveal_strlit("[");
        reveal_strlit("]");
    }
    p
}


/// Appends the differences between two present values at `path`.
fn visit_values(path: &str, a: &JsonValue, b: &JsonValue, out: &mut Vec<DiffEntry>)
    ensures
        entries(final(out)@) == entries(old(out)@) + visit(path@, model(*a), model(*b)),
    decreases a,
{
    proof {
        lemma_model_containers(*a);
        lemma_model_containers(*b);
    }
    let ghost start = entries(out@);
    if json_equal(a, b) {
        assert(start + Seq::<EntryModel>::empty() =~= start);
        return;
    }
    match (a, b) {
        (JsonValue::Object(am), JsonValue::Object(bm)) => {
            let ghost amm = member_models(am@);
            let ghost bmm = member_models(bm@);
            let ghost total = merge_members(path@, amm, bmm, 0, 0);
            assert(visit(path@, model(*a), model(*b)) == total);
            let mut i: usize = 0;
            let mut j: usize = 0;
            assert(entries(out@) + total =~= start + total);
            while i < am.len() || j < bm.len()
                invariant
                    *a == JsonValue::Object(*am),
                    amm == member_models(am@),
                    bmm == member_models(bm@),
                    i <= am@.len(),
                    j <= bm@.len(),
                    entries(out@) + merge_members(path@, amm, bmm, i as int, j as int) == start + total,
                decreases am@.len() - i + bm@.len() - j,
            {
                let ghost before = entries(out@);
                let ghost rest = merge_members(path@, amm, bmm, i as int, j as int);
                let order: i8 = if i < am.len() && j < bm.len() {
                    compare_keys(am[i].key.as_str(), bm[j].key.as_str())
                } else {
                    0
                };
                if i < am.len() {
                    assert(amm[i as int] == (am@[i as int].key@, model(am@[i as int].value)));
                }
                if j < bm.len() {
                    assert(bmm[j as int] == (bm@[j as int].key@, model(bm@[j as int].value)));
                }
                if i == am.len() || (j < bm.len() && order > 0) {
                    let p = member_path_of(path, bm[j].key.as_str());
                    let v = copy_json(&bm[j].value);
                    push_entry(out, p, None, Some(v));
                    j += 1;
                    assert(before + seq![(member_path(path@, bmm[j - 1].0), None::<JsonModel>, Some(bmm[j - 1].1))]
                        + merge_members(path@, amm, bmm, i as int, j as int) =~= before + rest);
                } else if j == bm.len() || order < 0 {
                    let p = member_path_of(path, am[i].key.as_str());
                    let v = copy_json(&am[i].value);
                    push_entry(out, p, Some(v), None);
                    i += 1;
                    assert(before + seq![(member_path(path@, amm[i - 1].0), Some(amm[i - 1].1), None::<JsonModel>)]
                        + merge_members(path@, amm, bmm, i as int, j as int) =~= before + rest);
                } else {
                    let p = member_path_of(path, am[i].key.as_str());
                    assert(decreases_to!(*a => a->Object_0));
                    assert(decreases_to!(a->Object_0 => am@));
                    assert(decreases_to!(am@ => am@[i as int]));
                    assert(decreases_to!(am@[i as int] => am@[i as int].value));
                    let ghost child = visit(p@, amm[i as int].1, bmm[j as int].1);
                    visit_values(p.as_str(), &am[i].value, &bm[j].value, out);
                    i += 1;
                    j += 1;
                    assert(before + child + merge_members(path@, amm, bmm, i as int, j as int) =~= before + rest);
                }
            }
            assert(entries(out@) + Seq::<EntryModel>::empty() =~= entries(out@));
        },
        (JsonValue::Array(xs), JsonValue::Array(ys)) => {
            let ghost xm = models(xs@);
            let ghost ym = models(ys@);
            let ia = ids_in_order(xs);
            let ib = ids_in_order(ys);
            match (ia, ib) {
                (Some((ka, sa)), Some((kb, sb))) => {
                    let ghost kam = id_texts(xm);
                    let ghost kbm = id_texts(ym);
                    let ghost total = merge_ids(path@, xm, kam, sa@, ym, kbm, sb@, 0, 0);
                    assert(visit(path@, model(*a), model(*b)) == total);
                    let mut i: usize = 0;
                    let mut j: usize = 0;
                    assert(entries(out@) + total =~= start + total);
                    while i < sa.len() || j < sb.len()
                        invariant
                            *a == JsonValue::Array(*xs),
                            xm == models(xs@),
                            ym == models(ys@),
                            kam == texts(ka@),
                            kbm == texts(kb@),
                            kam.len() == xs@.len(),
                            kbm.len() == ys@.len(),
                            forall|q: int| 0 <= q < sa@.len() ==> #[trigger] sa@[q] < xs@.len(),
                            forall|q: int| 0 <= q < sb@.len() ==> #[trigger] sb@[q] < ys@.len(),
                            i <= sa@.len(),
                            j <= sb@.len(),
                            entries(out@) + merge_ids(path@, xm, kam, sa@, ym, kbm, sb@, i as int, j as int) == start + total,
                        decreases sa@.len() - i + sb@.len() - j,
                    {
                        let ghost before = entries(out@);
                        let ghost rest = merge_ids(path@, xm, kam, sa@, ym, kbm, sb@, i as int, j as int);
                        let order: i8 = if i < sa.len() && j < sb.len() {
                            let x = sa[i];
                            let y = sb[j];
                            compare_keys(ka[x].as_str(), kb[y].as_str())
                        } else {
                            0
                        };
                        if i == sa.len() || (j < sb.len() && order > 0) {
                            let y = sb[j];
                            let p = id_path_of(path, kb[y].as_str());
                            let v = copy_json(&ys[y]);
                            push_entry(out, p, None, Some(v));
                            j += 1;
                            assert(before + seq![(id_path(path@, kbm[y as int]), None::<JsonModel>, Some(ym[y as int]))]
                                + merge_ids(path@, xm, kam, sa@, ym, kbm, sb@, i as int, j as int) =~= before + rest);
                        } else if j == sb.len() || order < 0 {
                            let x = sa[i];
                            let p = id_path_of(path, ka[x].as_str());
                            let v = copy_json(&xs[x]);
                            push_entry(out, p, Some(v), None);
                            i += 1;
                            assert(before + seq![(id_path(path@, kam[x as int]), Some(xm[x as int]), None::<JsonModel>)]
                                + merge_ids(path@, xm, kam, sa@, ym, kbm, sb@, i as int, j as int) =~= before + rest);
                        } else {
                            let x = sa[i];
                            let y = sb[j];
                            let p = id_path_of(path, ka[x].as_str());
                            assert(decreases_to!(*a => a->Array_0));
                            assert(decreases_to!(a->Array_0 => xs@));
                            assert(decreases_to!(xs@ => xs@[x as int]));
                            let ghost child = visit(p@, xm[x as int], ym[y as int]);
                            visit_values(p.as_str(), &xs[x], &ys[y], out);
                            i += 1;
                            j += 1;
                            assert(before + child + merge_ids(path@, xm, kam, sa@, ym, kbm, sb@, i as int, j as int)
                                =~= before + rest);
                        }
                    }
                    assert(entries(out@) + Seq::<EntryModel>::empty() =~= entries(out@));
                },
                _ => {
                    let n: usize = if xs.len() >= ys.len() { xs.len() } else { ys.len() };
                    let keys = index_keys(n);
                    let order = sort_by_text(&keys);
                    let ghost ord = index_order(xm, ym);
                    assert(xm.len() == xs@.len() && ym.len() == ys@.len());
                    assert(n as int == longer(xm, ym));
                    assert(keys@.len() == texts(keys@).len());
                    assert(keys@.len() == n);
                    proof {
                        lemma_sorted_indices_in_range(texts(keys@), n as int);
                    }
                    assert(order@ == ord);
                    let ghost total = by_index(path@, xm, ym, ord, 0);
                    assert(visit(path@, model(*a), model(*b)) == total);
                    let mut q: usize = 0;
                    assert(entries(out@) + total =~= start + total);
                    while q < order.len()
                        invariant
                            *a == JsonValue::Array(*xs),
                            xm == models(xs@),
                            ym == models(ys@),
                            order@ == ord,
                            n == longer(xm, ym),
                            order@.len() == keys@.len(),
                            keys@.len() == n,
                            forall|k: int| 0 <= k < order@.len() ==> #[trigger] order@[k] < n,
                            q <= order@.len(),
                            entries(out@) + by_index(path@, xm, ym, ord, q as int) == start + total,
                        decreases order@.len() - q,
                    {
                        let ghost before = entries(out@);
                        let ghost rest = by_index(path@, xm, ym, ord, q as int);
                        let i = order[q];
                        assert(i < n);
                        let p = index_path_of(path, i);
                        if i >= xs.len() {
                            let v = copy_json(&ys[i]);
                            push_entry(out, p, None, Some(v));
                        } else if i >= ys.len() {
                            let v = copy_json(&xs[i]);
                            push_entry(out, p, Some(v), None);
                        } else {
                            assert(decreases_to!(*a => a->Array_0));
                            assert(decreases_to!(a->Array_0 => xs@));
                            assert(decreases_to!(xs@ => xs@[i as int]));
                            visit_values(p.as_str(), &xs[i], &ys[i], out);
                        }
                        q += 1;
                        assert(entries(out@) + by_index(path@, xm, ym, ord, q as int) =~= before + rest);
                    }
                    assert(entries(out@) + Seq::<EntryModel>::empty() =~= entries(out@));
                },
            }
        },
        _ => {
            let p = String::from_str(path);
            let va = copy_json(a);
            let vb = copy_json(b);
            push_entry(out, p, Some(va), Some(vb));
        },
    }
}

proof fn lemma_ill_formed_element(xs: Seq<JsonModel>, i: int)
    requires
        0 <= i < xs.len(),
        !well_formed_doc(xs[i]),
    ensures
        !well_formed_doc(JsonModel::Array(xs)),
{
    let v = JsonModel::Array(xs);
    assert(v->Array_0 == xs);
    assert(well_formed_doc(v) ==> well_formed_doc(xs[i]));
}

proof fn lemma_ill_formed_member(ms: Seq<(Seq<char>, JsonModel)>, i: int)
    requires
        0 <= i < ms.len(),
        !well_formed_doc(ms[i].1),
    ensures
        !well_formed_doc(JsonModel::Object(ms)),
{
    let v = JsonModel::Object(ms);
    assert(v->Object_0 == ms);
    assert(well_formed_doc(v) ==> well_formed_doc(ms[i].1));
}

proof fn lemma_keys_out_of_order(ms: Seq<(Seq<char>, JsonModel)>, i: int, j: int)
    requires
        0 <= i < j < ms.len(),
        key_order(ms[i].0, ms[j].0) >= 0,
    ensures
        !well_formed_doc(JsonModel::Object(ms)),
{
    let v = JsonModel::Object(ms);
    assert(v->Object_0 == ms);
    assert(well_formed_doc(v) ==> key_order(ms[i].0, ms[j].0) < 0);
}

/// Whether a document is well formed: object members in ascending key
/// order, each key once, at every level.
pub fn well_formed_json(v: &JsonValue) -> (r: bool)
    ensures
        r == well_formed_doc(model(*v)),
    decreases v,
{
    proof {
        lemma_model_containers(*v);
    }
    match v {
        JsonValue::Array(xs) => {
            let ghost xm = models(xs@);
            let mut i: usize = 0;
            while i < xs.len()
                invariant
                    *v == JsonValue::Array(*xs),
                    xm == models(xs@),
                    model(*v) == JsonModel::Array(xm),
                    i <= xs@.len(),
                    forall|k: int| 0 <= k < i ==> well_formed_doc(#[trigger] xm[k]),
                decreases xs@.len() - i,
            {
                assert(decreases_to!(*v => v->Array_0));
                assert(decreases_to!(v->Array_0 => xs@));
                assert(decreases_to!(xs@ => xs@[i as int]));
                if !well_formed_json(&xs[i]) {
                    assert(!well_formed_doc(xm[i as int]));
                    proof { lemma_ill_formed_element(xm, i as int); }
                    return false;
                }
                i += 1;
            }
            true
        },
        JsonValue::Object(ms) => {
            let ghost mm = member_models(ms@);
            let n = ms.len();
            let mut a: usize = 0;
            while a < n
                invariant
                    *v == JsonValue::Object(*ms),
                    mm == member_models(ms@),
                    model(*v) == JsonModel::Object(mm),
                    n == ms@.len(),
                    a <= n,
                    forall|p: int, q: int| 0 <= p < a && p < q < n ==> key_order(#[trigger] mm[p].0, #[trigger] mm[q].0) < 0,
                    forall|k: int| 0 <= k < a ==> well_formed_doc(#[trigger] mm[k].1),
                decreases n - a,
            {
                assert(mm[a as int] == (ms@[a as int].key@, model(ms@[a as int].value)));
                assert(decreases_to!(*v => v->Object_0));
                assert(decreases_to!(v->Object_0 => ms@));
                assert(decreases_to!(ms@ => ms@[a as int]));
                assert(decreases_to!(ms@[a as int] => ms@[a as int].value));
                if !well_formed_json(&ms[a].value) {
                    assert(!well_formed_doc(mm[a as int].1));
                    proof { lemma_ill_formed_member(mm, a as int); }
                    return false;
                }
                let mut b: usize = a + 1;
                while b < n
                    invariant
                        mm == member_models(ms@),
                        model(*v) == JsonModel::Object(mm),
                        n == ms@.len(),
                        a < n,
                        a + 1 <= b <= n,
                        forall|q: int| a < q < b ==> key_order(mm[a as int].0, #[trigger] mm[q].0) < 0,
                    decreases n - b,
                {
                    assert(mm[a as int].0 == ms@[a as int].key@);
                    assert(mm[b as int].0 == ms@[b as int].key@);
                    if compare_keys(ms[a].key.as_str(), ms[b].key.as_str()) >= 0 {
                        assert(key_order(mm[a as int].0, mm[b as int].0) >= 0);
                        proof { lemma_keys_out_of_order(mm, a as int, b as int); }
                        return false;
                    }
                    b += 1;
                }
                a += 1;
            }
            true
        },
        _ => true,
    }
}

/// Every leaf-level difference between two documents, in a deterministic
/// order: object members by key, id-matched array elements by id text,
/// other array elements by the text of their position (`[10]` before
/// `[2]`), so entries follow their paths. Both documents must be well
/// formed (see [`well_formed_json`]), as a parser's documents are.
pub fn diff_json(a: &JsonValue, b: &JsonValue) -> (d: Vec<DiffEntry>)
    requires
        well_formed_doc(model(*a)),
        well_formed_doc(model(*b)),
    ensures
        entries(d@) == visit(Seq::empty(), model(*a), model(*b)),
{
    let mut out: Vec<DiffEntry> = Vec::new();
    proof {
        reveal_strlit("");
    }
    assert(entries(out@) =~= Seq::<EntryModel>::empty());
    visit_values("", a, b, &mut out);
    assert(""@ =~= Seq::<char>::empty());
    assert(Seq::<EntryModel>::empty() + visit(""@, model(*a), model(*b)) =~= visit(Seq::empty(), model(*a), model(*b)));
    out
}


proof fn lemma_json_eq_reflexive(a: JsonModel)
    ensures
        json_eq(a, a),
    decreases a,
{
    match a {
        JsonModel::Array(xs) => {
            assert forall|i: int| 0 <= i < xs.len() implies json_eq(#[trigger] xs[i], xs[i]) by {
                lemma_json_eq_reflexive(xs[i]);
            }
        },
        JsonModel::Object(ms) => {
            assert forall|i: int| 0 <= i < ms.len() implies ms[i].0 == ms[i].0 && json_eq(#[trigger] ms[i].1, ms[i].1) by {
                lemma_json_eq_reflexive(ms[i].1);
            }
        },
        _ => {},
    }
}

/// Diffing a document against itself reports no difference, wherever it
/// is rooted.
pub proof fn lemma_identical_documents_have_no_differences(path: Seq<char>, a: JsonModel)
    ensures
        visit(path, a, a) == Seq::<EntryModel>::empty(),
{
    lemma_json_eq_reflexive(a);
}



/// Each difference with its two sides exchanged.
pub open spec fn swap_sides(s: Seq<EntryModel>) -> Seq<EntryModel> {
    s.map_values(|e: EntryModel| (e.0, e.2, e.1))
}

proof fn lemma_swap_concat(x: Seq<EntryModel>, y: Seq<EntryModel>)
    ensures
        swap_sides(x + y) == swap_sides(x) + swap_sides(y),
{
    assert(swap_sides(x + y) =~= swap_sides(x) + swap_sides(y));
}

proof fn lemma_bytes_order_antisymmetric(x: Seq<u8>, y: Seq<u8>)
    ensures
        bytes_order(x, y) == -bytes_order(y, x),
        bytes_order(x, y) == 0 ==> x == y,
    decreases x.len(),
{
    if x.len() > 0 && y.len() > 0 && x[0] == y[0] {
        lemma_bytes_order_antisymmetric(x.drop_first(), y.drop_first());
        if bytes_order(x, y) == 0 {
            assert(x =~= seq![x[0]] + x.drop_first());
            assert(y =~= seq![y[0]] + y.drop_first());
        }
    }
}

proof fn lemma_key_order_antisymmetric(a: Seq<char>, b: Seq<char>)
    ensures
        key_order(a, b) == -key_order(b, a),
        key_order(a, b) == 0 ==> a == b,
{
    lemma_bytes_order_antisymmetric(encode_utf8(a), encode_utf8(b));
    if key_order(a, b) == 0 {
        vstd::utf8::encode_utf8_decode_utf8(a);
        vstd::utf8::encode_utf8_decode_utf8(b);
    }
}

proof fn lemma_json_eq_flips(a: JsonModel, b: JsonModel)
    requires
        json_eq(a, b),
    ensures
        json_eq(b, a),
    decreases a,
{
    match (a, b) {
        (JsonModel::Array(xs), JsonModel::Array(ys)) => {
            assert forall|i: int| 0 <= i < ys.len() implies json_eq(#[trigger] ys[i], xs[i]) by {
                assert(json_eq(xs[i], ys[i]));
                lemma_json_eq_flips(xs[i], ys[i]);
            }
            assert(json_eq(b, a));
        },
        (JsonModel::Object(xs), JsonModel::Object(ys)) => {
            assert forall|i: int| 0 <= i < ys.len() implies #[trigger] ys[i].0 == xs[i].0 by {
                assert(json_eq(xs[i].1, ys[i].1));
                assert(xs[i].0 =~= ys[i].0);
            }
            assert forall|i: int| 0 <= i < ys.len() implies json_eq(#[trigger] ys[i].1, xs[i].1) by {
                assert(xs[i].0 == ys[i].0 && json_eq(xs[i].1, ys[i].1));
                lemma_json_eq_flips(xs[i].1, ys[i].1);
            }
            assert(json_eq(b, a));
        },
        (JsonModel::Number { repr: x, .. }, JsonModel::Number { repr: y, .. }) => {
            assert(repr_eq(y, x));
        },
        _ => {},
    }
}

proof fn lemma_json_eq_symmetric(a: JsonModel, b: JsonModel)
    ensures
        json_eq(a, b) == json_eq(b, a),
{
    if json_eq(a, b) {
        lemma_json_eq_flips(a, b);
    }
    if json_eq(b, a) {
        lemma_json_eq_flips(b, a);
    }
}

proof fn lemma_sorted_indices_in_range(keys: Seq<Seq<char>>, n: int)
    requires
        n >= 0,
    ensures
        sorted_indices(keys, n).len() == n,
        forall|q: int| 0 <= q < n ==> #[trigger] sorted_indices(keys, n)[q] < n,
    decreases n,
{
    if n > 0 {
        lemma_sorted_indices_in_range(keys, n - 1);
        let s = sorted_indices(keys, n - 1);
        let p = insert_position(s, keys, n - 1, 0);
        lemma_insert_position_in_range(s, keys, n - 1, 0);
        assert forall|q: int| 0 <= q < n implies #[trigger] sorted_indices(keys, n)[q] < n by {
            if q < p {
                assert(sorted_indices(keys, n)[q] == s[q]);
            } else if q > p {
                assert(sorted_indices(keys, n)[q] == s[q - 1]);
            }
        }
    }
}

proof fn lemma_insert_position_in_range(sorted: Seq<usize>, keys: Seq<Seq<char>>, k: int, p: int)
    requires
        0 <= p <= sorted.len(),
    ensures
        p <= insert_position(sorted, keys, k, p) <= sorted.len(),
    decreases sorted.len() - p,
{
    if p < sorted.len() && key_order(keys[sorted[p] as int], keys[k]) <= 0 {
        lemma_insert_position_in_range(sorted, keys, k, p + 1);
    }
}

proof fn lemma_visit_symmetric(path: Seq<char>, a: JsonModel, b: JsonModel)
    ensures
        visit(path, b, a) == swap_sides(visit(path, a, b)),
    decreases a, 1nat,
{
    lemma_json_eq_symmetric(a, b);
    if json_eq(a, b) {
        assert(swap_sides(Seq::<EntryModel>::empty()) =~= Seq::<EntryModel>::empty());
    } else {
        match (a, b) {
            (JsonModel::Object(am), JsonModel::Object(bm)) => {
                lemma_merge_members_symmetric(path, am, bm, 0, 0);
            },
            (JsonModel::Array(xs), JsonModel::Array(ys)) => {
                match (index_by_id(xs), index_by_id(ys)) {
                    (Some(sa), Some(sb)) => {
                        lemma_sorted_indices_in_range(id_texts(xs), xs.len() as int);
                        lemma_sorted_indices_in_range(id_texts(ys), ys.len() as int);
                        lemma_merge_ids_symmetric(path, xs, id_texts(xs), sa, ys, id_texts(ys), sb, 0, 0);
                    },
                    _ => {
                        assert(index_order(ys, xs) == index_order(xs, ys));
                        lemma_by_index_symmetric(path, xs, ys, index_order(xs, ys), 0);
                    },
                }
            },
            _ => {
                assert(swap_sides(seq![(path, Some(a), Some(b))]) =~= seq![(path, Some(b), Some(a))]);
            },
        }
    }
}

proof fn lemma_merge_members_symmetric(
    path: Seq<char>,
    am: Seq<(Seq<char>, JsonModel)>,
    bm: Seq<(Seq<char>, JsonModel)>,
    i: int,
    j: int,
)
    ensures
        merge_members(path, bm, am, j, i) == swap_sides(merge_members(path, am, bm, i, j)),
    decreases am, (am.len() - i) + (bm.len() - j),
{
    if i < 0 || j < 0 || i > am.len() || j > bm.len() || (i == am.len() && j == bm.len()) {
        assert(swap_sides(Seq::<EntryModel>::empty()) =~= Seq::<EntryModel>::empty());
    } else {
        if i < am.len() && j < bm.len() {
            lemma_key_order_antisymmetric(am[i].0, bm[j].0);
        }
        if i == am.len() || (j < bm.len() && key_order(am[i].0, bm[j].0) > 0) {
            lemma_merge_members_symmetric(path, am, bm, i, j + 1);
            let e: EntryModel = (member_path(path, bm[j].0), None, Some(bm[j].1));
            lemma_swap_concat(seq![e], merge_members(path, am, bm, i, j + 1));
            assert(swap_sides(seq![e]) =~= seq![(member_path(path, bm[j].0), Some(bm[j].1), None::<JsonModel>)]);
        } else if j == bm.len() || key_order(am[i].0, bm[j].0) < 0 {
            lemma_merge_members_symmetric(path, am, bm, i + 1, j);
            let e: EntryModel = (member_path(path, am[i].0), Some(am[i].1), None);
            lemma_swap_concat(seq![e], merge_members(path, am, bm, i + 1, j));
            assert(swap_sides(seq![e]) =~= seq![(member_path(path, am[i].0), None::<JsonModel>, Some(am[i].1))]);
        } else {
            lemma_merge_members_symmetric(path, am, bm, i + 1, j + 1);
            lemma_visit_symmetric(member_path(path, am[i].0), am[i].1, bm[j].1);
            lemma_swap_concat(
                visit(member_path(path, am[i].0), am[i].1, bm[j].1),
                merge_members(path, am, bm, i + 1, j + 1),
            );
        }
    }
}

proof fn lemma_merge_ids_symmetric(
    path: Seq<char>,
    xs: Seq<JsonModel>,
    ka: Seq<Seq<char>>,
    sa: Seq<usize>,
    ys: Seq<JsonModel>,
    kb: Seq<Seq<char>>,
    sb: Seq<usize>,
    i: int,
    j: int,
)
    requires
        forall|q: int| 0 <= q < sa.len() ==> #[trigger] sa[q] < xs.len(),
        forall|q: int| 0 <= q < sb.len() ==> #[trigger] sb[q] < ys.len(),
    ensures
        merge_ids(path, ys, kb, sb, xs, ka, sa, j, i) == swap_sides(merge_ids(path, xs, ka, sa, ys, kb, sb, i, j)),
    decreases xs, (sa.len() - i) + (sb.len() - j),
{
    if i < 0 || j < 0 || i > sa.len() || j > sb.len() || (i == sa.len() && j == sb.len()) {
        assert(swap_sides(Seq::<EntryModel>::empty()) =~= Seq::<EntryModel>::empty());
    } else {
        if i < sa.len() && j < sb.len() {
            lemma_key_order_antisymmetric(ka[sa[i] as int], kb[sb[j] as int]);
        }
        if i == sa.len() || (j < sb.len() && key_order(ka[sa[i] as int], kb[sb[j] as int]) > 0) {
            lemma_merge_ids_symmetric(path, xs, ka, sa, ys, kb, sb, i, j + 1);
            let e: EntryModel = (id_path(path, kb[sb[j] as int]), None, Some(ys[sb[j] as int]));
            lemma_swap_concat(seq![e], merge_ids(path, xs, ka, sa, ys, kb, sb, i, j + 1));
            assert(swap_sides(seq![e]) =~= seq![(id_path(path, kb[sb[j] as int]), Some(ys[sb[j] as int]), None::<JsonModel>)]);
        } else if j == sb.len() || key_order(ka[sa[i] as int], kb[sb[j] as int]) < 0 {
            lemma_merge_ids_symmetric(path, xs, ka, sa, ys, kb, sb, i + 1, j);
            let e: EntryModel = (id_path(path, ka[sa[i] as int]), Some(xs[sa[i] as int]), None);
            lemma_swap_concat(seq![e], merge_ids(path, xs, ka, sa, ys, kb, sb, i + 1, j));
            assert(swap_sides(seq![e]) =~= seq![(id_path(path, ka[sa[i] as int]), None::<JsonModel>, Some(xs[sa[i] as int]))]);
        } else {
            lemma_merge_ids_symmetric(path, xs, ka, sa, ys, kb, sb, i + 1, j + 1);
            let x = xs[sa[i] as int];
            let y = ys[sb[j] as int];
            lemma_visit_symmetric(id_path(path, ka[sa[i] as int]), x, y);
            lemma_swap_concat(
                visit(id_path(path, ka[sa[i] as int]), x, y),
                merge_ids(path, xs, ka, sa, ys, kb, sb, i + 1, j + 1),
            );
        }
    }
}

proof fn lemma_by_index_symmetric(path: Seq<char>, xs: Seq<JsonModel>, ys: Seq<JsonModel>, order: Seq<usize>, p: int)
    ensures
        by_index(path, ys, xs, order, p) == swap_sides(by_index(path, xs, ys, order, p)),
    decreases xs, order.len() - p,
{
    if p < 0 || p >= order.len() {
        assert(swap_sides(Seq::<EntryModel>::empty()) =~= Seq::<EntryModel>::empty());
    } else {
        lemma_by_index_symmetric(path, xs, ys, order, p + 1);
        let i = order[p] as int;
        let w = index_path(path, i as nat);
        if i >= xs.len() && i >= ys.len() {
        } else if i >= xs.len() {
            let e: EntryModel = (w, None, Some(ys[i]));
            lemma_swap_concat(seq![e], by_index(path, xs, ys, order, p + 1));
            assert(swap_sides(seq![e]) =~= seq![(w, Some(ys[i]), None::<JsonModel>)]);
        } else if i >= ys.len() {
            let e: EntryModel = (w, Some(xs[i]), None);
            lemma_swap_concat(seq![e], by_index(path, xs, ys, order, p + 1));
            assert(swap_sides(seq![e]) =~= seq![(w, None::<JsonModel>, Some(xs[i]))]);
        } else {
            lemma_visit_symmetric(w, xs[i], ys[i]);
            lemma_swap_concat(visit(w, xs[i], ys[i]), by_index(path, xs, ys, order, p + 1));
        }
    }
}

/// Diffing the documents the other way round reports the same differences
/// at the same paths in the same order, each with its two sides exchanged:
/// what one direction reports as added, the other reports as removed.
pub proof fn lemma_diff_is_symmetric(path: Seq<char>, a: JsonModel, b: JsonModel)
    ensures
        visit(path, b, a) == swap_sides(visit(path, a, b)),
{
    lemma_visit_symmetric(path, a, b);
}

} // verus!
