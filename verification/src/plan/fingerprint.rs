//! What a plan's identity is, and what it deliberately ignores.
//!
//! An approval binds to a fingerprint over the semantic inputs, and an
//! apply regenerates it and refuses on any difference. The encoding is
//! RFC 8785 JSON canonicalization, restricted to the value kinds a plan's
//! inputs need: integers, strings, booleans, nulls, arrays, and
//! string-keyed objects. There is no floating point kind at all.

use vstd::prelude::*;

use crate::digest::{digest_text, Sha256};
use crate::text::{
    chars_of, decimal, lemma_text_lt_asymmetric, lemma_text_lt_irreflexive, lemma_text_lt_total,
    lemma_text_lt_transitive, owned, push_char, push_decimal, same_text, str_lt, text_lt,
};

verus! {

/// The value kinds a fingerprint input may be.
///
/// A map keeps its entries in key order with each key once, as a
/// `BTreeMap<String, Value>` does; `Value::map` builds it that way, and
/// `wf` is that shape.
#[derive(Debug, PartialEq, Eq)]
pub enum Value {
    /// A JSON null.
    Null,
    /// A JSON boolean.
    Bool(bool),
    /// A JSON integer.
    Int(i64),
    /// A JSON string.
    Text(String),
    /// A JSON array, in the order the plan produced it.
    List(Vec<Value>),
    /// A JSON object, keyed by string, in key order, each key once.
    Object(Vec<(String, Value)>),
}

/// The mathematical value a `Value` stands for.
pub enum Json {
    /// null
    Null,
    /// a boolean
    Bool(bool),
    /// an integer
    Int(int),
    /// a string
    Text(Seq<char>),
    /// an array
    List(Seq<Json>),
    /// an object, as its entries in stored order
    Object(Seq<(Seq<char>, Json)>),
}

/// The model of one value.
pub open spec fn model(v: Value) -> Json
    decreases v,
{
    match v {
        Value::Null => Json::Null,
        Value::Bool(b) => Json::Bool(b),
        Value::Int(n) => Json::Int(n as int),
        Value::Text(t) => Json::Text(t@),
        Value::List(items) => Json::List(model_list(items@)),
        Value::Object(entries) => Json::Object(model_entries(entries@)),
    }
}

/// The models of a sequence of values.
pub open spec fn model_list(s: Seq<Value>) -> Seq<Json>
    decreases s,
{
    if s.len() == 0 {
        Seq::empty()
    } else {
        seq![model(s[0])] + model_list(s.subrange(1, s.len() as int))
    }
}

/// The models of a sequence of map entries.
pub open spec fn model_entries(s: Seq<(String, Value)>) -> Seq<(Seq<char>, Json)>
    decreases s,
{
    if s.len() == 0 {
        Seq::empty()
    } else {
        seq![(s[0].0@, model(s[0].1))] + model_entries(s.subrange(1, s.len() as int))
    }
}

impl View for Value {
    type V = Json;

    open spec fn view(&self) -> Json {
        model(*self)
    }
}

/// Whether every map inside the value keeps its keys strictly in order.
pub open spec fn wf(v: Value) -> bool
    decreases v,
{
    match v {
        Value::List(items) => wf_list(items@),
        Value::Object(entries) => keys_strictly_sorted(entries@) && wf_entries(entries@),
        _ => true,
    }
}

/// Every value in the sequence is well formed.
pub open spec fn wf_list(s: Seq<Value>) -> bool
    decreases s,
{
    s.len() == 0 || (wf(s[0]) && wf_list(s.subrange(1, s.len() as int)))
}

/// Every value among the entries is well formed.
pub open spec fn wf_entries(s: Seq<(String, Value)>) -> bool
    decreases s,
{
    s.len() == 0 || (wf(s[0].1) && wf_entries(s.subrange(1, s.len() as int)))
}

/// Keys in strictly increasing code point order, as a `BTreeMap` holds them.
pub open spec fn keys_strictly_sorted(s: Seq<(String, Value)>) -> bool {
    forall|i: int, j: int| 0 <= i < j < s.len() ==> text_lt(#[trigger] s[i].0@, #[trigger] s[j].0@)
}

// ---------------------------------------------------------------------------
// The encoding, over the model.

/// The UTF-16 code units of one character.
pub open spec fn utf16_char(c: char) -> Seq<u16> {
    let n = c as int;
    if n < 0x10000 {
        seq![n as u16]
    } else {
        seq![(0xD800 + (n - 0x10000) / 0x400) as u16, (0xDC00 + (n - 0x10000) % 0x400) as u16]
    }
}

/// The UTF-16 code units of a string, as `str::encode_utf16` yields them.
pub open spec fn utf16_of(s: Seq<char>) -> Seq<u16>
    decreases s.len(),
{
    if s.len() == 0 {
        Seq::empty()
    } else {
        utf16_of(s.drop_last()) + utf16_char(s.last())
    }
}

/// Lexicographic order on code unit sequences.
pub open spec fn units_lt(a: Seq<u16>, b: Seq<u16>) -> bool
    decreases a.len(),
{
    if a.len() == 0 {
        b.len() > 0
    } else if b.len() == 0 {
        false
    } else if a[0] != b[0] {
        a[0] < b[0]
    } else {
        units_lt(a.drop_first(), b.drop_first())
    }
}

/// The shortest spelling of an integer.
pub open spec fn int_text(n: int) -> Seq<char> {
    if n < 0 {
        seq!['-'] + decimal((-n) as nat)
    } else {
        decimal(n as nat)
    }
}

/// The lowercase hex digit for `d < 16`.
pub open spec fn hex_char_of(d: int) -> char {
    crate::digest::hex_digit(d)
}

/// How the RFC writes one character inside a string.
///
/// The two-character escape where one exists, a `\u` escape for every
/// other control character, and the character itself everywhere else.
pub open spec fn escaped(c: char) -> Seq<char> {
    if c == '"' {
        seq!['\\', '"']
    } else if c == '\\' {
        seq!['\\', '\\']
    } else if c == '\u{8}' {
        seq!['\\', 'b']
    } else if c == '\u{c}' {
        seq!['\\', 'f']
    } else if c == '\n' {
        seq!['\\', 'n']
    } else if c == '\r' {
        seq!['\\', 'r']
    } else if c == '\t' {
        seq!['\\', 't']
    } else if (c as u32) < 0x20 {
        seq!['\\', 'u', '0', '0', hex_char_of(((c as u32) / 16) as int), hex_char_of(((c as u32) % 16) as int)]
    } else {
        seq![c]
    }
}

/// Every character of a string, escaped.
pub open spec fn escaped_all(s: Seq<char>) -> Seq<char>
    decreases s.len(),
{
    if s.len() == 0 {
        Seq::empty()
    } else {
        escaped_all(s.drop_last()) + escaped(s.last())
    }
}

/// A string as the RFC writes it, quotes included.
pub open spec fn quoted(s: Seq<char>) -> Seq<char> {
    seq!['"'] + escaped_all(s) + seq!['"']
}

/// Pieces joined by commas.
pub open spec fn join(pieces: Seq<Seq<char>>) -> Seq<char>
    decreases pieces.len(),
{
    if pieces.len() == 0 {
        Seq::empty()
    } else if pieces.len() == 1 {
        pieces[0]
    } else {
        join(pieces.drop_last()) + seq![','] + pieces.last()
    }
}

/// The canonical encoding of one model value.
pub open spec fn encode_json(v: Json) -> Seq<char>
    decreases v,
{
    match v {
        Json::Null => seq!['n', 'u', 'l', 'l'],
        Json::Bool(b) => if b {
            seq!['t', 'r', 'u', 'e']
        } else {
            seq!['f', 'a', 'l', 's', 'e']
        },
        Json::Int(n) => int_text(n),
        Json::Text(t) => quoted(t),
        Json::List(items) => seq!['['] + join(encode_items(items)) + seq![']'],
        Json::Object(entries) => seq!['{'] + join(
            permuted(encode_members(entries), key_order(keys_of(entries))),
        ) + seq!['}'],
    }
}

/// The encodings of each item, in order.
pub open spec fn encode_items(s: Seq<Json>) -> Seq<Seq<char>>
    decreases s,
{
    if s.len() == 0 {
        Seq::empty()
    } else {
        seq![encode_json(s[0])] + encode_items(s.subrange(1, s.len() as int))
    }
}

/// The encodings of each `"key":value` member, in stored order.
pub open spec fn encode_members(s: Seq<(Seq<char>, Json)>) -> Seq<Seq<char>>
    decreases s,
{
    if s.len() == 0 {
        Seq::empty()
    } else {
        seq![quoted(s[0].0) + seq![':'] + encode_json(s[0].1)] + encode_members(
            s.subrange(1, s.len() as int),
        )
    }
}

/// The UTF-16 units of each key, in stored order.
pub open spec fn keys_of(entries: Seq<(Seq<char>, Json)>) -> Seq<Seq<u16>> {
    Seq::new(entries.len(), |i: int| utf16_of(entries[i].0))
}

/// Pieces read in the given order of indices.
pub open spec fn permuted(pieces: Seq<Seq<char>>, order: Seq<int>) -> Seq<Seq<char>> {
    Seq::new(order.len(), |k: int| pieces[order[k]])
}

/// The first position at or after `from` whose key sorts after `key`.
pub open spec fn first_after(order: Seq<int>, keys: Seq<Seq<u16>>, key: Seq<u16>, from: int) -> int
    decreases order.len() - from,
{
    if from >= order.len() || from < 0 {
        order.len() as int
    } else if units_lt(key, keys[order[from]]) {
        from
    } else {
        first_after(order, keys, key, from + 1)
    }
}

/// The indices `0..n` sorted by key, equal keys keeping their order.
pub open spec fn sort_order(keys: Seq<Seq<u16>>, n: nat) -> Seq<int>
    decreases n,
{
    if n == 0 {
        Seq::empty()
    } else {
        let before = sort_order(keys, (n - 1) as nat);
        before.insert(first_after(before, keys, keys[n - 1], 0), n - 1)
    }
}

/// The order the RFC writes an object's members in: by the UTF-16 code
/// units of their keys.
pub open spec fn key_order(keys: Seq<Seq<u16>>) -> Seq<int> {
    sort_order(keys, keys.len())
}

/// The canonical encoding of a value.
pub open spec fn canonical_text(v: Value) -> Seq<char> {
    encode_json(v@)
}

// ---------------------------------------------------------------------------
// Indexing lemmas for the structural recursions.

pub proof fn lemma_model_list(s: Seq<Value>)
    ensures
        model_list(s).len() == s.len(),
        forall|i: int| 0 <= i < s.len() ==> #[trigger] model_list(s)[i] == model(s[i]),
    decreases s.len(),
{
    if s.len() > 0 {
        let rest = s.subrange(1, s.len() as int);
        lemma_model_list(rest);
        assert forall|i: int| 0 <= i < s.len() implies #[trigger] model_list(s)[i] == model(s[i]) by {
            if i > 0 {
                assert(rest[i - 1] == s[i]);
            }
        }
    }
}

pub proof fn lemma_model_entries(s: Seq<(String, Value)>)
    ensures
        model_entries(s).len() == s.len(),
        forall|i: int|
            0 <= i < s.len() ==> #[trigger] model_entries(s)[i] == (s[i].0@, model(s[i].1)),
    decreases s.len(),
{
    if s.len() > 0 {
        let rest = s.subrange(1, s.len() as int);
        lemma_model_entries(rest);
        assert forall|i: int| 0 <= i < s.len() implies #[trigger] model_entries(s)[i] == (
        s[i].0@, model(s[i].1)) by {
            if i > 0 {
                assert(rest[i - 1] == s[i]);
            }
        }
    }
}

proof fn lemma_encode_items(s: Seq<Json>)
    ensures
        encode_items(s).len() == s.len(),
        forall|i: int| 0 <= i < s.len() ==> #[trigger] encode_items(s)[i] == encode_json(s[i]),
    decreases s.len(),
{
    if s.len() > 0 {
        let rest = s.subrange(1, s.len() as int);
        lemma_encode_items(rest);
        assert forall|i: int| 0 <= i < s.len() implies #[trigger] encode_items(s)[i] == encode_json(
        s[i]) by {
            if i > 0 {
                assert(rest[i - 1] == s[i]);
            }
        }
    }
}

proof fn lemma_encode_members(s: Seq<(Seq<char>, Json)>)
    ensures
        encode_members(s).len() == s.len(),
        forall|i: int|
            0 <= i < s.len() ==> #[trigger] encode_members(s)[i] == quoted(s[i].0) + seq![':']
                + encode_json(s[i].1),
    decreases s.len(),
{
    if s.len() > 0 {
        let rest = s.subrange(1, s.len() as int);
        lemma_encode_members(rest);
        assert forall|i: int| 0 <= i < s.len() implies #[trigger] encode_members(s)[i] == quoted(
        s[i].0) + seq![':'] + encode_json(s[i].1) by {
            if i > 0 {
                assert(rest[i - 1] == s[i]);
            }
        }
    }
}

proof fn lemma_join_step(pieces: Seq<Seq<char>>, k: int)
    requires
        0 <= k < pieces.len(),
    ensures
        join(pieces.subrange(0, k + 1)) == if k == 0 {
            pieces[0]
        } else {
            join(pieces.subrange(0, k)) + seq![','] + pieces[k]
        },
{
    let t = pieces.subrange(0, k + 1);
    assert(t.drop_last() =~= pieces.subrange(0, k));
}

// ---------------------------------------------------------------------------
// Executable encoding.

/// The UTF-16 code units of one character.
fn push_utf16(units: &mut Vec<u16>, c: char)
    ensures
        final(units)@ == old(units)@ + utf16_char(c),
{
    let n = c as u32;
    if n < 0x10000 {
        units.push(n as u16);
        assert(units@ =~= old(units)@ + utf16_char(c));
    } else {
        let m = n - 0x10000;
        units.push((0xD800 + m / 0x400) as u16);
        units.push((0xDC00 + m % 0x400) as u16);
        assert(units@ =~= old(units)@ + utf16_char(c));
    }
}

/// The UTF-16 code units of a string, the order keys sort in.
pub fn utf16_units(text: &str) -> (units: Vec<u16>)
    ensures
        units@ == utf16_of(text@),
{
    let v = chars_of(text);
    let mut units: Vec<u16> = Vec::new();
    let mut i: usize = 0;
    while i < v.len()
        invariant
            i <= v.len(),
            units@ == utf16_of(v@.subrange(0, i as int)),
        decreases v.len() - i,
    {
        let ghost before = units@;
        push_utf16(&mut units, v[i]);
        proof {
            let t = v@.subrange(0, i + 1);
            assert(t.drop_last() =~= v@.subrange(0, i as int));
            assert(t.last() == v@[i as int]);
        }
        i += 1;
    }
    assert(v@.subrange(0, v.len() as int) =~= v@);
    units
}

/// Whether `a` sorts before `b` by code unit.
fn units_before(a: &Vec<u16>, b: &Vec<u16>) -> (r: bool)
    ensures
        r == units_lt(a@, b@),
{
    let mut i: usize = 0;
    assert(a@.skip(0) == a@);
    assert(b@.skip(0) == b@);
    while i < a.len() && i < b.len()
        invariant
            i <= a.len(),
            i <= b.len(),
            units_lt(a@, b@) == units_lt(a@.skip(i as int), b@.skip(i as int)),
        decreases a.len() - i,
    {
        if a[i] != b[i] {
            assert(a@.skip(i as int)[0] == a@[i as int]);
            assert(b@.skip(i as int)[0] == b@[i as int]);
            return a[i] < b[i];
        }
        assert(a@.skip(i as int).drop_first() =~= a@.skip(i + 1));
        assert(b@.skip(i as int).drop_first() =~= b@.skip(i + 1));
        i += 1;
    }
    i == a.len() && i < b.len()
}

/// The member order for the given keys, as `key_order` states it.
fn member_order(keys: &Vec<Vec<u16>>, Ghost(spec_keys): Ghost<Seq<Seq<u16>>>) -> (order: Vec<usize>)
    requires
        spec_keys.len() == keys.len(),
        forall|i: int| 0 <= i < keys.len() ==> #[trigger] keys[i]@ == spec_keys[i],
    ensures
        order@.len() == keys.len(),
        forall|k: int| 0 <= k < order@.len() ==> #[trigger] order@[k] as int == key_order(spec_keys)[k],
        key_order(spec_keys).len() == keys.len(),
{
    let mut order: Vec<usize> = Vec::new();
    let mut n: usize = 0;
    while n < keys.len()
        invariant
            n <= keys.len(),
            spec_keys.len() == keys.len(),
            forall|i: int| 0 <= i < keys.len() ==> #[trigger] keys[i]@ == spec_keys[i],
            order@.len() == n,
            sort_order(spec_keys, n as nat).len() == n,
            forall|k: int| 0 <= k < n ==> #[trigger] order@[k] as int == sort_order(spec_keys, n as nat)[k],
            forall|k: int| 0 <= k < n ==> #[trigger] order@[k] < n,
        decreases keys.len() - n,
    {
        let ghost before = sort_order(spec_keys, n as nat);
        let mut p: usize = 0;
        while p < order.len() && !units_before(&keys[n], &keys[order[p]])
            invariant
                p <= order.len(),
                order@.len() == n,
                n < keys.len(),
                spec_keys.len() == keys.len(),
                forall|i: int| 0 <= i < keys.len() ==> #[trigger] keys[i]@ == spec_keys[i],
                before.len() == n,
                forall|k: int| 0 <= k < n ==> #[trigger] order@[k] as int == before[k],
                forall|k: int| 0 <= k < n ==> #[trigger] order@[k] < n,
                first_after(before, spec_keys, spec_keys[n as int], 0) == first_after(
                    before,
                    spec_keys,
                    spec_keys[n as int],
                    p as int,
                ),
            decreases order.len() - p,
        {
            p += 1;
        }
        let ghost old_order = order@;
        order.insert(p, n);
        proof {
            let after = sort_order(spec_keys, (n + 1) as nat);
            assert(after == before.insert(p as int, n as int));
            before.insert_ensures(p as int, n as int);
            old_order.insert_ensures(p as int, n);
            assert forall|k: int| 0 <= k < n + 1 implies #[trigger] order@[k] as int == after[k] by {
                if k < p {
                } else if k == p {
                } else {
                    assert(order@[k] == old_order[k - 1]);
                    assert(after[k] == before[k - 1]);
                }
            }
            assert forall|k: int| 0 <= k < n + 1 implies #[trigger] order@[k] < n + 1 by {
                if k < p {
                } else if k == p {
                } else {
                    assert(order@[k] == old_order[k - 1]);
                }
            }
        }
        n += 1;
    }
    order
}

/// Append the RFC spelling of one string, quotes included.
fn encode_string(text: &str, out: &mut String)
    ensures
        final(out)@ == old(out)@ + quoted(text@),
{
    let v = chars_of(text);
    push_char(out, '"');
    let ghost start = out@;
    let mut i: usize = 0;
    while i < v.len()
        invariant
            i <= v.len(),
            out@ == start + escaped_all(v@.subrange(0, i as int)),
        decreases v.len() - i,
    {
        let c = v[i];
        let ghost before = out@;
        if c == '"' {
            push_char(out, '\\');
            push_char(out, '"');
        } else if c == '\\' {
            push_char(out, '\\');
            push_char(out, '\\');
        } else if c == '\u{8}' {
            push_char(out, '\\');
            push_char(out, 'b');
        } else if c == '\u{c}' {
            push_char(out, '\\');
            push_char(out, 'f');
        } else if c == '\n' {
            push_char(out, '\\');
            push_char(out, 'n');
        } else if c == '\r' {
            push_char(out, '\\');
            push_char(out, 'r');
        } else if c == '\t' {
            push_char(out, '\\');
            push_char(out, 't');
        } else if (c as u32) < 0x20 {
            let n = c as u32;
            push_char(out, '\\');
            push_char(out, 'u');
            push_char(out, '0');
            push_char(out, '0');
            push_char(out, hex_of((n / 16) as u8));
            push_char(out, hex_of((n % 16) as u8));
        } else {
            push_char(out, c);
        }
        proof {
            let t = v@.subrange(0, i + 1);
            assert(t.drop_last() =~= v@.subrange(0, i as int));
            assert(t.last() == c);
            assert(out@ =~= before + escaped(c));
        }
        i += 1;
    }
    assert(v@.subrange(0, v.len() as int) =~= v@);
    push_char(out, '"');
    assert(out@ =~= old(out)@ + quoted(text@));
}

fn hex_of(d: u8) -> (c: char)
    requires
        d < 16,
    ensures
        c == hex_char_of(d as int),
{
    if d < 10 {
        crate::text::digit_of(d as u64)
    } else if d == 10 {
        'a'
    } else if d == 11 {
        'b'
    } else if d == 12 {
        'c'
    } else if d == 13 {
        'd'
    } else if d == 14 {
        'e'
    } else {
        'f'
    }
}

/// Append the shortest spelling of an integer.
fn push_int(out: &mut String, n: i64)
    ensures
        final(out)@ == old(out)@ + int_text(n as int),
{
    if n < 0 {
        push_char(out, '-');
        let magnitude: u64 = (0i128 - (n as i128)) as u64;
        push_decimal(out, magnitude);
        assert(out@ =~= old(out)@ + int_text(n as int));
    } else {
        push_decimal(out, n as u64);
    }
}

/// Append the canonical encoding of one value.
fn encode(value: &Value, out: &mut String)
    ensures
        final(out)@ == old(out)@ + encode_json(value@),
    decreases value,
{
    match value {
        Value::Null => {
            push_char(out, 'n');
            push_char(out, 'u');
            push_char(out, 'l');
            push_char(out, 'l');
            assert(out@ =~= old(out)@ + encode_json(value@));
        },
        Value::Bool(b) => {
            if *b {
                push_char(out, 't');
                push_char(out, 'r');
                push_char(out, 'u');
                push_char(out, 'e');
            } else {
                push_char(out, 'f');
                push_char(out, 'a');
                push_char(out, 'l');
                push_char(out, 's');
                push_char(out, 'e');
            }
            assert(out@ =~= old(out)@ + encode_json(value@));
        },
        Value::Int(n) => {
            push_int(out, *n);
        },
        Value::Text(t) => {
            encode_string(t.as_str(), out);
        },
        Value::List(items) => {
            let ghost models = model_list(items@);
            let ghost pieces = encode_items(models);
            proof {
                lemma_model_list(items@);
                lemma_encode_items(models);
            }
            push_char(out, '[');
            let ghost start = out@;
            let mut i: usize = 0;
            while i < items.len()
                invariant
                    i <= items.len(),
                    value == Value::List(*items),
                    models == model_list(items@),
                    pieces == encode_items(models),
                    pieces.len() == items.len(),
                    forall|j: int| 0 <= j < items.len() ==> #[trigger] pieces[j] == encode_json(
                        items@[j]@,
                    ),
                    out@ == start + join(pieces.subrange(0, i as int)),
                decreases items.len() - i,
            {
                let ghost before = out@;
                if i > 0 {
                    push_char(out, ',');
                }
                let ghost mid = out@;
                proof {
                    assert(decreases_to!(*value => (*value)->List_0));
                    assert((*value)->List_0 == *items);
                    assert(decreases_to!(*items => items[i as int]));
                }
                encode(&items[i], out);
                proof {
                    lemma_join_step(pieces, i as int);
                    if i == 0 {
                        assert(pieces.subrange(0, 0).len() == 0);
                        assert(join(pieces.subrange(0, 0)) == Seq::<char>::empty());
                        assert(out@ =~= start + join(pieces.subrange(0, 1)));
                    } else {
                        assert(out@ =~= start + join(pieces.subrange(0, i + 1)));
                    }
                }
                i += 1;
            }
            assert(pieces.subrange(0, items.len() as int) =~= pieces);
            push_char(out, ']');
            assert(out@ =~= old(out)@ + encode_json(value@));
        },
        Value::Object(entries) => {
            let ghost models = model_entries(entries@);
            let ghost members = encode_members(models);
            proof {
                lemma_model_entries(entries@);
                lemma_encode_members(models);
            }
            let mut rendered: Vec<String> = Vec::new();
            let mut keys: Vec<Vec<u16>> = Vec::new();
            let mut i: usize = 0;
            while i < entries.len()
                invariant
                    i <= entries.len(),
                    value == Value::Object(*entries),
                    models == model_entries(entries@),
                    members == encode_members(models),
                    members.len() == entries.len(),
                    models.len() == entries.len(),
                    forall|j: int| 0 <= j < entries.len() ==> #[trigger] models[j] == (
                        entries@[j].0@,
                        model(entries@[j].1),
                    ),
                    forall|j: int| 0 <= j < entries.len() ==> #[trigger] members[j] == quoted(
                        models[j].0,
                    ) + seq![':'] + encode_json(models[j].1),
                    rendered@.len() == i,
                    keys@.len() == i,
                    forall|j: int| 0 <= j < i ==> #[trigger] rendered@[j]@ == members[j],
                    forall|j: int| 0 <= j < i ==> #[trigger] keys@[j]@ == keys_of(models)[j],
                decreases entries.len() - i,
            {
                let mut piece = String::new();
                encode_string(entries[i].0.as_str(), &mut piece);
                push_char(&mut piece, ':');
                proof {
                    assert(decreases_to!(*value => (*value)->Object_0));
                    assert((*value)->Object_0 == *entries);
                    assert(decreases_to!(*entries => entries[i as int]));
                    assert(decreases_to!(entries[i as int] => entries[i as int].1));
                }
                encode(&entries[i].1, &mut piece);
                assert(piece@ =~= members[i as int]);
                rendered.push(piece);
                keys.push(utf16_units(entries[i].0.as_str()));
                i += 1;
            }
            let order = member_order(&keys, Ghost(keys_of(models)));
            let ghost ordered = permuted(members, key_order(keys_of(models)));
            push_char(out, '{');
            let ghost start = out@;
            let mut k: usize = 0;
            while k < order.len()
                invariant
                    k <= order.len(),
                    order@.len() == entries.len(),
                    rendered@.len() == entries.len(),
                    models.len() == entries.len(),
                    members.len() == entries.len(),
                    key_order(keys_of(models)).len() == entries.len(),
                    forall|j: int| 0 <= j < order@.len() ==> #[trigger] order@[j] as int == key_order(
                        keys_of(models),
                    )[j],
                    forall|j: int| 0 <= j < entries.len() ==> #[trigger] rendered@[j]@ == members[j],
                    ordered == permuted(members, key_order(keys_of(models))),
                    out@ == start + join(ordered.subrange(0, k as int)),
                decreases order.len() - k,
            {
                if k > 0 {
                    push_char(out, ',');
                }
                let at = order[k];
                proof {
                    assert(keys_of(models).len() == entries.len());
                    lemma_sort_order_in_range(keys_of(models), entries.len() as nat);
                    assert(0 <= key_order(keys_of(models))[k as int] < entries.len());
                }
                append_string(out, &rendered[at]);
                proof {
                    lemma_join_step(ordered, k as int);
                    assert(ordered[k as int] == members[at as int]);
                    if k == 0 {
                        assert(ordered.subrange(0, 0).len() == 0);
                        assert(join(ordered.subrange(0, 0)) == Seq::<char>::empty());
                        assert(out@ =~= start + join(ordered.subrange(0, 1)));
                    } else {
                        assert(out@ =~= start + join(ordered.subrange(0, k + 1)));
                    }
                }
                k += 1;
            }
            assert(ordered.subrange(0, order.len() as int) =~= ordered);
            push_char(out, '}');
            assert(out@ =~= old(out)@ + encode_json(value@));
        },
    }
}

fn append_string(out: &mut String, piece: &String)
    ensures
        final(out)@ == old(out)@ + piece@,
{
    crate::text::append(out, piece.as_str());
}

/// Every index `sort_order` produces is one of `0..n`.
proof fn lemma_sort_order_in_range(keys: Seq<Seq<u16>>, n: nat)
    ensures
        sort_order(keys, n).len() == n,
        forall|k: int| 0 <= k < n ==> 0 <= #[trigger] sort_order(keys, n)[k] < n,
    decreases n,
{
    if n > 0 {
        let before = sort_order(keys, (n - 1) as nat);
        lemma_sort_order_in_range(keys, (n - 1) as nat);
        let p = first_after(before, keys, keys[n - 1], 0);
        lemma_first_after_bounds(before, keys, keys[n - 1], 0);
        before.insert_ensures(p, n - 1);
        assert forall|k: int| 0 <= k < n implies 0 <= #[trigger] sort_order(keys, n)[k] < n by {
            if k > p {
                assert(sort_order(keys, n)[k] == before[k - 1]);
            }
        }
    }
}

proof fn lemma_first_after_bounds(order: Seq<int>, keys: Seq<Seq<u16>>, key: Seq<u16>, from: int)
    requires
        0 <= from,
    ensures
        from <= first_after(order, keys, key, from) <= order.len() || (from > order.len()
            && first_after(order, keys, key, from) == order.len()),
        0 <= first_after(order, keys, key, from) <= order.len(),
    decreases order.len() - from,
{
    if from < order.len() && !units_lt(key, keys[order[from]]) {
        lemma_first_after_bounds(order, keys, key, from + 1);
    }
}

/// Whether a key occurs among the entries.
pub open spec fn has_key(s: Seq<(String, Value)>, k: Seq<char>) -> bool {
    exists|i: int| 0 <= i < s.len() && #[trigger] s[i].0@ == k
}

/// What a map's entries associate with each key: the value of the entry
/// that holds it.
pub open spec fn entries_assoc(s: Seq<(String, Value)>) -> Map<Seq<char>, Json> {
    Map::new(
        |k: Seq<char>| has_key(s, k),
        |k: Seq<char>| model(s[key_index(s, k)].1),
    )
}

/// Where a key occurs among the entries.
pub open spec fn key_index(s: Seq<(String, Value)>, k: Seq<char>) -> int {
    choose|i: int| 0 <= i < s.len() && #[trigger] s[i].0@ == k
}

/// What a list of pairs associates with each key, a later pair replacing
/// an earlier one with the same key.
pub open spec fn pairs_assoc(s: Seq<(&str, Value)>) -> Map<Seq<char>, Json>
    decreases s.len(),
{
    if s.len() == 0 {
        Map::empty()
    } else {
        pairs_assoc(s.drop_last()).insert(s.last().0@, model(s.last().1))
    }
}

proof fn lemma_sorted_distinct(s: Seq<(String, Value)>, i: int, j: int)
    requires
        keys_strictly_sorted(s),
        0 <= i < s.len(),
        0 <= j < s.len(),
        s[i].0@ == s[j].0@,
    ensures
        i == j,
{
    if i < j {
        assert(text_lt(s[i].0@, s[j].0@));
        lemma_text_lt_irreflexive(s[i].0@);
    } else if j < i {
        assert(text_lt(s[j].0@, s[i].0@));
        lemma_text_lt_irreflexive(s[i].0@);
    }
}

proof fn lemma_assoc_at(s: Seq<(String, Value)>, i: int)
    requires
        keys_strictly_sorted(s),
        0 <= i < s.len(),
    ensures
        entries_assoc(s).dom().contains(s[i].0@),
        entries_assoc(s)[s[i].0@] == model(s[i].1),
{
    let k = s[i].0@;
    assert(has_key(s, k));
    let c = key_index(s, k);
    lemma_sorted_distinct(s, i, c);
    assert(entries_assoc(s)[k] == model(s[c].1));
}

proof fn lemma_assoc_tail(s: Seq<(String, Value)>)
    requires
        keys_strictly_sorted(s),
        s.len() > 0,
    ensures
        keys_strictly_sorted(s.subrange(1, s.len() as int)),
        entries_assoc(s.subrange(1, s.len() as int)) == entries_assoc(s).remove(s[0].0@),
{
    let t = s.subrange(1, s.len() as int);
    assert forall|i: int, j: int| 0 <= i < j < t.len() implies text_lt(
        #[trigger] t[i].0@,
        #[trigger] t[j].0@,
    ) by {
        assert(t[i] == s[i + 1]);
        assert(t[j] == s[j + 1]);
    }
    let mt = entries_assoc(t);
    let ms = entries_assoc(s).remove(s[0].0@);
    assert forall|k: Seq<char>| #[trigger] mt.dom().contains(k) <==> ms.dom().contains(k) by {
        if has_key(t, k) {
            let c = key_index(t, k);
            assert(s[c + 1].0@ == k);
            if k == s[0].0@ {
                lemma_sorted_distinct(s, 0, c + 1);
            }
        }
        if has_key(s, k) && k != s[0].0@ {
            let c = key_index(s, k);
            assert(c != 0);
            assert(t[c - 1].0@ == k);
        }
    }
    assert forall|k: Seq<char>| #[trigger] mt.dom().contains(k) implies mt[k] == ms[k] by {
        let c = key_index(t, k);
        lemma_assoc_at(t, c);
        assert(t[c] == s[c + 1]);
        lemma_assoc_at(s, c + 1);
    }
    assert(mt =~= ms);
}

proof fn lemma_sorted_same_assoc(sa: Seq<(String, Value)>, sb: Seq<(String, Value)>)
    requires
        keys_strictly_sorted(sa),
        keys_strictly_sorted(sb),
        entries_assoc(sa) == entries_assoc(sb),
    ensures
        model_entries(sa) == model_entries(sb),
    decreases sa.len(),
{
    if sa.len() == 0 {
        if sb.len() > 0 {
            assert(entries_assoc(sb).dom().contains(sb[0].0@)) by {
                assert(has_key(sb, sb[0].0@));
            }
            let c = key_index(sa, sb[0].0@);
            assert(false);
        }
    } else if sb.len() == 0 {
        assert(entries_assoc(sa).dom().contains(sa[0].0@)) by {
            assert(has_key(sa, sa[0].0@));
        }
        let c = key_index(sb, sa[0].0@);
        assert(false);
    } else {
        let ka = sa[0].0@;
        let kb = sb[0].0@;
        lemma_assoc_at(sa, 0);
        lemma_assoc_at(sb, 0);
        let j = key_index(sb, ka);
        let i = key_index(sa, kb);
        if ka != kb {
            assert(j != 0);
            assert(i != 0);
            assert(text_lt(kb, sb[j].0@));
            assert(text_lt(ka, sa[i].0@));
            lemma_text_lt_asymmetric(ka, kb);
        }
        lemma_assoc_tail(sa);
        lemma_assoc_tail(sb);
        lemma_sorted_same_assoc(sa.subrange(1, sa.len() as int), sb.subrange(1, sb.len() as int));
    }
}

/// A map's encoding does not depend on the order its pairs came in: two
/// maps in key order that associate the same values with the same keys
/// are the same value and encode to the same text.
pub proof fn law_map_order_irrelevant(a: Value, b: Value)
    requires
        a is Object,
        b is Object,
        keys_strictly_sorted(a->Object_0@),
        keys_strictly_sorted(b->Object_0@),
        entries_assoc(a->Object_0@) == entries_assoc(b->Object_0@),
    ensures
        a@ == b@,
        canonical_text(a) == canonical_text(b),
{
    lemma_sorted_same_assoc(a->Object_0@, b->Object_0@);
}

/// No two pairs carry the same key.
pub open spec fn distinct_keys(s: Seq<(&str, Value)>) -> bool {
    forall|i: int, j: int| 0 <= i < s.len() && 0 <= j < s.len() && i != j ==> #[trigger] s[i].0@ != #[trigger] s[j].0@
}

proof fn lemma_assoc_distinct(s: Seq<(&str, Value)>)
    requires
        distinct_keys(s),
    ensures
        forall|i: int| 0 <= i < s.len() ==> #[trigger] pairs_assoc(s).contains_key(s[i].0@) && pairs_assoc(s)[s[i].0@] == model(s[i].1),
        forall|k: Seq<char>| #[trigger] pairs_assoc(s).contains_key(k) ==> exists|i: int| 0 <= i < s.len() && s[i].0@ == k,
    decreases s.len(),
{
    if s.len() > 0 {
        let t = s.drop_last();
        assert(distinct_keys(t)) by {
            assert forall|i: int, j: int| 0 <= i < t.len() && 0 <= j < t.len() && i != j implies #[trigger] t[i].0@ != #[trigger] t[j].0@ by {
                assert(t[i] == s[i] && t[j] == s[j]);
            }
        }
        lemma_assoc_distinct(t);
        assert forall|i: int| 0 <= i < s.len() implies #[trigger] pairs_assoc(s).contains_key(s[i].0@) && pairs_assoc(s)[s[i].0@] == model(s[i].1) by {
            if i < s.len() - 1 {
                assert(t[i] == s[i]);
                assert(s[i].0@ != s[s.len() - 1].0@);
            }
        }
        assert forall|k: Seq<char>| #[trigger] pairs_assoc(s).contains_key(k) implies exists|i: int| 0 <= i < s.len() && s[i].0@ == k by {
            if k != s.last().0@ {
                let i = choose|i: int| 0 <= i < t.len() && t[i].0@ == k;
                assert(s[i] == t[i]);
            }
        }
    }
}

/// The order a map's pairs come in does not move it: pairs with distinct
/// keys, and the same pairs in any other order, give maps that are the
/// same value and encode to the same text, so to the same fingerprint.
pub proof fn law_pair_order_irrelevant(pairs: Seq<(&str, Value)>, shuffled: Seq<(&str, Value)>, a: Value, b: Value)
    requires
        distinct_keys(pairs),
        distinct_keys(shuffled),
        forall|i: int| 0 <= i < pairs.len() ==> shuffled.contains(#[trigger] pairs[i]),
        forall|i: int| 0 <= i < shuffled.len() ==> pairs.contains(#[trigger] shuffled[i]),
        a is Object,
        keys_strictly_sorted(a->Object_0@),
        entries_assoc(a->Object_0@) == pairs_assoc(pairs),
        b is Object,
        keys_strictly_sorted(b->Object_0@),
        entries_assoc(b->Object_0@) == pairs_assoc(shuffled),
    ensures
        a@ == b@,
        canonical_text(a) == canonical_text(b),
{
    lemma_assoc_distinct(pairs);
    lemma_assoc_distinct(shuffled);
    let pa = pairs_assoc(pairs);
    let pb = pairs_assoc(shuffled);
    assert forall|k: Seq<char>| pa.contains_key(k) implies pb.contains_key(k) && pb[k] == pa[k] by {
        let i = choose|i: int| 0 <= i < pairs.len() && pairs[i].0@ == k;
        assert(shuffled.contains(pairs[i]));
        let j = choose|j: int| 0 <= j < shuffled.len() && shuffled[j] == pairs[i];
        assert(pb.contains_key(shuffled[j].0@));
    }
    assert forall|k: Seq<char>| pb.contains_key(k) implies pa.contains_key(k) by {
        let j = choose|j: int| 0 <= j < shuffled.len() && shuffled[j].0@ == k;
        assert(pairs.contains(shuffled[j]));
        let i = choose|i: int| 0 <= i < pairs.len() && pairs[i] == shuffled[j];
        assert(pa.contains_key(pairs[i].0@));
    }
    assert(pa =~= pb);
    law_map_order_irrelevant(a, b);
}

/// Put one pair into sorted entries: its value replaces the one under the
/// same key, or it goes in where its key sorts.
fn put_entry(entries: &mut Vec<(String, Value)>, key: &str, value: Value)
    requires
        keys_strictly_sorted(old(entries)@),
    ensures
        keys_strictly_sorted(final(entries)@),
        entries_assoc(final(entries)@) == entries_assoc(old(entries)@).insert(key@, model(value)),
{
    let ghost s0 = entries@;
    let mut p: usize = 0;
    while p < entries.len() && str_lt(entries[p].0.as_str(), key)
        invariant
            p <= entries.len(),
            entries@ == s0,
            keys_strictly_sorted(s0),
            forall|j: int| 0 <= j < p ==> text_lt(#[trigger] s0[j].0@, key@),
        decreases entries.len() - p,
    {
        p += 1;
    }
    let ghost mv = model(value);
    if p < entries.len() && same_text(entries[p].0.as_str(), key) {
        let k = owned(key);
        entries.set(p, (k, value));
        proof {
            let s1 = entries@;
            assert forall|i: int, j: int| 0 <= i < j < s1.len() implies text_lt(
                #[trigger] s1[i].0@,
                #[trigger] s1[j].0@,
            ) by {
                assert(s1[i].0@ == s0[i].0@);
                assert(s1[j].0@ == s0[j].0@);
            }
            let m0 = entries_assoc(s0);
            let m1 = entries_assoc(s1);
            lemma_assoc_at(s1, p as int);
            assert forall|k2: Seq<char>| #[trigger] m1.dom().contains(k2) <==> m0.insert(
                key@,
                mv,
            ).dom().contains(k2) by {
                if has_key(s1, k2) {
                    let c = choose|j: int| 0 <= j < s1.len() && #[trigger] s1[j].0@ == k2;
                    assert(s0[c].0@ == k2);
                }
                if has_key(s0, k2) {
                    let c = choose|j: int| 0 <= j < s0.len() && #[trigger] s0[j].0@ == k2;
                    assert(s1[c].0@ == k2);
                }
            }
            assert forall|k2: Seq<char>| #[trigger] m1.dom().contains(k2) implies m1[k2] == m0.insert(
                key@,
                mv,
            )[k2] by {
                let c = choose|j: int| 0 <= j < s1.len() && #[trigger] s1[j].0@ == k2;
                lemma_assoc_at(s1, c);
                if c != p {
                    assert(s0[c] == s1[c]);
                    lemma_assoc_at(s0, c);
                }
            }
            assert(m1 =~= m0.insert(key@, mv));
        }
    } else {
        let k = owned(key);
        entries.insert(p, (k, value));
        proof {
            let s1 = entries@;
            s0.insert_ensures(p as int, s1[p as int]);
            assert(s1 == s0.insert(p as int, s1[p as int]));
            if p < s0.len() {
                lemma_text_lt_total(s0[p as int].0@, key@);
            }
            assert forall|i: int, j: int| 0 <= i < j < s1.len() implies text_lt(
                #[trigger] s1[i].0@,
                #[trigger] s1[j].0@,
            ) by {
                if j < p {
                } else if j == p {
                    assert(text_lt(s0[i].0@, key@));
                } else if i < p {
                    assert(s1[j] == s0[j - 1]);
                    assert(text_lt(s0[i].0@, key@));
                    assert(p <= j - 1);
                    if p < j - 1 {
                        assert(text_lt(s0[p as int].0@, s0[j - 1].0@));
                        lemma_text_lt_transitive(key@, s0[p as int].0@, s0[j - 1].0@);
                    }
                    lemma_text_lt_transitive(s0[i].0@, key@, s0[j - 1].0@);
                } else if i == p {
                    assert(s1[j] == s0[j - 1]);
                    if p < j - 1 {
                        assert(text_lt(s0[p as int].0@, s0[j - 1].0@));
                        lemma_text_lt_transitive(key@, s0[p as int].0@, s0[j - 1].0@);
                    }
                } else {
                    assert(s1[j] == s0[j - 1]);
                    assert(s1[i] == s0[i - 1]);
                }
            }
            let m0 = entries_assoc(s0);
            let m1 = entries_assoc(s1);
            lemma_assoc_at(s1, p as int);
            assert forall|k2: Seq<char>| #[trigger] m1.dom().contains(k2) <==> m0.insert(
                key@,
                mv,
            ).dom().contains(k2) by {
                if has_key(s1, k2) {
                    let c = choose|j: int| 0 <= j < s1.len() && #[trigger] s1[j].0@ == k2;
                    if c < p {
                        assert(s0[c].0@ == k2);
                    } else if c > p {
                        assert(s0[c - 1].0@ == k2);
                    }
                }
                if has_key(s0, k2) {
                    let c = choose|j: int| 0 <= j < s0.len() && #[trigger] s0[j].0@ == k2;
                    if c < p {
                        assert(s1[c].0@ == k2);
                    } else {
                        assert(s1[c + 1].0@ == k2);
                    }
                }
            }
            assert forall|k2: Seq<char>| #[trigger] m1.dom().contains(k2) implies m1[k2] == m0.insert(
                key@,
                mv,
            )[k2] by {
                let c = choose|j: int| 0 <= j < s1.len() && #[trigger] s1[j].0@ == k2;
                lemma_assoc_at(s1, c);
                if c < p {
                    assert(s0[c] == s1[c]);
                    lemma_assoc_at(s0, c);
                } else if c > p {
                    assert(s0[c - 1] == s1[c]);
                    lemma_assoc_at(s0, c - 1);
                }
            }
            assert(m1 =~= m0.insert(key@, mv));
        }
    }
}

impl Value {
    /// A map built from pairs, in key order with each key once; where
    /// two pairs share a key, the later one's value stays.
    pub fn map(pairs: Vec<(&str, Value)>) -> (v: Value)
        ensures
            v is Object,
            keys_strictly_sorted(v->Object_0@),
            entries_assoc(v->Object_0@) == pairs_assoc(pairs@),
    {
        let ghost all = pairs@;
        assert(pairs.len() <= usize::MAX);
        let mut rest = pairs;
        let mut entries: Vec<(String, Value)> = Vec::new();
        let mut i: usize = 0;
        assert(entries_assoc(entries@) =~= pairs_assoc(all.take(0)));
        while rest.len() > 0
            invariant
                i + rest@.len() == all.len(),
                all.len() <= usize::MAX,
                rest@ == all.skip(i as int),
                keys_strictly_sorted(entries@),
                entries_assoc(entries@) == pairs_assoc(all.take(i as int)),
            decreases rest.len(),
        {
            let (key, value) = rest.remove(0);
            proof {
                assert(all.take(i + 1).drop_last() =~= all.take(i as int));
                assert(all.take(i + 1).last() == all[i as int]);
                assert(all[i as int] == (key, value));
            }
            put_entry(&mut entries, key, value);
            i += 1;
            assert(rest@ =~= all.skip(i as int));
        }
        assert(all.take(i as int) =~= all);
        Value::Object(entries)
    }

    /// A string value.
    pub fn text(value: &str) -> (v: Value)
        ensures
            v@ == Json::Text(value@),
            wf(v),
    {
        Value::Text(value.to_string())
    }

    /// A string value, or null where there is none.
    pub fn maybe(value: Option<&str>) -> (v: Value)
        ensures
            v@ == match value {
                Some(held) => Json::Text(held@),
                None => Json::Null,
            },
            wf(v),
    {
        match value {
            Some(held) => Value::Text(held.to_string()),
            None => Value::Null,
        }
    }
}

/// Encode one value as RFC 8785 canonical JSON.
///
/// Members of an object are written in the order of the UTF-16 code units
/// of their keys, which is what the RFC says and what a plain byte sort
/// gets wrong for anything outside the basic multilingual plane.
pub fn canonical(value: &Value) -> (out: String)
    ensures
        out@ == canonical_text(*value),
{
    let mut out = String::new();
    encode(value, &mut out);
    assert(out@ =~= canonical_text(*value));
    out
}

/// The digest of one canonical encoding.
pub fn fingerprint(value: &Value) -> (d: Sha256)
    ensures
        d@ == digest_text(vstd::utf8::encode_utf8(canonical_text(*value))),
{
    let text = canonical(value);
    Sha256::of(text.as_str().as_bytes())
}

} // verus!
