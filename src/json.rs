//! The JSON sub-encoder: renders any [`Value`] as JSON text into a borrowed
//! percent-encoding writer, so that it can run nested inside the form encoder.
use vstd::prelude::*;
use crate::error::{Error, ErrorKind, float_key_must_be_finite, key_must_be_string};
use crate::text::{escape_json, int_text, lemma_pct_append, lemma_pct_empty, pct};
use crate::value::{Value, seq_kind_name, seq_name};
use crate::write::{PercentEncoding, bool_text, byte_array};

verus! {

broadcast use {vstd::seq::group_seq_axioms, vstd::std_specs::vec::group_vec_axioms};

/// A JSON string literal: the escaped text between double quotes.
pub open spec fn quoted(s: Seq<char>) -> Seq<char> {
    seq!['"'] + escape_json(s) + seq!['"']
}

/// A string in JSON: quoted and escaped, except in top-level-value mode, where
/// the surrounding form syntax delimits it and it stands as it is.
pub open spec fn str_json(s: Seq<char>, top: bool) -> Seq<char> {
    if top {
        s
    } else {
        quoted(s)
    }
}

/// A float in JSON: its decimal text, or `null` when it is not finite.
pub open spec fn float_json(f: Option<String>) -> Seq<char> {
    match f {
        Some(t) => t@,
        None => "null"@,
    }
}

/// The comma before every element of a list but the first.
pub open spec fn comma_unless(first: bool) -> Seq<char> {
    if first {
        Seq::empty()
    } else {
        seq![',']
    }
}

/// The text of a key: strings, characters and unit variant names as they are
/// (JSON-escaped when `escaped`), numbers and booleans in decimal and literal form.
pub open spec fn key_text(k: Value, escaped: bool) -> Seq<char> {
    match k {
        Value::Str(s) => if escaped { escape_json(s@) } else { s@ },
        Value::Char(c) => if escaped { escape_json(seq![c]) } else { seq![c] },
        Value::UnitVariant(n) => if escaped { escape_json(n@) } else { n@ },
        Value::Bool(b) => bool_text(b),
        Value::Int(i, _) => int_text(i as int),
        Value::UInt(u, _) => int_text(u as int),
        Value::Float(Some(t), _) => t@,
        _ => Seq::empty(),
    }
}

/// Why a value cannot be a key, if it cannot.
pub open spec fn key_error(k: Value) -> Option<ErrorKind> {
    match k {
        Value::Str(_) | Value::Char(_) | Value::UnitVariant(_) | Value::Bool(_) | Value::Int(
            _,
            _,
        )
        | Value::UInt(_, _) | Value::Float(Some(_), _) => None,
        Value::Float(None, _) => Some(ErrorKind::FloatKeyMustBeFinite),
        Value::Unit => Some(ErrorKind::KeyMustBeAString("()"@)),
        Value::OptionNone => Some(ErrorKind::KeyMustBeAString("Option::<T>::None"@)),
        Value::UnitStruct => Some(ErrorKind::KeyMustBeAString("UnitStruct"@)),
        Value::Bytes(_) => Some(ErrorKind::KeyMustBeAString("bytes"@)),
        Value::Sequence(_, kind) => Some(ErrorKind::KeyMustBeAString(seq_kind_name(kind))),
        Value::Mapping(_) => Some(ErrorKind::KeyMustBeAString("Map"@)),
        Value::Record(_) => Some(ErrorKind::KeyMustBeAString("struct"@)),
        Value::NewtypeVariant(_, _) => Some(ErrorKind::KeyMustBeAString("NewtypeVariant"@)),
        Value::TupleVariant(_, _) => Some(ErrorKind::KeyMustBeAString("TupleVariant"@)),
        Value::StructVariant(_, _) => Some(ErrorKind::KeyMustBeAString("StructVariant"@)),
    }
}

/// An object member's key inside JSON: `"key":`.
pub open spec fn member_key(k: Seq<char>) -> Seq<char> {
    seq!['"'] + k + seq!['"', ':']
}

/// The JSON text of a value. In top-level-value mode a string (or character,
/// or unit variant name) stands unquoted; nested values are never in that mode.
pub open spec fn json_text(v: Value, top: bool) -> Seq<char>
    decreases v,
{
    match v {
        Value::Unit | Value::OptionNone | Value::UnitStruct => "null"@,
        Value::Bool(b) => bool_text(b),
        Value::Int(i, _) => int_text(i as int),
        Value::UInt(u, _) => int_text(u as int),
        Value::Float(f, _) => float_json(f),
        Value::Char(c) => str_json(seq![c], top),
        Value::Str(s) => str_json(s@, top),
        Value::Bytes(b) => byte_array(b@),
        Value::Sequence(items, _) => seq!['['] + json_items(items@, items@.len() as nat) + seq![
            ']',
        ],
        Value::Mapping(entries) => seq!['{'] + json_entries(entries@, entries@.len() as nat)
            + seq!['}'],
        Value::Record(fields) => seq!['{'] + json_fields(fields@, fields@.len() as nat) + seq![
            '}',
        ],
        Value::UnitVariant(n) => str_json(n@, top),
        Value::NewtypeVariant(n, x) => seq!['{'] + member_key(escape_json(n@)) + json_text(
            *x,
            false,
        ) + seq!['}'],
        Value::TupleVariant(n, items) => seq!['{'] + member_key(escape_json(n@)) + seq!['[']
            + json_items(items@, items@.len() as nat) + seq![']'] + seq!['}'],
        Value::StructVariant(n, fields) => seq!['{'] + member_key(escape_json(n@)) + seq!['{']
            + json_fields(fields@, fields@.len() as nat) + seq!['}'] + seq!['}'],
    }
}

/// The first `n` elements of a list in JSON, comma-separated.
pub open spec fn json_items(s: Seq<Value>, n: nat) -> Seq<char>
    decreases s, n,
{
    if n == 0 || n > s.len() {
        Seq::empty()
    } else {
        json_items(s, (n - 1) as nat) + comma_unless(n == 1) + json_text(s[n - 1], false)
    }
}

/// The first `n` pairs of a map as JSON object members, comma-separated.
pub open spec fn json_entries(s: Seq<(Value, Value)>, n: nat) -> Seq<char>
    decreases s, n,
{
    if n == 0 || n > s.len() {
        Seq::empty()
    } else {
        json_entries(s, (n - 1) as nat) + comma_unless(n == 1) + member_key(
            key_text(s[n - 1].0, true),
        ) + json_text(s[n - 1].1, false)
    }
}

/// The first `n` fields of a struct as JSON object members, comma-separated.
pub open spec fn json_fields(s: Seq<(String, Value)>, n: nat) -> Seq<char>
    decreases s, n,
{
    if n == 0 || n > s.len() {
        Seq::empty()
    } else {
        json_fields(s, (n - 1) as nat) + comma_unless(n == 1) + member_key(
            escape_json(s[n - 1].0@),
        ) + json_text(s[n - 1].1, false)
    }
}

/// The first error met when rendering a value as JSON: a bad map key.
pub open spec fn json_error(v: Value) -> Option<ErrorKind>
    decreases v,
{
    match v {
        Value::Sequence(items, _) => items_error(items@, items@.len() as nat),
        Value::TupleVariant(_, items) => items_error(items@, items@.len() as nat),
        Value::Mapping(entries) => entries_error(entries@, entries@.len() as nat),
        Value::Record(fields) => fields_error(fields@, fields@.len() as nat),
        Value::StructVariant(_, fields) => fields_error(fields@, fields@.len() as nat),
        Value::NewtypeVariant(_, x) => json_error(*x),
        _ => None,
    }
}

/// The first error among the first `n` elements of a list.
pub open spec fn items_error(s: Seq<Value>, n: nat) -> Option<ErrorKind>
    decreases s, n,
{
    if n == 0 || n > s.len() {
        None
    } else {
        match items_error(s, (n - 1) as nat) {
            Some(e) => Some(e),
            None => json_error(s[n - 1]),
        }
    }
}

/// The first error among the first `n` pairs of a map: each key, then its value.
pub open spec fn entries_error(s: Seq<(Value, Value)>, n: nat) -> Option<ErrorKind>
    decreases s, n,
{
    if n == 0 || n > s.len() {
        None
    } else {
        match entries_error(s, (n - 1) as nat) {
            Some(e) => Some(e),
            None => match key_error(s[n - 1].0) {
                Some(e) => Some(e),
                None => json_error(s[n - 1].1),
            },
        }
    }
}

/// The first error among the first `n` fields of a struct.
pub open spec fn fields_error(s: Seq<(String, Value)>, n: nat) -> Option<ErrorKind>
    decreases s, n,
{
    if n == 0 || n > s.len() {
        None
    } else {
        match fields_error(s, (n - 1) as nat) {
            Some(e) => Some(e),
            None => json_error(s[n - 1].1),
        }
    }
}

/// Once an error is met in a prefix of a list, longer prefixes report it too.
pub(crate) proof fn lemma_items_error_stays(s: Seq<Value>, i: nat, n: nat)
    requires
        i <= n <= s.len(),
        items_error(s, i) is Some,
    ensures
        items_error(s, n) == items_error(s, i),
    decreases n - i,
{
    if n > i {
        lemma_items_error_stays(s, i, (n - 1) as nat);
    }
}

pub(crate) proof fn lemma_entries_error_stays(s: Seq<(Value, Value)>, i: nat, n: nat)
    requires
        i <= n <= s.len(),
        entries_error(s, i) is Some,
    ensures
        entries_error(s, n) == entries_error(s, i),
    decreases n - i,
{
    if n > i {
        lemma_entries_error_stays(s, i, (n - 1) as nat);
    }
}

pub(crate) proof fn lemma_fields_error_stays(s: Seq<(String, Value)>, i: nat, n: nat)
    requires
        i <= n <= s.len(),
        fields_error(s, i) is Some,
    ensures
        fields_error(s, n) == fields_error(s, i),
    decreases n - i,
{
    if n > i {
        lemma_fields_error_stays(s, i, (n - 1) as nat);
    }
}

proof fn lemma_pct3(a: Seq<char>, b: Seq<char>, c: Seq<char>)
    ensures
        pct(a + b + c) == pct(a) + pct(b) + pct(c),
{
    lemma_pct_append(a, b);
    lemma_pct_append(a + b, c);
}

proof fn lemma_pct4(a: Seq<char>, b: Seq<char>, c: Seq<char>, d: Seq<char>)
    ensures
        pct(a + b + c + d) == pct(a) + pct(b) + pct(c) + pct(d),
{
    lemma_pct3(a, b, c);
    lemma_pct_append(a + b + c, d);
}

/// Writes a comma unless `first`.
fn write_comma_unless(out: &mut PercentEncoding, first: bool)
    ensures
        final(out)@ == old(out)@ + pct(comma_unless(first)),
{
    if !first {
        out.write_comma();
    } else {
        proof {
            lemma_pct_empty();
            assert(old(out)@ + pct(comma_unless(first)) =~= old(out)@);
        }
    }
}

/// Writes a string: as it is in top-level-value mode, else quoted and escaped.
fn write_string(out: &mut PercentEncoding, s: &str, top: bool)
    ensures
        final(out)@ == old(out)@ + pct(str_json(s@, top)),
{
    if top {
        out.write_str(s);
    } else {
        out.write_quote();
        out.write_escaped(s);
        out.write_quote();
        proof {
            lemma_pct3(seq!['"'], escape_json(s@), seq!['"']);
        }
    }
}

/// A one-character string.
fn char_string(c: char) -> (r: String)
    ensures
        r@ == seq![c],
{
    let mut s = String::new();
    s.push(c);
    proof {
        assert(s@ =~= seq![c]);
    }
    s
}

/// Writes an object member's key, `"name":`, for a name that is always a string.
fn write_member_name(out: &mut PercentEncoding, name: &str)
    ensures
        final(out)@ == old(out)@ + pct(member_key(escape_json(name@))),
{
    out.write_quote();
    out.write_escaped(name);
    out.write_quote();
    out.write_colon();
    proof {
        assert(member_key(escape_json(name@)) =~= seq!['"'] + escape_json(name@) + seq!['"']
            + seq![':']);
        lemma_pct4(seq!['"'], escape_json(name@), seq!['"'], seq![':']);
        lemma_pct_append(seq!['"'], seq![':']);
        assert(seq!['"', ':'] =~= seq!['"'] + seq![':']);
    }
}

/// Writes the text of a key, JSON-escaped when `escaped`; fails on a value that
/// cannot be a key.
pub(crate) fn write_key(out: &mut PercentEncoding, k: &Value, escaped: bool) -> (r: Result<
    (),
    Error,
>)
    ensures
        r is Ok <==> key_error(*k) is None,
        match r {
            Ok(_) => final(out)@ == old(out)@ + pct(key_text(*k, escaped)),
            Err(e) => key_error(*k) == Some(e@),
        },
{
    match k {
        Value::Str(s) => {
            if escaped {
                out.write_escaped(s.as_str());
            } else {
                out.write_str(s.as_str());
            }
            Ok(())
        },
        Value::Char(c) => {
            let s = char_string(*c);
            if escaped {
                out.write_escaped(s.as_str());
            } else {
                out.write_str(s.as_str());
            }
            Ok(())
        },
        Value::UnitVariant(n) => {
            if escaped {
                out.write_escaped(n.as_str());
            } else {
                out.write_str(n.as_str());
            }
            Ok(())
        },
        Value::Bool(b) => {
            out.write_bool(*b);
            Ok(())
        },
        Value::Int(i, _) => {
            out.write_integer(*i);
            Ok(())
        },
        Value::UInt(u, _) => {
            out.write_unsigned(*u);
            Ok(())
        },
        Value::Float(Some(t), _) => {
            out.write_str(t.as_str());
            Ok(())
        },
        Value::Float(None, _) => Err(float_key_must_be_finite()),
        Value::Unit => Err(key_must_be_string("()")),
        Value::OptionNone => Err(key_must_be_string("Option::<T>::None")),
        Value::UnitStruct => Err(key_must_be_string("UnitStruct")),
        Value::Bytes(_) => Err(key_must_be_string("bytes")),
        Value::Sequence(_, kind) => Err(key_must_be_string(seq_name(*kind))),
        Value::Mapping(_) => Err(key_must_be_string("Map")),
        Value::Record(_) => Err(key_must_be_string("struct")),
        Value::NewtypeVariant(_, _) => Err(key_must_be_string("NewtypeVariant")),
        Value::TupleVariant(_, _) => Err(key_must_be_string("TupleVariant")),
        Value::StructVariant(_, _) => Err(key_must_be_string("StructVariant")),
    }
}

/// Writes the JSON text of a value; `top` selects top-level-value mode.
#[verifier::rlimit(40)]
pub(crate) fn write_value(out: &mut PercentEncoding, v: &Value, top: bool) -> (r: Result<
    (),
    Error,
>)
    ensures
        r is Ok <==> json_error(*v) is None,
        match r {
            Ok(_) => final(out)@ == old(out)@ + pct(json_text(*v, top)),
            Err(e) => json_error(*v) == Some(e@),
        },
    decreases v, 0nat,
{
    match v {
        Value::Unit | Value::OptionNone | Value::UnitStruct => {
            out.write_null();
            Ok(())
        },
        Value::Bool(b) => {
            out.write_bool(*b);
            Ok(())
        },
        Value::Int(i, _) => {
            out.write_integer(*i);
            Ok(())
        },
        Value::UInt(u, _) => {
            out.write_unsigned(*u);
            Ok(())
        },
        Value::Float(f, _) => {
            match f {
                Some(t) => out.write_str(t.as_str()),
                None => out.write_null(),
            }
            Ok(())
        },
        Value::Char(c) => {
            let s = char_string(*c);
            write_string(out, s.as_str(), top);
            Ok(())
        },
        Value::Str(s) => {
            write_string(out, s.as_str(), top);
            Ok(())
        },
        Value::UnitVariant(n) => {
            write_string(out, n.as_str(), top);
            Ok(())
        },
        Value::Bytes(b) => {
            out.write_byte_array(b.as_slice());
            Ok(())
        },
        Value::Sequence(items, _) => {
            out.write_left_sq_bracket();
            write_items(out, items)?;
            out.write_right_sq_bracket();
            proof {
                lemma_pct3(seq!['['], json_items(items@, items@.len() as nat), seq![']']);
            }
            Ok(())
        },
        Value::Mapping(entries) => {
            out.write_left_bracket();
            write_entries(out, entries)?;
            out.write_right_bracket();
            proof {
                lemma_pct3(seq!['{'], json_entries(entries@, entries@.len() as nat), seq!['}']);
            }
            Ok(())
        },
        Value::Record(fields) => {
            out.write_left_bracket();
            write_fields(out, fields)?;
            out.write_right_bracket();
            proof {
                lemma_pct3(seq!['{'], json_fields(fields@, fields@.len() as nat), seq!['}']);
            }
            Ok(())
        },
        Value::NewtypeVariant(n, x) => {
            out.write_left_bracket();
            write_member_name(out, n.as_str());
            write_value(out, x, false)?;
            out.write_right_bracket();
            proof {
                lemma_pct4(
                    seq!['{'],
                    member_key(escape_json(n@)),
                    json_text(**x, false),
                    seq!['}'],
                );
            }
            Ok(())
        },
        Value::TupleVariant(n, items) => {
            out.write_left_bracket();
            write_member_name(out, n.as_str());
            out.write_left_sq_bracket();
            write_items(out, items)?;
            out.write_right_sq_bracket();
            out.write_right_bracket();
            proof {
                lemma_pct4(
                    seq!['{'],
                    member_key(escape_json(n@)),
                    seq!['['],
                    json_items(items@, items@.len() as nat),
                );
                lemma_pct3(
                    seq!['{'] + member_key(escape_json(n@)) + seq!['['] + json_items(
                        items@,
                        items@.len() as nat,
                    ),
                    seq![']'],
                    seq!['}'],
                );
            }
            Ok(())
        },
        Value::StructVariant(n, fields) => {
            out.write_left_bracket();
            write_member_name(out, n.as_str());
            out.write_left_bracket();
            write_fields(out, fields)?;
            out.write_right_bracket();
            out.write_right_bracket();
            proof {
                lemma_pct4(
                    seq!['{'],
                    member_key(escape_json(n@)),
                    seq!['{'],
                    json_fields(fields@, fields@.len() as nat),
                );
                lemma_pct3(
                    seq!['{'] + member_key(escape_json(n@)) + seq!['{'] + json_fields(
                        fields@,
                        fields@.len() as nat,
                    ),
                    seq!['}'],
                    seq!['}'],
                );
            }
            Ok(())
        },
    }
}

/// Writes the elements of a list, comma-separated.
pub(crate) fn write_items(out: &mut PercentEncoding, items: &Vec<Value>) -> (r: Result<(), Error>)
    ensures
        r is Ok <==> items_error(items@, items@.len() as nat) is None,
        match r {
            Ok(_) => final(out)@ == old(out)@ + pct(json_items(items@, items@.len() as nat)),
            Err(e) => items_error(items@, items@.len() as nat) == Some(e@),
        },
    decreases items, 0nat,
{
    let ghost start = out@;
    let mut i: usize = 0;
    proof {
        lemma_pct_empty();
    }
    while i < items.len()
        invariant
            0 <= i <= items@.len(),
            items_error(items@, i as nat) is None,
            out@ == start + pct(json_items(items@, i as nat)),
        decreases items@.len() - i,
    {
        write_comma_unless(out, i == 0);
        let res = write_value(out, &items[i], false);
        match res {
            Ok(_) => {},
            Err(e) => {
                proof {
                    lemma_items_error_stays(items@, (i + 1) as nat, items@.len() as nat);
                }
                return Err(e);
            },
        }
        proof {
            lemma_pct3(
                json_items(items@, i as nat),
                comma_unless(i == 0),
                json_text(items@[i as int], false),
            );
        }
        i = i + 1;
    }
    Ok(())
}

/// Writes one map entry as an object member, after a comma unless `first`.
fn write_member(out: &mut PercentEncoding, key: &Value, value: &Value, first: bool) -> (r: Result<
    (),
    Error,
>)
    ensures
        r is Ok <==> key_error(*key) is None && json_error(*value) is None,
        match r {
            Ok(_) => final(out)@ == old(out)@ + pct(
                comma_unless(first) + member_key(key_text(*key, true)) + json_text(*value, false),
            ),
            Err(e) => e@ == (if key_error(*key) is Some {
                key_error(*key)
            } else {
                json_error(*value)
            }).unwrap(),
        },
    decreases value, 1nat,
{
    write_comma_unless(out, first);
    out.write_quote();
    write_key(out, key, true)?;
    out.write_quote();
    out.write_colon();
    write_value(out, value, false)?;
    proof {
        let k = key_text(*key, true);
        assert(member_key(k) =~= seq!['"'] + k + seq!['"'] + seq![':']);
        lemma_pct4(seq!['"'], k, seq!['"'], seq![':']);
        lemma_pct3(comma_unless(first), member_key(k), json_text(*value, false));
    }
    Ok(())
}

/// Writes the pairs of a map as JSON object members, comma-separated.
pub(crate) fn write_entries(out: &mut PercentEncoding, entries: &Vec<(Value, Value)>) -> (r:
    Result<(), Error>)
    ensures
        r is Ok <==> entries_error(entries@, entries@.len() as nat) is None,
        match r {
            Ok(_) => final(out)@ == old(out)@ + pct(
                json_entries(entries@, entries@.len() as nat),
            ),
            Err(e) => entries_error(entries@, entries@.len() as nat) == Some(e@),
        },
    decreases entries, 0nat,
{
    let ghost start = out@;
    let mut i: usize = 0;
    proof {
        lemma_pct_empty();
    }
    while i < entries.len()
        invariant
            0 <= i <= entries@.len(),
            entries_error(entries@, i as nat) is None,
            out@ == start + pct(json_entries(entries@, i as nat)),
        decreases entries@.len() - i,
    {
        let entry = &entries[i];
        let res = write_member(out, &entry.0, &entry.1, i == 0);
        match res {
            Ok(_) => {},
            Err(e) => {
                proof {
                    lemma_entries_error_stays(entries@, (i + 1) as nat, entries@.len() as nat);
                }
                return Err(e);
            },
        }
        proof {
            let piece = comma_unless(i == 0) + member_key(key_text(entry.0, true)) + json_text(
                entry.1,
                false,
            );
            lemma_pct_append(json_entries(entries@, i as nat), piece);
            assert(json_entries(entries@, (i + 1) as nat) =~= json_entries(entries@, i as nat)
                + piece);
        }
        i = i + 1;
    }
    Ok(())
}

/// Writes the fields of a struct as JSON object members, comma-separated.
pub(crate) fn write_fields(out: &mut PercentEncoding, fields: &Vec<(String, Value)>) -> (r: Result<
    (),
    Error,
>)
    ensures
        r is Ok <==> fields_error(fields@, fields@.len() as nat) is None,
        match r {
            Ok(_) => final(out)@ == old(out)@ + pct(json_fields(fields@, fields@.len() as nat)),
            Err(e) => fields_error(fields@, fields@.len() as nat) == Some(e@),
        },
    decreases fields, 0nat,
{
    let ghost start = out@;
    let mut i: usize = 0;
    proof {
        lemma_pct_empty();
    }
    while i < fields.len()
        invariant
            0 <= i <= fields@.len(),
            fields_error(fields@, i as nat) is None,
            out@ == start + pct(json_fields(fields@, i as nat)),
        decreases fields@.len() - i,
    {
        let field = &fields[i];
        write_comma_unless(out, i == 0);
        write_member_name(out, field.0.as_str());
        let res = write_value(out, &field.1, false);
        match res {
            Ok(_) => {},
            Err(e) => {
                proof {
                    lemma_fields_error_stays(fields@, (i + 1) as nat, fields@.len() as nat);
                }
                return Err(e);
            },
        }
        proof {
            lemma_pct3(
                json_fields(fields@, i as nat),
                comma_unless(i == 0),
                member_key(escape_json(field.0@)),
            );
            lemma_pct_append(
                json_fields(fields@, i as nat) + comma_unless(i == 0) + member_key(
                    escape_json(field.0@),
                ),
                json_text(field.1, false),
            );
        }
        i = i + 1;
    }
    Ok(())
}

/// A JSON array being written, element by element: `[e1,e2,...]`.
pub struct SeqSerializer {
    output: PercentEncoding,
    is_first: bool,
}

impl View for SeqSerializer {
    /// The text written so far, and whether no element has been written yet.
    type V = (Seq<char>, bool);

    closed spec fn view(&self) -> (Seq<char>, bool) {
        (self.output@, self.is_first)
    }
}

impl SeqSerializer {
    /// Starts an array: writes `[`. The length hint is not needed.
    pub fn new(output: PercentEncoding, len: Option<usize>) -> (r: Self)
        ensures
            r@ == (output@ + pct(seq!['[']), true),
    {
        let mut output = output;
        output.write_left_sq_bracket();
        SeqSerializer { output, is_first: true }
    }

    /// Writes one element, after a comma unless it is the first.
    pub fn serialize_element(&mut self, value: &Value) -> (r: Result<(), Error>)
        ensures
            r is Ok <==> json_error(*value) is None,
            match r {
                Ok(_) => final(self)@ == (old(self)@.0 + pct(comma_unless(old(self)@.1)) + pct(
                    json_text(*value, false),
                ), false),
                Err(e) => json_error(*value) == Some(e@),
            },
    {
        write_comma_unless(&mut self.output, self.is_first);
        write_value(&mut self.output, value, false)?;
        self.is_first = false;
        Ok(())
    }

    /// Ends the array: writes `]` and hands the writer back.
    pub fn end(self) -> (r: PercentEncoding)
        ensures
            r@ == self@.0 + pct(seq![']']),
    {
        let mut output = self.output;
        output.write_right_sq_bracket();
        output
    }
}

/// A JSON object being written, member by member: `{"k1":v1,...}`.
/// Keys and values must be given in strict alternation.
pub struct MapSerializer {
    output: PercentEncoding,
    is_first: bool,
}

/// A struct's fields are written as an object's members.
pub type StructSerializer = MapSerializer;

impl View for MapSerializer {
    /// The text written so far, and whether no key has been written yet.
    type V = (Seq<char>, bool);

    closed spec fn view(&self) -> (Seq<char>, bool) {
        (self.output@, self.is_first)
    }
}

impl MapSerializer {
    /// Starts an object: writes `{`. The length hint is not needed.
    pub fn new(output: PercentEncoding, len: Option<usize>) -> (r: Self)
        ensures
            r@ == (output@ + pct(seq!['{']), true),
    {
        let mut output = output;
        output.write_left_bracket();
        MapSerializer { output, is_first: true }
    }

    /// Writes a member's key, quoted and escaped, then `:`; after a comma unless
    /// it is the first. Fails on a value that cannot be a key.
    pub fn serialize_key(&mut self, key: &Value) -> (r: Result<(), Error>)
        ensures
            r is Ok <==> key_error(*key) is None,
            match r {
                Ok(_) => final(self)@ == (old(self)@.0 + pct(comma_unless(old(self)@.1)) + pct(
                    member_key(key_text(*key, true)),
                ), false),
                Err(e) => key_error(*key) == Some(e@),
            },
    {
        write_comma_unless(&mut self.output, self.is_first);
        self.output.write_quote();
        write_key(&mut self.output, key, true)?;
        self.output.write_quote();
        self.output.write_colon();
        self.is_first = false;
        proof {
            let k = key_text(*key, true);
            assert(member_key(k) =~= seq!['"'] + k + seq!['"'] + seq![':']);
            lemma_pct4(seq!['"'], k, seq!['"'], seq![':']);
        }
        Ok(())
    }

    /// Writes a member's value.
    pub fn serialize_value(&mut self, value: &Value) -> (r: Result<(), Error>)
        ensures
            r is Ok <==> json_error(*value) is None,
            match r {
                Ok(_) => final(self)@ == (old(self)@.0 + pct(json_text(*value, false)), old(
                    self,
                )@.1),
                Err(e) => json_error(*value) == Some(e@),
            },
    {
        write_value(&mut self.output, value, false)
    }

    /// Writes a member: its key, then its value.
    pub fn serialize_entry(&mut self, key: &Value, value: &Value) -> (r: Result<(), Error>)
        ensures
            r is Ok <==> key_error(*key) is None && json_error(*value) is None,
            match r {
                Ok(_) => final(self)@ == (old(self)@.0 + pct(comma_unless(old(self)@.1)) + pct(
                    member_key(key_text(*key, true)),
                ) + pct(json_text(*value, false)), false),
                Err(e) => e@ == (if key_error(*key) is Some {
                    key_error(*key)
                } else {
                    json_error(*value)
                }).unwrap(),
            },
    {
        self.serialize_key(key)?;
        self.serialize_value(value)
    }

    /// Writes a struct field as a member: its name, quoted and escaped, then its value.
    pub fn serialize_field(&mut self, key: &str, value: &Value) -> (r: Result<(), Error>)
        ensures
            r is Ok <==> json_error(*value) is None,
            match r {
                Ok(_) => final(self)@ == (old(self)@.0 + pct(comma_unless(old(self)@.1)) + pct(
                    member_key(escape_json(key@)),
                ) + pct(json_text(*value, false)), false),
                Err(e) => json_error(*value) == Some(e@),
            },
    {
        write_comma_unless(&mut self.output, self.is_first);
        write_member_name(&mut self.output, key);
        self.is_first = false;
        write_value(&mut self.output, value, false)
    }

    /// Ends the object: writes `}` and hands the writer back.
    pub fn end(self) -> (r: PercentEncoding)
        ensures
            r@ == self@.0 + pct(seq!['}']),
    {
        let mut output = self.output;
        output.write_right_bracket();
        output
    }
}

/// An enum tuple variant nested in JSON: `{"Variant":[a,b]}`.
pub struct TupleVariantSerializer {
    inner: SeqSerializer,
}

impl View for TupleVariantSerializer {
    type V = (Seq<char>, bool);

    closed spec fn view(&self) -> (Seq<char>, bool) {
        self.inner@
    }
}

impl TupleVariantSerializer {
    /// Starts the variant: writes `{"Variant":[`.
    pub fn new(output: PercentEncoding, variant: &str, len: usize) -> (r: Self)
        ensures
            r@ == (output@ + pct(seq!['{']) + pct(member_key(escape_json(variant@))) + pct(
                seq!['['],
            ), true),
    {
        let mut output = output;
        output.write_left_bracket();
        write_member_name(&mut output, variant);
        TupleVariantSerializer { inner: SeqSerializer::new(output, Some(len)) }
    }

    /// Writes one element of the variant's data.
    pub fn serialize_field(&mut self, value: &Value) -> (r: Result<(), Error>)
        ensures
            r is Ok <==> json_error(*value) is None,
            match r {
                Ok(_) => final(self)@ == (old(self)@.0 + pct(comma_unless(old(self)@.1)) + pct(
                    json_text(*value, false),
                ), false),
                Err(e) => json_error(*value) == Some(e@),
            },
    {
        self.inner.serialize_element(value)
    }

    /// Ends the variant: writes `]}` and hands the writer back.
    pub fn end(self) -> (r: PercentEncoding)
        ensures
            r@ == self@.0 + pct(seq![']']) + pct(seq!['}']),
    {
        let mut output = self.inner.end();
        output.write_right_bracket();
        output
    }
}

/// An enum struct variant nested in JSON: `{"Variant":{"a":1,"b":2}}`.
pub struct StructVariantSerializer {
    inner: StructSerializer,
}

impl View for StructVariantSerializer {
    type V = (Seq<char>, bool);

    closed spec fn view(&self) -> (Seq<char>, bool) {
        self.inner@
    }
}

impl StructVariantSerializer {
    /// Starts the variant: writes `{"Variant":{`.
    pub fn new(output: PercentEncoding, variant: &str, len: usize) -> (r: Self)
        ensures
            r@ == (output@ + pct(seq!['{']) + pct(member_key(escape_json(variant@))) + pct(
                seq!['{'],
            ), true),
    {
        let mut output = output;
        output.write_left_bracket();
        write_member_name(&mut output, variant);
        StructVariantSerializer { inner: MapSerializer::new(output, Some(len)) }
    }

    /// Writes one field of the variant.
    pub fn serialize_field(&mut self, key: &str, value: &Value) -> (r: Result<(), Error>)
        ensures
            r is Ok <==> json_error(*value) is None,
            match r {
                Ok(_) => final(self)@ == (old(self)@.0 + pct(comma_unless(old(self)@.1)) + pct(
                    member_key(escape_json(key@)),
                ) + pct(json_text(*value, false)), false),
                Err(e) => json_error(*value) == Some(e@),
            },
    {
        self.inner.serialize_field(key, value)
    }

    /// Ends the variant: writes `}}` and hands the writer back.
    pub fn end(self) -> (r: PercentEncoding)
        ensures
            r@ == self@.0 + pct(seq!['}']) + pct(seq!['}']),
    {
        let mut output = self.inner.end();
        output.write_right_bracket();
        output
    }
}

/// Renders one value as JSON into a writer it holds.
pub struct JsonSerializer {
    pub output: PercentEncoding,
    /// In top-level-value mode strings are written unquoted and unescaped.
    pub is_top_level_value: bool,
}

impl JsonSerializer {
    /// Writes the value's JSON text and hands the writer back.
    pub fn serialize(self, value: &Value) -> (r: Result<PercentEncoding, Error>)
        ensures
            r is Ok <==> json_error(*value) is None,
            match r {
                Ok(w) => w@ == self.output@ + pct(json_text(*value, self.is_top_level_value)),
                Err(e) => json_error(*value) == Some(e@),
            },
    {
        let mut output = self.output;
        write_value(&mut output, value, self.is_top_level_value)?;
        Ok(output)
    }
}

/// Writes one key, unquoted, into a writer it holds; `escaped` selects JSON
/// escaping of its text.
pub struct KeySerializerNoQuotes {
    pub output: PercentEncoding,
    pub escaped: bool,
}

impl KeySerializerNoQuotes {
    /// Writes the key's text and hands the writer back. Fails on a value that
    /// cannot be a key.
    pub fn serialize(self, key: &Value) -> (r: Result<PercentEncoding, Error>)
        ensures
            r is Ok <==> key_error(*key) is None,
            match r {
                Ok(w) => w@ == self.output@ + pct(key_text(*key, self.escaped)),
                Err(e) => key_error(*key) == Some(e@),
            },
    {
        let mut output = self.output;
        write_key(&mut output, key, self.escaped)?;
        Ok(output)
    }
}

} // verus!
