//! A serializer for the "form + JSON" wire format: a `key=value&key=value` body
//! in which every key is percent-encoded text and every value is JSON text,
//! percent-encoded.
//!
//! The top-level value must be shaped like a set of key-value pairs: a struct,
//! a map, or an enum variant that holds data (its name becomes the key). A
//! top-level unit or absent value gives an empty body. Keys are never quoted;
//! a string that is a pair's whole value is not quoted either, since the form
//! syntax delimits it. Everything else is rendered as JSON.
use vstd::prelude::*;

pub mod error;
pub mod json;
pub mod laws;
pub mod text;
pub mod value;
pub mod write;

use crate::error::{Error, ErrorKind, top_level_must_be_object};
use crate::json::{
    entries_error, fields_error, items_error, json_error, json_fields, json_items, json_text,
    key_error, key_text, write_fields, write_items, write_key, write_value,
};
use crate::text::{lemma_pct_append, pct};
use crate::value::{
    Value, float_name, float_type_name, int_name, int_type_name, seq_kind_name, seq_name,
};
use crate::write::PercentEncoding;
use vstd::utf8::encode_utf8;

verus! {

broadcast use {vstd::seq::group_seq_axioms, vstd::std_specs::vec::group_vec_axioms};

/// One `key=value` pair of the body, after `&` unless it is the first: the key
/// and the value's JSON text, each percent-encoded.
pub open spec fn form_pair(key: Seq<char>, value: Seq<char>, first: bool) -> Seq<char> {
    (if first {
        Seq::empty()
    } else {
        seq!['&']
    }) + pct(key) + seq!['='] + pct(value)
}

/// The pairs for the first `n` entries of a map.
pub open spec fn form_entries(s: Seq<(Value, Value)>, n: nat, first: bool) -> Seq<char>
    decreases n,
{
    if n == 0 || n > s.len() {
        Seq::empty()
    } else {
        form_entries(s, (n - 1) as nat, first) + form_pair(
            key_text(s[n - 1].0, false),
            json_text(s[n - 1].1, true),
            first && n == 1,
        )
    }
}

/// The pairs for the first `n` fields of a struct.
pub open spec fn form_fields(s: Seq<(String, Value)>, n: nat, first: bool) -> Seq<char>
    decreases n,
{
    if n == 0 || n > s.len() {
        Seq::empty()
    } else {
        form_fields(s, (n - 1) as nat, first) + form_pair(
            s[n - 1].0@,
            json_text(s[n - 1].1, true),
            first && n == 1,
        )
    }
}

/// The body for a top-level value; `first` says whether no pair precedes it.
pub open spec fn form_text(v: Value, first: bool) -> Seq<char> {
    match v {
        Value::Mapping(entries) => form_entries(entries@, entries@.len() as nat, first),
        Value::Record(fields) => form_fields(fields@, fields@.len() as nat, first),
        Value::NewtypeVariant(n, x) => form_pair(n@, json_text(*x, true), first),
        Value::TupleVariant(n, items) => form_pair(
            n@,
            seq!['['] + json_items(items@, items@.len() as nat) + seq![']'],
            first,
        ),
        Value::StructVariant(n, fields) => form_pair(
            n@,
            seq!['{'] + json_fields(fields@, fields@.len() as nat) + seq!['}'],
            first,
        ),
        _ => Seq::empty(),
    }
}

/// How many pairs a top-level value gives.
pub open spec fn form_pair_count(v: Value) -> nat {
    match v {
        Value::Mapping(entries) => entries@.len(),
        Value::Record(fields) => fields@.len(),
        Value::NewtypeVariant(_, _) | Value::TupleVariant(_, _) | Value::StructVariant(_, _) => 1,
        _ => 0,
    }
}

/// Why a top-level value cannot be encoded, if it cannot: a shape that is not
/// key-value-capable, or the first bad map key within it.
pub open spec fn form_error(v: Value) -> Option<ErrorKind> {
    match v {
        Value::Unit | Value::OptionNone | Value::UnitStruct => None,
        Value::Bool(_) => Some(ErrorKind::NotAnObject("bool"@)),
        Value::Int(_, w) => Some(ErrorKind::NotAnObject(int_type_name(w, true))),
        Value::UInt(_, w) => Some(ErrorKind::NotAnObject(int_type_name(w, false))),
        Value::Float(_, w) => Some(ErrorKind::NotAnObject(float_type_name(w))),
        Value::Char(_) => Some(ErrorKind::NotAnObject("char"@)),
        Value::Str(_) => Some(ErrorKind::NotAnObject("str"@)),
        Value::Bytes(_) => Some(ErrorKind::NotAnObject("bytes"@)),
        Value::UnitVariant(_) => Some(ErrorKind::NotAnObject("UnitVariant"@)),
        Value::Sequence(_, kind) => Some(ErrorKind::NotAnObject(seq_kind_name(kind))),
        Value::Mapping(entries) => entries_error(entries@, entries@.len() as nat),
        Value::Record(fields) => fields_error(fields@, fields@.len() as nat),
        Value::NewtypeVariant(_, x) => json_error(*x),
        Value::TupleVariant(_, items) => items_error(items@, items@.len() as nat),
        Value::StructVariant(_, fields) => fields_error(fields@, fields@.len() as nat),
    }
}

/// A top-level value whose shape is not key-value-capable: a scalar (other than
/// a unit or absent value), a sequence, or an enum variant without data.
pub open spec fn is_rejected_root(v: Value) -> bool {
    match v {
        Value::Bool(_) | Value::Int(_, _) | Value::UInt(_, _) | Value::Float(_, _) | Value::Char(_)
        | Value::Str(_) | Value::Bytes(_) | Value::UnitVariant(_) | Value::Sequence(_, _) => true,
        _ => false,
    }
}

/// The form body of a value, or why it has none.
pub open spec fn encode_spec(v: Value) -> Result<Seq<char>, ErrorKind> {
    match form_error(v) {
        Some(e) => Err(e),
        None => Ok(form_text(v, true)),
    }
}

/// The top-level serializer: writes `key=value` pairs, joined by `&`, into the
/// destination it holds.
pub struct Serializer {
    output: PercentEncoding,
    is_first: bool,
}

impl View for Serializer {
    /// The text written so far, and whether no pair has been written yet.
    type V = (Seq<char>, bool);

    closed spec fn view(&self) -> (Seq<char>, bool) {
        (self.output@, self.is_first)
    }
}

impl Serializer {
    /// A serializer appending to `writer`.
    pub fn new(writer: String) -> (r: Self)
        ensures
            r@ == (writer@, true),
    {
        Serializer { output: PercentEncoding::new(writer), is_first: true }
    }

    /// The destination, with everything written so far.
    pub fn into_inner(self) -> (r: String)
        ensures
            r@ == self@.0,
    {
        self.output.into_inner()
    }

    /// Writes `&` unless this is the first pair, then the key, percent-encoded,
    /// then `=`. Fails on a value that cannot be a key.
    pub fn serialize_key(&mut self, key: &Value) -> (r: Result<(), Error>)
        ensures
            r is Ok <==> key_error(*key) is None,
            match r {
                Ok(_) => final(self)@ == (old(self)@.0 + (if old(self)@.1 {
                    Seq::empty()
                } else {
                    seq!['&']
                }) + pct(key_text(*key, false)) + seq!['='], old(self)@.1),
                Err(e) => key_error(*key) == Some(e@),
            },
    {
        if !self.is_first {
            proof {
                reveal_strlit("&");
            }
            self.output.write_raw("&");
        } else {
            assert(self.output@ + Seq::<char>::empty() =~= self.output@);
        }
        write_key(&mut self.output, key, false)?;
        proof {
            reveal_strlit("=");
        }
        self.output.write_raw("=");
        Ok(())
    }

    /// Writes a pair's value as JSON text in top-level-value mode, percent-encoded.
    pub fn serialize_value(&mut self, value: &Value) -> (r: Result<(), Error>)
        ensures
            r is Ok <==> json_error(*value) is None,
            match r {
                Ok(_) => final(self)@ == (old(self)@.0 + pct(json_text(*value, true)), false),
                Err(e) => json_error(*value) == Some(e@),
            },
    {
        write_value(&mut self.output, value, true)?;
        self.is_first = false;
        Ok(())
    }

    /// Writes a pair: its key, then its value.
    pub fn serialize_entry(&mut self, key: &Value, value: &Value) -> (r: Result<(), Error>)
        ensures
            r is Ok <==> key_error(*key) is None && json_error(*value) is None,
            match r {
                Ok(_) => final(self)@ == (old(self)@.0 + form_pair(
                    key_text(*key, false),
                    json_text(*value, true),
                    old(self)@.1,
                ), false),
                Err(e) => e@ == (if key_error(*key) is Some {
                    key_error(*key)
                } else {
                    json_error(*value)
                }).unwrap(),
            },
    {
        self.serialize_key(key)?;
        self.serialize_value(value)
    }

    /// Writes a struct field as a pair named by the field.
    pub fn serialize_field(&mut self, key: &str, value: &Value) -> (r: Result<(), Error>)
        ensures
            r is Ok <==> json_error(*value) is None,
            match r {
                Ok(_) => final(self)@ == (old(self)@.0 + form_pair(
                    key@,
                    json_text(*value, true),
                    old(self)@.1,
                ), false),
                Err(e) => json_error(*value) == Some(e@),
            },
    {
        if !self.is_first {
            proof {
                reveal_strlit("&");
            }
            self.output.write_raw("&");
        } else {
            assert(self.output@ + Seq::<char>::empty() =~= self.output@);
        }
        self.output.write_str(key);
        proof {
            reveal_strlit("=");
        }
        self.output.write_raw("=");
        self.serialize_value(value)
    }

    /// Writes the pairs of a top-level value: a map's entries, a struct's fields,
    /// or one pair named by a data-holding enum variant. A unit or absent value
    /// writes nothing; any other shape is rejected before anything is written.
    #[verifier::rlimit(40)]
    pub fn serialize(&mut self, value: &Value) -> (r: Result<(), Error>)
        ensures
            r is Ok <==> form_error(*value) is None,
            match r {
                Ok(_) => final(self)@ == (old(self)@.0 + form_text(*value, old(self)@.1), old(
                    self,
                )@.1 && form_pair_count(*value) == 0),
                Err(e) => form_error(*value) == Some(e@),
            },
            is_rejected_root(*value) ==> final(self)@ == old(self)@,
    {
        match value {
            Value::Unit | Value::OptionNone | Value::UnitStruct => {
                assert(self.output@ + Seq::<char>::empty() =~= self.output@);
                Ok(())
            },
            Value::Bool(_) => Err(top_level_must_be_object("bool")),
            Value::Int(_, w) => Err(top_level_must_be_object(int_name(*w, true))),
            Value::UInt(_, w) => Err(top_level_must_be_object(int_name(*w, false))),
            Value::Float(_, w) => Err(top_level_must_be_object(float_name(*w))),
            Value::Char(_) => Err(top_level_must_be_object("char")),
            Value::Str(_) => Err(top_level_must_be_object("str")),
            Value::Bytes(_) => Err(top_level_must_be_object("bytes")),
            Value::UnitVariant(_) => Err(top_level_must_be_object("UnitVariant")),
            Value::Sequence(_, kind) => Err(top_level_must_be_object(seq_name(*kind))),
            Value::Mapping(entries) => self.serialize_entries(entries),
            Value::Record(fields) => self.serialize_fields(fields),
            Value::NewtypeVariant(n, x) => self.serialize_field(n.as_str(), x),
            Value::TupleVariant(n, items) => {
                self.write_pair_key(n.as_str());
                self.output.write_left_sq_bracket();
                write_items(&mut self.output, items)?;
                self.output.write_right_sq_bracket();
                self.is_first = false;
                proof {
                    let body = json_items(items@, items@.len() as nat);
                    lemma_pct_append(seq!['['], body);
                    lemma_pct_append(seq!['['] + body, seq![']']);
                }
                Ok(())
            },
            Value::StructVariant(n, fields) => {
                self.write_pair_key(n.as_str());
                self.output.write_left_bracket();
                write_fields(&mut self.output, fields)?;
                self.output.write_right_bracket();
                self.is_first = false;
                proof {
                    let body = json_fields(fields@, fields@.len() as nat);
                    lemma_pct_append(seq!['{'], body);
                    lemma_pct_append(seq!['{'] + body, seq!['}']);
                }
                Ok(())
            },
        }
    }

    /// Writes `&` unless this is the first pair, then a name as a pair's key, then `=`.
    fn write_pair_key(&mut self, name: &str)
        ensures
            final(self)@ == (old(self)@.0 + (if old(self)@.1 {
                Seq::empty()
            } else {
                seq!['&']
            }) + pct(name@) + seq!['='], old(self)@.1),
    {
        if !self.is_first {
            proof {
                reveal_strlit("&");
            }
            self.output.write_raw("&");
        } else {
            assert(self.output@ + Seq::<char>::empty() =~= self.output@);
        }
        self.output.write_str(name);
        proof {
            reveal_strlit("=");
        }
        self.output.write_raw("=");
    }

    /// Writes a map's entries as pairs.
    fn serialize_entries(&mut self, entries: &Vec<(Value, Value)>) -> (r: Result<(), Error>)
        ensures
            r is Ok <==> entries_error(entries@, entries@.len() as nat) is None,
            match r {
                Ok(_) => final(self)@ == (old(self)@.0 + form_entries(
                    entries@,
                    entries@.len() as nat,
                    old(self)@.1,
                ), old(self)@.1 && entries@.len() == 0),
                Err(e) => entries_error(entries@, entries@.len() as nat) == Some(e@),
            },
    {
        let ghost start = self@;
        let mut i: usize = 0;
        while i < entries.len()
            invariant
                0 <= i <= entries@.len(),
                entries_error(entries@, i as nat) is None,
                self@ == (start.0 + form_entries(entries@, i as nat, start.1), start.1 && i == 0),
            decreases entries@.len() - i,
        {
            let entry = &entries[i];
            let res = self.serialize_entry(&entry.0, &entry.1);
            match res {
                Ok(_) => {},
                Err(e) => {
                    proof {
                        json::lemma_entries_error_stays(
                            entries@,
                            (i + 1) as nat,
                            entries@.len() as nat,
                        );
                    }
                    return Err(e);
                },
            }
            i = i + 1;
        }
        Ok(())
    }

    /// Writes a struct's fields as pairs.
    fn serialize_fields(&mut self, fields: &Vec<(String, Value)>) -> (r: Result<(), Error>)
        ensures
            r is Ok <==> fields_error(fields@, fields@.len() as nat) is None,
            match r {
                Ok(_) => final(self)@ == (old(self)@.0 + form_fields(
                    fields@,
                    fields@.len() as nat,
                    old(self)@.1,
                ), old(self)@.1 && fields@.len() == 0),
                Err(e) => fields_error(fields@, fields@.len() as nat) == Some(e@),
            },
    {
        let ghost start = self@;
        let mut i: usize = 0;
        while i < fields.len()
            invariant
                0 <= i <= fields@.len(),
                fields_error(fields@, i as nat) is None,
                self@ == (start.0 + form_fields(fields@, i as nat, start.1), start.1 && i == 0),
            decreases fields@.len() - i,
        {
            let field = &fields[i];
            let res = self.serialize_field(field.0.as_str(), &field.1);
            match res {
                Ok(_) => {},
                Err(e) => {
                    proof {
                        json::lemma_fields_error_stays(
                            fields@,
                            (i + 1) as nat,
                            fields@.len() as nat,
                        );
                    }
                    return Err(e);
                },
            }
            i = i + 1;
        }
        Ok(())
    }

    /// Starts a top-level tuple variant: writes its pair's key and `=`, then
    /// opens the JSON array that holds its data.
    pub fn serialize_tuple_variant(self, variant: &str, len: usize) -> (r: TupleVariantSerializer)
        ensures
            r@ == (self@.0 + (if self@.1 {
                Seq::empty()
            } else {
                seq!['&']
            }) + pct(variant@) + seq!['='] + pct(seq!['[']), true),
    {
        let mut s = self;
        if !s.is_first {
            proof {
                reveal_strlit("&");
            }
            s.output.write_raw("&");
        } else {
            assert(s.output@ + Seq::<char>::empty() =~= s.output@);
        }
        s.output.write_str(variant);
        proof {
            reveal_strlit("=");
        }
        s.output.write_raw("=");
        TupleVariantSerializer { inner: json::SeqSerializer::new(s.output, Some(len)) }
    }

    /// Starts a top-level struct variant: writes its pair's key and `=`, then
    /// opens the JSON object that holds its fields.
    pub fn serialize_struct_variant(self, variant: &str, len: usize) -> (r:
        StructVariantSerializer)
        ensures
            r@ == (self@.0 + (if self@.1 {
                Seq::empty()
            } else {
                seq!['&']
            }) + pct(variant@) + seq!['='] + pct(seq!['{']), true),
    {
        let mut s = self;
        if !s.is_first {
            proof {
                reveal_strlit("&");
            }
            s.output.write_raw("&");
        } else {
            assert(s.output@ + Seq::<char>::empty() =~= s.output@);
        }
        s.output.write_str(variant);
        proof {
            reveal_strlit("=");
        }
        s.output.write_raw("=");
        StructVariantSerializer { inner: json::MapSerializer::new(s.output, Some(len)) }
    }
}

/// A top-level tuple variant being written: `Variant=[a,b]`, percent-encoded.
pub struct TupleVariantSerializer {
    inner: json::SeqSerializer,
}

impl View for TupleVariantSerializer {
    type V = (Seq<char>, bool);

    closed spec fn view(&self) -> (Seq<char>, bool) {
        self.inner@
    }
}

impl TupleVariantSerializer {
    /// Writes one element of the variant's data.
    pub fn serialize_field(&mut self, value: &Value) -> (r: Result<(), Error>)
        ensures
            r is Ok <==> json_error(*value) is None,
            match r {
                Ok(_) => final(self)@ == (old(self)@.0 + pct(json::comma_unless(old(self)@.1))
                    + pct(json_text(*value, false)), false),
                Err(e) => json_error(*value) == Some(e@),
            },
    {
        self.inner.serialize_element(value)
    }

    /// Closes the array and hands the destination back.
    pub fn end(self) -> (r: String)
        ensures
            r@ == self@.0 + pct(seq![']']),
    {
        self.inner.end().into_inner()
    }
}

/// A top-level struct variant being written: `Variant={"a":1}`, percent-encoded.
pub struct StructVariantSerializer {
    inner: json::StructSerializer,
}

impl View for StructVariantSerializer {
    type V = (Seq<char>, bool);

    closed spec fn view(&self) -> (Seq<char>, bool) {
        self.inner@
    }
}

impl StructVariantSerializer {
    /// Writes one field of the variant.
    pub fn serialize_field(&mut self, key: &str, value: &Value) -> (r: Result<(), Error>)
        ensures
            r is Ok <==> json_error(*value) is None,
            match r {
                Ok(_) => final(self)@ == (old(self)@.0 + pct(json::comma_unless(old(self)@.1))
                    + pct(json::member_key(text::escape_json(key@))) + pct(
                    json_text(*value, false),
                ), false),
                Err(e) => json_error(*value) == Some(e@),
            },
    {
        self.inner.serialize_field(key, value)
    }

    /// Closes the object and hands the destination back.
    pub fn end(self) -> (r: String)
        ensures
            r@ == self@.0 + pct(seq!['}']),
    {
        self.inner.end().into_inner()
    }
}

/// Encodes a value, appending the body to `writer`. On an error, what was
/// written before it stays in `writer`.
pub fn to_writer(writer: &mut String, value: &Value) -> (r: Result<(), Error>)
    ensures
        r is Ok <==> form_error(*value) is None,
        match r {
            Ok(_) => final(writer)@ == old(writer)@ + form_text(*value, true),
            Err(e) => form_error(*value) == Some(e@),
        },
        is_rejected_root(*value) ==> final(writer)@ == old(writer)@,
{
    let mut taken = String::new();
    std::mem::swap(&mut taken, writer);
    let mut ser = Serializer::new(taken);
    let r = ser.serialize(value);
    let mut out = ser.into_inner();
    std::mem::swap(&mut out, writer);
    r
}

/// Encodes a value into a new string.
pub fn to_string(value: &Value) -> (r: Result<String, Error>)
    ensures
        match r {
            Ok(s) => encode_spec(*value) == Ok::<Seq<char>, ErrorKind>(s@),
            Err(e) => encode_spec(*value) == Err::<Seq<char>, ErrorKind>(e@),
        },
{
    let mut ser = Serializer::new(String::new());
    match ser.serialize(value) {
        Ok(_) => Ok(ser.into_inner()),
        Err(e) => Err(e),
    }
}

/// Encodes a value into the bytes of its body.
pub fn to_vec(value: &Value) -> (r: Result<Vec<u8>, Error>)
    ensures
        match r {
            Ok(b) => encode_spec(*value) is Ok && b@ == encode_utf8(encode_spec(*value)->Ok_0),
            Err(e) => encode_spec(*value) == Err::<Seq<char>, ErrorKind>(e@),
        },
{
    let s = to_string(value)?;
    Ok(vstd::slice::slice_to_vec(s.as_str().as_bytes()))
}

/// A value ready to be rendered as its form body on demand.
pub struct DisplaySerializer<'a> {
    value: &'a Value,
}

/// Wraps a value so that its body can be rendered where a message is built.
pub fn display<'a>(value: &'a Value) -> (r: DisplaySerializer<'a>)
    ensures
        r.value() == *value,
{
    DisplaySerializer { value }
}

impl<'a> DisplaySerializer<'a> {
    /// The wrapped value.
    pub closed spec fn value(&self) -> Value {
        *self.value
    }

    /// The body of the wrapped value.
    pub fn to_string(&self) -> (r: Result<String, Error>)
        ensures
            match r {
                Ok(s) => encode_spec(self.value()) == Ok::<Seq<char>, ErrorKind>(s@),
                Err(e) => encode_spec(self.value()) == Err::<Seq<char>, ErrorKind>(e@),
            },
    {
        to_string(self.value)
    }
}

} // verus!
