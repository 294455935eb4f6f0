//! Laws of the encoding as a whole, proved from the contracts of the
//! encoder's functions.
use vstd::prelude::*;
use crate::error::ErrorKind;
use crate::json::{
    entries_error, fields_error, json_error, json_text, key_error, key_text, lemma_entries_error_stays, quoted,
};
use crate::value::Value;
use crate::text::{
    decode_text, escape_json, free_of, lemma_decode_pct, lemma_unescape_escape, unescape_json, lemma_pct_free_of_separators, lemma_split_on_append,
    lemma_split_on_free, pct, split_on,
};
use crate::{encode_spec, form_entries, form_error, form_fields, form_pair, form_text};

verus! {

/// Encoding is deterministic: two runs of `to_string` on the same value, each
/// described by its contract, give the same body or the same error.
pub proof fn encode_is_deterministic(
    v: Value,
    first: Result<Seq<char>, ErrorKind>,
    second: Result<Seq<char>, ErrorKind>,
)
    requires
        first == encode_spec(v),
        second == encode_spec(v),
    ensures
        first == second,
{
}

/// A non-finite float renders as `null` wherever it stands in JSON, but as a
/// map key it is an error.
pub proof fn non_finite_float_is_null_but_not_a_key(v: Value, top: bool)
    requires
        v matches Value::Float(None, _),
    ensures
        json_text(v, top) == "null"@,
        key_error(v) == Some(ErrorKind::FloatKeyMustBeFinite),
{
}

/// A top-level map whose first key is a non-finite float fails with
/// `FloatKeyMustBeFinite`, whatever follows.
pub proof fn non_finite_first_key_fails(v: Value)
    requires
        v matches Value::Mapping(entries) && entries@.len() > 0 && entries@[0].0 matches Value::Float(
            None,
            _,
        ),
    ensures
        form_error(v) == Some(ErrorKind::FloatKeyMustBeFinite),
        encode_spec(v) == Err::<Seq<char>, ErrorKind>(ErrorKind::FloatKeyMustBeFinite),
{
    if let Value::Mapping(entries) = v {
        let s = entries@;
        assert(entries_error(s, 0) is None);
        assert(entries_error(s, 1) == Some(ErrorKind::FloatKeyMustBeFinite));
        lemma_entries_error_stays(s, 1, s.len());
    }
}

/// A top-level scalar (other than a unit or absent value, which give an empty
/// body) or a top-level sequence is rejected with `NotAnObject`, whatever it
/// holds.
pub proof fn scalar_and_sequence_roots_are_rejected(v: Value)
    requires
        match v {
            Value::Bool(_) | Value::Int(_, _) | Value::UInt(_, _) | Value::Float(_, _) | Value::Char(
                _,
            )
            | Value::Str(_) | Value::Bytes(_) | Value::UnitVariant(_) | Value::Sequence(_, _) => true,
            _ => false,
        },
    ensures
        crate::is_rejected_root(v),
        form_error(v) matches Some(ErrorKind::NotAnObject(_)),
        encode_spec(v) matches Err(ErrorKind::NotAnObject(_)),
{
}

/// A top-level unit or absent value gives an empty body.
pub proof fn empty_roots_give_empty_body(v: Value)
    requires
        v is Unit || v is OptionNone || v is UnitStruct,
    ensures
        encode_spec(v) == Ok::<Seq<char>, ErrorKind>(Seq::empty()),
{
}

/// A pair of a body read back: split at its `=`, both sides percent-decoded.
pub open spec fn decode_pair(p: Seq<char>) -> (Seq<char>, Seq<char>) {
    let parts = split_on(p, '=');
    (decode_text(parts[0]), decode_text(parts[1]))
}

/// A body read back: split at every `&`, each pair decoded.
pub open spec fn decode_body(body: Seq<char>) -> Seq<(Seq<char>, Seq<char>)> {
    split_on(body, '&').map_values(|p: Seq<char>| decode_pair(p))
}

/// The text of one pair without its leading `&`.
spec fn pair_text(k: Seq<char>, j: Seq<char>) -> Seq<char> {
    pct(k) + seq!['='] + pct(j)
}

proof fn lemma_pair_text(k: Seq<char>, j: Seq<char>)
    ensures
        free_of(pair_text(k, j), '&'),
        decode_pair(pair_text(k, j)) == (k, j),
        form_pair(k, j, true) == pair_text(k, j),
        form_pair(k, j, false) == seq!['&'] + pair_text(k, j),
{
    lemma_pct_free_of_separators(k);
    lemma_pct_free_of_separators(j);
    let p = pair_text(k, j);
    assert forall|i: int| 0 <= i < p.len() implies #[trigger] p[i] != '&' by {
        if i < pct(k).len() {
            assert(p[i] == pct(k)[i]);
        } else if i > pct(k).len() {
            assert(p[i] == pct(j)[i - pct(k).len() - 1]);
        }
    }
    lemma_split_on_free(pct(k), '=');
    lemma_split_on_append(pct(k), '=', pct(j));
    lemma_decode_pct(k);
    lemma_decode_pct(j);
    assert(form_pair(k, j, true) =~= pair_text(k, j));
    assert(form_pair(k, j, false) =~= seq!['&'] + pair_text(k, j));
}

proof fn lemma_split_fields(s: Seq<(String, Value)>, n: nat)
    requires
        1 <= n <= s.len(),
    ensures
        split_on(form_fields(s, n, true), '&') == Seq::new(
            n,
            |i: int| pair_text(s[i].0@, json_text(s[i].1, true)),
        ),
    decreases n,
{
    let k = s[n - 1].0@;
    let j = json_text(s[n - 1].1, true);
    lemma_pair_text(k, j);
    if n == 1 {
        assert(form_fields(s, 0, true) =~= Seq::<char>::empty());
        assert(form_fields(s, 1, true) =~= pair_text(k, j));
        lemma_split_on_free(pair_text(k, j), '&');
    } else {
        lemma_split_fields(s, (n - 1) as nat);
        let prev = form_fields(s, (n - 1) as nat, true);
        assert(form_fields(s, n, true) =~= prev + seq!['&'] + pair_text(k, j));
        lemma_split_on_append(prev, '&', pair_text(k, j));
    }
    assert(split_on(form_fields(s, n, true), '&') =~= Seq::new(
        n,
        |i: int| pair_text(s[i].0@, json_text(s[i].1, true)),
    ));
}

proof fn lemma_split_entries(s: Seq<(Value, Value)>, n: nat)
    requires
        1 <= n <= s.len(),
    ensures
        split_on(form_entries(s, n, true), '&') == Seq::new(
            n,
            |i: int| pair_text(key_text(s[i].0, false), json_text(s[i].1, true)),
        ),
    decreases n,
{
    let k = key_text(s[n - 1].0, false);
    let j = json_text(s[n - 1].1, true);
    lemma_pair_text(k, j);
    if n == 1 {
        assert(form_entries(s, 0, true) =~= Seq::<char>::empty());
        assert(form_entries(s, 1, true) =~= pair_text(k, j));
        lemma_split_on_free(pair_text(k, j), '&');
    } else {
        lemma_split_entries(s, (n - 1) as nat);
        let prev = form_entries(s, (n - 1) as nat, true);
        assert(form_entries(s, n, true) =~= prev + seq!['&'] + pair_text(k, j));
        lemma_split_on_append(prev, '&', pair_text(k, j));
    }
    assert(split_on(form_entries(s, n, true), '&') =~= Seq::new(
        n,
        |i: int| pair_text(key_text(s[i].0, false), json_text(s[i].1, true)),
    ));
}

/// Reading a struct's body back (split at `&`, split each pair at `=`,
/// percent-decode both sides) gives each field's name and the JSON text of its
/// value (for a string, the string itself), in order.
pub proof fn struct_body_decodes_to_fields(v: Value)
    requires
        v matches Value::Record(fields) && fields@.len() > 0,
        encode_spec(v) is Ok,
    ensures
        v matches Value::Record(fields) && decode_body(encode_spec(v)->Ok_0) == fields@.map_values(
            |f: (String, Value)| (f.0@, json_text(f.1, true)),
        ),
{
    if let Value::Record(fields) = v {
        let s = fields@;
        lemma_split_fields(s, s.len());
        assert forall|i: int| 0 <= i < s.len() implies #[trigger] decode_pair(
            pair_text(s[i].0@, json_text(s[i].1, true)),
        ) == (s[i].0@, json_text(s[i].1, true)) by {
            lemma_pair_text(s[i].0@, json_text(s[i].1, true));
        }
        assert(decode_body(encode_spec(v)->Ok_0) =~= s.map_values(
            |f: (String, Value)| (f.0@, json_text(f.1, true)),
        ));
    }
}

/// Reading a map's body back gives each key's text and the JSON text of its
/// value (for a string, the string itself), in order.
pub proof fn map_body_decodes_to_entries(v: Value)
    requires
        v matches Value::Mapping(entries) && entries@.len() > 0,
        encode_spec(v) is Ok,
    ensures
        v matches Value::Mapping(entries) && decode_body(encode_spec(v)->Ok_0)
            == entries@.map_values(
            |e: (Value, Value)| (key_text(e.0, false), json_text(e.1, true)),
        ),
{
    if let Value::Mapping(entries) = v {
        let s = entries@;
        lemma_split_entries(s, s.len());
        assert forall|i: int| 0 <= i < s.len() implies #[trigger] decode_pair(
            pair_text(key_text(s[i].0, false), json_text(s[i].1, true)),
        ) == (key_text(s[i].0, false), json_text(s[i].1, true)) by {
            lemma_pair_text(key_text(s[i].0, false), json_text(s[i].1, true));
        }
        assert(decode_body(encode_spec(v)->Ok_0) =~= s.map_values(
            |e: (Value, Value)| (key_text(e.0, false), json_text(e.1, true)),
        ));
    }
}

/// A string that is a field's whole value is percent-encoded without JSON
/// quotes or escapes: the body is `name=` followed by the encoded string.
pub proof fn string_field_is_unquoted(v: Value)
    requires
        v matches Value::Record(fields) && fields@.len() == 1 && fields@[0].1 is Str,
    ensures
        v matches Value::Record(fields) && fields@[0].1 matches Value::Str(s) && encode_spec(v)
            == Ok::<Seq<char>, ErrorKind>(pct(fields@[0].0@) + seq!['='] + pct(s@)),
{
    if let Value::Record(fields) = v {
        let f = fields@;
        assert(form_fields(f, 0, true) =~= Seq::<char>::empty());
        assert(form_fields(f, 1, true) =~= pct(f[0].0@) + seq!['='] + pct(json_text(f[0].1, true)));
        assert(fields_error(f, 0) is None);
        assert(json_error(f[0].1) is None);
        assert(fields_error(f, 1) is None);
    }
}

/// A string nested inside another value is quoted and JSON-escaped.
pub proof fn nested_string_is_quoted(v: Value)
    requires
        v is Str,
    ensures
        v matches Value::Str(s) && json_text(v, false) == quoted(s@),
{
}

/// A top-level enum variant holding one value is a single pair, named by the
/// variant, whose value is that value's JSON text; one holding no data is
/// rejected as `UnitVariant`.
pub proof fn variant_roots(v: Value)
    requires
        v is NewtypeVariant || v is UnitVariant,
    ensures
        v matches Value::NewtypeVariant(n, x) ==> encode_spec(v) == (match json_error(*x) {
            Some(e) => Err(e),
            None => Ok::<Seq<char>, ErrorKind>(pct(n@) + seq!['='] + pct(json_text(*x, true))),
        }),
        v is UnitVariant ==> encode_spec(v) == Err::<Seq<char>, ErrorKind>(
            ErrorKind::NotAnObject("UnitVariant"@),
        ),
{
    if let Value::NewtypeVariant(n, x) = v {
        assert(form_pair(n@, json_text(*x, true), true) =~= pct(n@) + seq!['='] + pct(
            json_text(*x, true),
        ));
    }
}

/// A string nested in JSON reads back: its text between the quotes, unescaped,
/// is the string itself.
pub proof fn nested_string_reads_back(s: Seq<char>)
    ensures
        quoted(s) == seq!['"'] + escape_json(s) + seq!['"'],
        unescape_json(escape_json(s)) == s,
{
    lemma_unescape_escape(s);
}

} // verus!
