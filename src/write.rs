//! The writer layer: a destination that percent-encodes everything written to
//! it, with token writers for JSON's structural characters and literals, and an
//! escaping entry point that JSON-escapes text before percent-encoding it.
use vstd::prelude::*;
use vstd::utf8::*;
use crate::text::{
    all_unreserved, escape_json, int_text, lemma_encode_ascii, lemma_int_text_unreserved,
    lemma_pct_append, lemma_pct_empty, lemma_pct_unreserved, pct, pct_byte, pct_bytes,
    percent_triplet, unreserved,
};

verus! {

broadcast use vstd::seq::group_seq_axioms;

/// Relies on std's `String::push_str`: it appends the given text.
pub assume_specification[ String::push_str ](s: &mut String, string: &str)
    ensures
        final(s)@ == old(s)@ + string@,
;

/// Relies on std's `String::push`: it appends the given character.
pub assume_specification[ String::push ](s: &mut String, ch: char)
    ensures
        final(s)@ == old(s)@.push(ch),
;

/// Relies on `percent_encoding::percent_encode_byte`: `%` followed by the byte's
/// two upper-case hexadecimal digits, read from its table.
pub assume_specification[ percent_encoding::percent_encode_byte ](byte: u8) -> (r: &'static str)
    ensures
        r@ == percent_triplet(byte),
;

/// Relies on `json_escape::token::escape_str`: the tokens it yields, joined by its
/// `Display`, are the text with `"`, `\` and the C0 controls JSON-escaped
/// (`\"`, `\\`, `\b`, `\t`, `\n`, `\f`, `\r`, else `\u00xx`).
#[verifier::external_body]
fn json_escaped(s: &str) -> (r: String)
    ensures
        r@ == escape_json(s@),
{
    json_escape::token::escape_str(s).to_string()
}

/// Relies on `itoa::Buffer::format` for `i128`: the decimal form of the integer.
#[verifier::external_body]
fn push_signed_decimal(out: &mut String, v: i128)
    ensures
        final(out)@ == old(out)@ + int_text(v as int),
{
    out.push_str(itoa::Buffer::new().format(v))
}

/// Relies on `itoa::Buffer::format` for `u128`: the decimal form of the integer.
#[verifier::external_body]
fn push_unsigned_decimal(out: &mut String, v: u128)
    ensures
        final(out)@ == old(out)@ + int_text(v as int),
{
    out.push_str(itoa::Buffer::new().format(v))
}

/// JSON text of a byte string: its bytes as decimal numbers, comma-separated
/// (without the brackets).
pub open spec fn byte_list(bs: Seq<u8>) -> Seq<char>
    decreases bs.len(),
{
    if bs.len() == 0 {
        Seq::empty()
    } else {
        byte_list(bs.drop_last()) + (if bs.len() > 1 {
            seq![',']
        } else {
            Seq::empty()
        }) + int_text(bs.last() as int)
    }
}

/// The JSON array of a byte string, `[1,2,3]`.
pub open spec fn byte_array(bs: Seq<u8>) -> Seq<char> {
    seq!['['] + byte_list(bs) + seq![']']
}

/// `pct` of one ASCII character that is not unreserved is its `%XX` triplet.
pub proof fn lemma_pct_reserved_ascii(c: char)
    requires
        (c as u32) < 128,
        !unreserved(c as u8),
    ensures
        pct(seq![c]) == percent_triplet(c as u8),
{
    let s = seq![c];
    assert(is_ascii_chars(s));
    lemma_encode_ascii(s);
    assert(encode_utf8(s) =~= seq![c as u8]);
    let bs = seq![c as u8];
    assert(bs.drop_last() =~= Seq::<u8>::empty());
    assert(pct_bytes(bs.drop_last()) =~= Seq::<char>::empty());
    assert(pct_bytes(bs) =~= pct_byte(c as u8));
}

/// `pct` of unreserved text, stated for concatenations with a prefix.
proof fn lemma_append_unreserved(prefix: Seq<char>, s: Seq<char>)
    requires
        all_unreserved(s),
    ensures
        prefix + pct(s) == prefix + s,
{
    lemma_pct_unreserved(s);
}

/// Whether percent-encoding leaves the byte as it is.
fn is_unreserved(b: u8) -> (r: bool)
    ensures
        r == unreserved(b),
{
    (97 <= b && b <= 122) || (65 <= b && b <= 90) || (48 <= b && b <= 57) || b == 45 || b == 46
        || b == 95 || b == 126
}

/// A writer that percent-encodes text written to it. Numbers, booleans and
/// `null` consist of unreserved characters and are appended as they are; JSON's
/// structural characters are appended in their precomputed `%XX` form.
pub struct PercentEncoding {
    pub(crate) w: String,
}

impl View for PercentEncoding {
    type V = Seq<char>;

    /// Everything written to the destination so far.
    closed spec fn view(&self) -> Seq<char> {
        self.w@
    }
}

impl PercentEncoding {
    /// A writer appending to `w`.
    pub fn new(w: String) -> (r: Self)
        ensures
            r@ == w@,
    {
        PercentEncoding { w }
    }

    /// The destination, with everything written so far.
    pub fn into_inner(self) -> (r: String)
        ensures
            r@ == self@,
    {
        self.w
    }

    /// What has been written so far.
    pub fn output(&self) -> (r: &str)
        ensures
            r@ == self@,
    {
        self.w.as_str()
    }

    /// Appends text unchanged; only for text that percent-encoding leaves alone
    /// or that is already encoded.
    pub(crate) fn write_raw(&mut self, s: &str)
        ensures
            final(self)@ == old(self)@ + s@,
    {
        self.w.push_str(s);
    }

    /// Appends the percent-encoding of `s`.
    pub fn write_str(&mut self, s: &str)
        ensures
            final(self)@ == old(self)@ + pct(s@),
    {
        let bytes = s.as_bytes();
        let ghost start = self.w@;
        let mut i: usize = 0;
        while i < bytes.len()
            invariant
                0 <= i <= bytes@.len(),
                bytes@ == encode_utf8(s@),
                self.w@ == start + pct_bytes(bytes@.take(i as int)),
            decreases bytes@.len() - i,
        {
            let b = bytes[i];
            if is_unreserved(b) {
                self.w.push(b as char);
            } else {
                self.w.push_str(percent_encoding::percent_encode_byte(b));
            }
            assert(bytes@.take(i + 1).drop_last() =~= bytes@.take(i as int));
            i = i + 1;
        }
        assert(bytes@.take(i as int) =~= bytes@);
    }

    /// Appends `null`.
    pub fn write_null(&mut self)
        ensures
            final(self)@ == old(self)@ + pct("null"@),
    {
        proof {
            reveal_strlit("null");
            lemma_append_unreserved(self.w@, "null"@);
        }
        self.w.push_str("null");
    }

    /// Appends `true` or `false`.
    pub fn write_bool(&mut self, value: bool)
        ensures
            final(self)@ == old(self)@ + pct(bool_text(value)),
    {
        proof {
            reveal_strlit("true");
            reveal_strlit("false");
            lemma_append_unreserved(self.w@, bool_text(value));
        }
        if value {
            self.w.push_str("true");
        } else {
            self.w.push_str("false");
        }
    }

    /// Appends the decimal form of a signed integer.
    pub fn write_integer(&mut self, value: i128)
        ensures
            final(self)@ == old(self)@ + pct(int_text(value as int)),
    {
        proof {
            lemma_int_text_unreserved(value as int);
        }
        push_signed_decimal(&mut self.w, value);
    }

    /// Appends the decimal form of an unsigned integer.
    pub fn write_unsigned(&mut self, value: u128)
        ensures
            final(self)@ == old(self)@ + pct(int_text(value as int)),
    {
        proof {
            lemma_int_text_unreserved(value as int);
        }
        push_unsigned_decimal(&mut self.w, value);
    }

    /// Appends the JSON escape of `s`, percent-encoded.
    pub fn write_escaped(&mut self, s: &str)
        ensures
            final(self)@ == old(self)@ + pct(escape_json(s@)),
    {
        let e = json_escaped(s);
        self.write_str(e.as_str());
    }

    /// Appends `:`.
    pub fn write_colon(&mut self)
        ensures
            final(self)@ == old(self)@ + pct(seq![':']),
    {
        proof {
            reveal_strlit("%3A");
            lemma_pct_reserved_ascii(':');
        }
        self.w.push_str("%3A");
    }

    /// Appends `"`.
    pub fn write_quote(&mut self)
        ensures
            final(self)@ == old(self)@ + pct(seq!['"']),
    {
        proof {
            reveal_strlit("%22");
            lemma_pct_reserved_ascii('"');
        }
        self.w.push_str("%22");
    }

    /// Appends `,`.
    pub fn write_comma(&mut self)
        ensures
            final(self)@ == old(self)@ + pct(seq![',']),
    {
        proof {
            reveal_strlit("%2C");
            lemma_pct_reserved_ascii(',');
        }
        self.w.push_str("%2C");
    }

    /// Appends `{`.
    pub fn write_left_bracket(&mut self)
        ensures
            final(self)@ == old(self)@ + pct(seq!['{']),
    {
        proof {
            reveal_strlit("%7B");
            lemma_pct_reserved_ascii('{');
        }
        self.w.push_str("%7B");
    }

    /// Appends `}`.
    pub fn write_right_bracket(&mut self)
        ensures
            final(self)@ == old(self)@ + pct(seq!['}']),
    {
        proof {
            reveal_strlit("%7D");
            lemma_pct_reserved_ascii('}');
        }
        self.w.push_str("%7D");
    }

    /// Appends `[`.
    pub fn write_left_sq_bracket(&mut self)
        ensures
            final(self)@ == old(self)@ + pct(seq!['[']),
    {
        proof {
            reveal_strlit("%5B");
            lemma_pct_reserved_ascii('[');
        }
        self.w.push_str("%5B");
    }

    /// Appends `]`.
    pub fn write_right_sq_bracket(&mut self)
        ensures
            final(self)@ == old(self)@ + pct(seq![']']),
    {
        proof {
            reveal_strlit("%5D");
            lemma_pct_reserved_ascii(']');
        }
        self.w.push_str("%5D");
    }

    /// Appends a byte string as a JSON array of decimal numbers, `[10,20,30]`.
    pub fn write_byte_array(&mut self, value: &[u8])
        ensures
            final(self)@ == old(self)@ + pct(byte_array(value@)),
    {
        let ghost start = self.w@;
        self.write_left_sq_bracket();
        let mut i: usize = 0;
        while i < value.len()
            invariant
                0 <= i <= value@.len(),
                self.w@ == start + pct(seq!['[']) + pct(byte_list(value@.take(i as int))),
            decreases value@.len() - i,
        {
            let ghost prev = byte_list(value@.take(i as int));
            if i > 0 {
                self.write_comma();
            }
            self.write_unsigned(value[i] as u128);
            proof {
                let t = value@.take(i + 1);
                assert(t.drop_last() =~= value@.take(i as int));
                let sep: Seq<char> = if i > 0 { seq![','] } else { Seq::empty() };
                lemma_pct_empty();
                lemma_pct_append(prev, sep);
                lemma_pct_append(prev + sep, int_text(value[i as int] as int));
                assert(byte_list(t) == prev + sep + int_text(t.last() as int));
            }
            i = i + 1;
        }
        assert(value@.take(i as int) =~= value@);
        self.write_right_sq_bracket();
        proof {
            lemma_pct_append(seq!['['], byte_list(value@));
            lemma_pct_append(seq!['['] + byte_list(value@), seq![']']);
        }
    }
}

/// `true` or `false`.
pub open spec fn bool_text(b: bool) -> Seq<char> {
    if b {
        "true"@
    } else {
        "false"@
    }
}

} // verus!
