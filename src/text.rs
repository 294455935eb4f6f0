//! Mathematical descriptions of the text transformations the encoder applies:
//! percent-encoding, JSON string escaping, and decimal rendering of integers.
use vstd::prelude::*;
use vstd::utf8::*;

verus! {

broadcast use vstd::seq::group_seq_axioms;

/// A byte that percent-encoding leaves as it is: ASCII letters, digits, and `-._~`.
pub open spec fn unreserved(b: u8) -> bool {
    ('a' as u8 <= b <= 'z' as u8) || ('A' as u8 <= b <= 'Z' as u8) || ('0' as u8 <= b
        <= '9' as u8) || b == '-' as u8 || b == '.' as u8 || b == '_' as u8 || b == '~' as u8
}

/// An upper-case hexadecimal digit for `d < 16`.
pub open spec fn hex_upper(d: u8) -> char {
    if d < 10 {
        ((48 + d) as u8) as char
    } else {
        ((55 + d) as u8) as char
    }
}

/// A lower-case hexadecimal digit for `d < 16`.
pub open spec fn hex_lower(d: u8) -> char {
    if d < 10 {
        ((48 + d) as u8) as char
    } else {
        ((87 + d) as u8) as char
    }
}

/// `%XX`, the escape of one byte with two upper-case hexadecimal digits.
pub open spec fn percent_triplet(b: u8) -> Seq<char> {
    seq!['%', hex_upper(b / 16), hex_upper(b % 16)]
}

/// The percent-encoding of a single byte.
pub open spec fn pct_byte(b: u8) -> Seq<char> {
    if unreserved(b) {
        seq![b as char]
    } else {
        percent_triplet(b)
    }
}

/// The percent-encoding of a byte string, byte by byte.
pub open spec fn pct_bytes(bs: Seq<u8>) -> Seq<char>
    decreases bs.len(),
{
    if bs.len() == 0 {
        Seq::empty()
    } else {
        pct_bytes(bs.drop_last()) + pct_byte(bs.last())
    }
}

/// The percent-encoding of text: every byte of its UTF-8 encoding that is not
/// unreserved becomes `%XX`.
pub open spec fn pct(s: Seq<char>) -> Seq<char> {
    pct_bytes(encode_utf8(s))
}

/// The value of a hexadecimal digit (either case); 0 for any other character.
pub open spec fn hex_value(c: char) -> u8 {
    if '0' <= c <= '9' {
        (c as u32 - 48) as u8
    } else if 'A' <= c <= 'F' {
        (c as u32 - 55) as u8
    } else if 'a' <= c <= 'f' {
        (c as u32 - 87) as u8
    } else {
        0
    }
}

/// Percent-decoding to bytes: `%XX` gives the byte `0xXX`, any other character
/// gives its own code as a byte.
pub open spec fn pct_decode(s: Seq<char>) -> Seq<u8>
    decreases s.len(),
{
    if s.len() == 0 {
        Seq::empty()
    } else if s[0] == '%' && s.len() >= 3 {
        seq![(hex_value(s[1]) * 16 + hex_value(s[2])) as u8] + pct_decode(s.skip(3))
    } else {
        seq![s[0] as u8] + pct_decode(s.skip(1))
    }
}

/// The JSON escape of one character: quote, backslash and the C0 controls are
/// escaped, everything else stands for itself.
pub open spec fn escape_char(c: char) -> Seq<char> {
    if c == '"' {
        seq!['\\', '"']
    } else if c == '\\' {
        seq!['\\', '\\']
    } else if c == '\u{8}' {
        seq!['\\', 'b']
    } else if c == '\t' {
        seq!['\\', 't']
    } else if c == '\n' {
        seq!['\\', 'n']
    } else if c == '\u{c}' {
        seq!['\\', 'f']
    } else if c == '\r' {
        seq!['\\', 'r']
    } else if (c as u32) < 0x20 {
        seq!['\\', 'u', '0', '0', hex_lower((c as u32 / 16) as u8), hex_lower((c as u32 % 16) as u8)]
    } else {
        seq![c]
    }
}

/// The JSON escape of a string's contents (without the surrounding quotes).
pub open spec fn escape_json(s: Seq<char>) -> Seq<char>
    decreases s.len(),
{
    if s.len() == 0 {
        Seq::empty()
    } else {
        escape_json(s.drop_last()) + escape_char(s.last())
    }
}

/// A decimal digit for `d < 10`.
pub open spec fn digit(d: nat) -> char {
    ((48 + d) as u8) as char
}

/// The decimal digits of a natural number, without leading zeros.
pub open spec fn nat_text(n: nat) -> Seq<char>
    decreases n,
{
    if n < 10 {
        seq![digit(n)]
    } else {
        nat_text(n / 10) + seq![digit(n % 10)]
    }
}

/// The decimal rendering of an integer, with a leading `-` when negative.
pub open spec fn int_text(i: int) -> Seq<char> {
    if i < 0 {
        seq!['-'] + nat_text((-i) as nat)
    } else {
        nat_text(i as nat)
    }
}

/// A character that percent-encoding leaves as it is.
pub open spec fn unreserved_char(c: char) -> bool {
    ('a' <= c <= 'z') || ('A' <= c <= 'Z') || ('0' <= c <= '9') || c == '-' || c == '.' || c
        == '_' || c == '~'
}

/// Text whose characters are all unreserved.
pub open spec fn all_unreserved(s: Seq<char>) -> bool {
    forall|i: int| 0 <= i < s.len() ==> #[trigger] unreserved_char(s[i])
}

pub proof fn lemma_unreserved_char(c: char)
    requires
        unreserved_char(c),
    ensures
        (c as u32) < 128,
        unreserved(c as u8),
        (c as u8) as char == c,
{
}

pub proof fn lemma_encode_utf8_append(a: Seq<char>, b: Seq<char>)
    ensures
        encode_utf8(a + b) == encode_utf8(a) + encode_utf8(b),
    decreases a.len(),
{
    if a.len() == 0 {
        assert(a + b =~= b);
        assert(encode_utf8(a) =~= Seq::<u8>::empty());
        assert(encode_utf8(a) + encode_utf8(b) =~= encode_utf8(b));
    } else {
        assert((a + b).drop_first() =~= a.drop_first() + b);
        lemma_encode_utf8_append(a.drop_first(), b);
        assert(encode_utf8(a + b) =~= encode_utf8(a) + encode_utf8(b));
    }
}

pub proof fn lemma_pct_bytes_append(a: Seq<u8>, b: Seq<u8>)
    ensures
        pct_bytes(a + b) == pct_bytes(a) + pct_bytes(b),
    decreases b.len(),
{
    if b.len() == 0 {
        assert(a + b =~= a);
        assert(pct_bytes(a) + pct_bytes(b) =~= pct_bytes(a));
    } else {
        assert((a + b).drop_last() =~= a + b.drop_last());
        lemma_pct_bytes_append(a, b.drop_last());
        assert(pct_bytes(a + b) =~= pct_bytes(a) + pct_bytes(b));
    }
}

/// Percent-encoding distributes over concatenation.
pub proof fn lemma_pct_append(a: Seq<char>, b: Seq<char>)
    ensures
        pct(a + b) == pct(a) + pct(b),
{
    lemma_encode_utf8_append(a, b);
    lemma_pct_bytes_append(encode_utf8(a), encode_utf8(b));
}

pub proof fn lemma_pct_empty()
    ensures
        pct(Seq::empty()) == Seq::<char>::empty(),
{
    assert(encode_utf8(Seq::<char>::empty()) =~= Seq::<u8>::empty());
}

/// On ASCII text the UTF-8 encoding is the sequence of character codes.
pub proof fn lemma_encode_ascii(s: Seq<char>)
    requires
        is_ascii_chars(s),
    ensures
        encode_utf8(s) == Seq::new(s.len(), |i: int| s[i] as u8),
{
    is_ascii_chars_encode_utf8(s);
    assert(encode_utf8(s) =~= Seq::new(s.len(), |i: int| s[i] as u8));
}

pub proof fn lemma_pct_bytes_unreserved(bs: Seq<u8>)
    requires
        forall|i: int| 0 <= i < bs.len() ==> #[trigger] unreserved(bs[i]),
    ensures
        pct_bytes(bs) == Seq::new(bs.len(), |i: int| bs[i] as char),
    decreases bs.len(),
{
    if bs.len() > 0 {
        lemma_pct_bytes_unreserved(bs.drop_last());
        assert(pct_bytes(bs) =~= Seq::new(bs.len(), |i: int| bs[i] as char));
    }
}

/// Percent-encoding leaves unreserved text unchanged.
pub proof fn lemma_pct_unreserved(s: Seq<char>)
    requires
        all_unreserved(s),
    ensures
        pct(s) == s,
{
    assert(is_ascii_chars(s)) by {
        assert forall|i: int| 0 <= i < s.len() implies '\0' <= #[trigger] s[i] <= '\u{7f}' by {
            lemma_unreserved_char(s[i]);
        }
    }
    lemma_encode_ascii(s);
    let bs = encode_utf8(s);
    assert forall|i: int| 0 <= i < bs.len() implies #[trigger] unreserved(bs[i]) by {
        lemma_unreserved_char(s[i]);
    }
    lemma_pct_bytes_unreserved(bs);
    assert forall|i: int| 0 <= i < s.len() implies (bs[i] as char) == s[i] by {
        lemma_unreserved_char(s[i]);
    }
    assert(pct(s) =~= s);
}

pub proof fn lemma_nat_text_unreserved(n: nat)
    ensures
        all_unreserved(nat_text(n)),
        nat_text(n).len() > 0,
    decreases n,
{
    if n >= 10 {
        lemma_nat_text_unreserved(n / 10);
    }
    assert(all_unreserved(nat_text(n))) by {
        assert forall|d: nat| d < 10 implies unreserved_char(#[trigger] digit(d)) by {}
    }
}

/// Decimal renderings consist of unreserved characters only.
pub proof fn lemma_int_text_unreserved(i: int)
    ensures
        all_unreserved(int_text(i)),
        pct(int_text(i)) == int_text(i),
{
    if i < 0 {
        lemma_nat_text_unreserved((-i) as nat);
        assert(all_unreserved(int_text(i)));
    } else {
        lemma_nat_text_unreserved(i as nat);
    }
    lemma_pct_unreserved(int_text(i));
}

/// Percent-decoded text: the characters whose UTF-8 encoding the decoded bytes are.
pub open spec fn decode_text(s: Seq<char>) -> Seq<char> {
    decode_utf8(pct_decode(s))
}

/// The pieces of `s` between occurrences of `c` (one piece when `c` does not occur).
pub open spec fn split_on(s: Seq<char>, c: char) -> Seq<Seq<char>>
    decreases s.len(),
{
    if s.len() == 0 {
        seq![Seq::empty()]
    } else {
        let rest = split_on(s.drop_last(), c);
        if s.last() == c {
            rest.push(Seq::empty())
        } else {
            rest.update(rest.len() - 1, rest.last().push(s.last()))
        }
    }
}

/// Text in which `c` does not occur.
pub open spec fn free_of(s: Seq<char>, c: char) -> bool {
    forall|i: int| 0 <= i < s.len() ==> #[trigger] s[i] != c
}

pub proof fn lemma_split_on_len(s: Seq<char>, c: char)
    ensures
        split_on(s, c).len() >= 1,
    decreases s.len(),
{
    if s.len() > 0 {
        lemma_split_on_len(s.drop_last(), c);
    }
}

/// Text free of the separator is a single piece.
pub proof fn lemma_split_on_free(s: Seq<char>, c: char)
    requires
        free_of(s, c),
    ensures
        split_on(s, c) == seq![s],
    decreases s.len(),
{
    if s.len() > 0 {
        lemma_split_on_free(s.drop_last(), c);
        assert(s[s.len() - 1] != c);
        assert(s.drop_last().push(s.last()) =~= s);
        assert(split_on(s, c) =~= seq![s]);
    } else {
        assert(s =~= Seq::<char>::empty());
    }
}

/// Appending the separator and a piece free of it appends that piece.
pub proof fn lemma_split_on_append(a: Seq<char>, c: char, b: Seq<char>)
    requires
        free_of(b, c),
    ensures
        split_on(a + seq![c] + b, c) == split_on(a, c).push(b),
    decreases b.len(),
{
    if b.len() == 0 {
        assert(a + seq![c] + b =~= a.push(c));
        assert((a + seq![c] + b).drop_last() =~= a);
        assert(b =~= Seq::<char>::empty());
    } else {
        lemma_split_on_append(a, c, b.drop_last());
        assert((a + seq![c] + b).drop_last() =~= a + seq![c] + b.drop_last());
        lemma_split_on_len(a, c);
        let whole = a + seq![c] + b;
        assert(b[b.len() - 1] != c);
        assert(whole.last() == b.last());
        assert(b.drop_last().push(b.last()) =~= b);
        assert(split_on(whole, c) =~= split_on(a, c).push(b));
    }
}

/// The characters of a byte's percent-encoding.
pub open spec fn pct_char(ch: char) -> bool {
    unreserved_char(ch) || ch == '%' || ('0' <= ch <= '9') || ('A' <= ch <= 'F')
}

pub proof fn lemma_pct_byte_chars(b: u8)
    ensures
        forall|i: int| 0 <= i < pct_byte(b).len() ==> pct_char(#[trigger] pct_byte(b)[i]),
{
    if unreserved(b) {
        assert(unreserved_char(b as char));
    } else {
        assert(pct_char(hex_upper(b / 16)));
        assert(pct_char(hex_upper(b % 16)));
    }
}

/// Percent-encoded text holds only unreserved characters, `%` and hexadecimal digits.
pub proof fn lemma_pct_bytes_chars(bs: Seq<u8>)
    ensures
        forall|i: int| 0 <= i < pct_bytes(bs).len() ==> pct_char(#[trigger] pct_bytes(bs)[i]),
    decreases bs.len(),
{
    if bs.len() > 0 {
        lemma_pct_bytes_chars(bs.drop_last());
        lemma_pct_byte_chars(bs.last());
        let a = pct_bytes(bs.drop_last());
        let b = pct_byte(bs.last());
        assert forall|i: int| 0 <= i < pct_bytes(bs).len() implies pct_char(
            #[trigger] pct_bytes(bs)[i],
        ) by {
            if i < a.len() {
                assert(pct_bytes(bs)[i] == a[i]);
            } else {
                assert(pct_bytes(bs)[i] == b[i - a.len()]);
            }
        }
    }
}

/// Percent-encoded text contains neither `&` nor `=`.
pub proof fn lemma_pct_free_of_separators(s: Seq<char>)
    ensures
        free_of(pct(s), '&'),
        free_of(pct(s), '='),
{
    lemma_pct_bytes_chars(encode_utf8(s));
}

pub proof fn lemma_pct_bytes_front(b: u8, rest: Seq<u8>)
    ensures
        pct_bytes(seq![b] + rest) == pct_byte(b) + pct_bytes(rest),
{
    lemma_pct_bytes_append(seq![b], rest);
    assert(seq![b].drop_last() =~= Seq::<u8>::empty());
    assert(pct_bytes(Seq::<u8>::empty()) =~= Seq::<char>::empty());
    assert(seq![b].last() == b);
    assert(pct_bytes(seq![b]) =~= pct_byte(b));
}

pub proof fn lemma_hex_round_trip(b: u8)
    ensures
        (hex_value(hex_upper(b / 16)) * 16 + hex_value(hex_upper(b % 16))) as u8 == b,
{
}

/// Percent-decoding undoes percent-encoding of bytes.
pub proof fn lemma_pct_decode_bytes(bs: Seq<u8>)
    ensures
        pct_decode(pct_bytes(bs)) == bs,
    decreases bs.len(),
{
    if bs.len() == 0 {
        assert(pct_bytes(bs) =~= Seq::<char>::empty());
    } else {
        let b = bs[0];
        let rest = bs.drop_first();
        assert(bs =~= seq![b] + rest);
        lemma_pct_bytes_front(b, rest);
        lemma_pct_decode_bytes(rest);
        let x = pct_bytes(bs);
        if unreserved(b) {
            assert(x[0] == b as char);
            assert(x[0] != '%');
            assert(x.skip(1) =~= pct_bytes(rest));
            assert(pct_decode(x) =~= seq![b] + rest);
        } else {
            lemma_hex_round_trip(b);
            assert(x[0] == '%');
            assert(x.skip(3) =~= pct_bytes(rest));
            assert(pct_decode(x) =~= seq![b] + rest);
        }
    }
}

/// Decoding percent-encoded text gives the text back.
pub proof fn lemma_decode_pct(s: Seq<char>)
    ensures
        decode_text(pct(s)) == s,
{
    lemma_pct_decode_bytes(encode_utf8(s));
    encode_utf8_decode_utf8(s);
}

/// JSON unescaping of a string's contents: each escape sequence gives the
/// character it stands for, every other character stands for itself. A `\uXXXX`
/// escape is read for code points below 256, the only ones escaping writes.
pub open spec fn unescape_json(s: Seq<char>) -> Seq<char>
    decreases s.len(),
{
    if s.len() == 0 {
        Seq::empty()
    } else if s[0] == '\\' && s.len() >= 2 {
        if s[1] == 'u' && s.len() >= 6 {
            seq![
                ((hex_value(s[2]) as u32) * 4096 + (hex_value(s[3]) as u32) * 256 + (hex_value(s[4])
                    as u32) * 16 + hex_value(s[5]) as u32) as u8 as char,
            ] + unescape_json(s.skip(6))
        } else {
            let c = if s[1] == 'b' {
                '\u{8}'
            } else if s[1] == 't' {
                '\t'
            } else if s[1] == 'n' {
                '\n'
            } else if s[1] == 'f' {
                '\u{c}'
            } else if s[1] == 'r' {
                '\r'
            } else {
                s[1]
            };
            seq![c] + unescape_json(s.skip(2))
        }
    } else {
        seq![s[0]] + unescape_json(s.skip(1))
    }
}

pub proof fn lemma_escape_json_append(a: Seq<char>, b: Seq<char>)
    ensures
        escape_json(a + b) == escape_json(a) + escape_json(b),
    decreases b.len(),
{
    if b.len() == 0 {
        assert(a + b =~= a);
        assert(escape_json(a) + escape_json(b) =~= escape_json(a));
    } else {
        assert((a + b).drop_last() =~= a + b.drop_last());
        lemma_escape_json_append(a, b.drop_last());
        assert(escape_json(a + b) =~= escape_json(a) + escape_json(b));
    }
}

proof fn lemma_unescape_char(c: char, rest: Seq<char>)
    ensures
        unescape_json(escape_char(c) + rest) == seq![c] + unescape_json(rest),
{
    let x = escape_char(c) + rest;
    if c == '"' || c == '\\' || c == '\u{8}' || c == '\t' || c == '\n' || c == '\u{c}' || c
        == '\r' {
        assert(x[0] == '\\');
        assert(x.skip(2) =~= rest);
    } else if (c as u32) < 0x20 {
        assert(x[0] == '\\' && x[1] == 'u');
        assert(x.skip(6) =~= rest);
        let hi = (c as u32 / 16) as u8;
        let lo = (c as u32 % 16) as u8;
        assert(hex_value(hex_lower(hi)) == hi);
        assert(hex_value(hex_lower(lo)) == lo);
        assert(((hi as u32) * 16 + lo as u32) as u8 as char == c);
    } else {
        assert(x[0] == c);
        assert(x.skip(1) =~= rest);
    }
}

/// Unescaping the JSON escape of a string gives the string back.
pub proof fn lemma_unescape_escape(s: Seq<char>)
    ensures
        unescape_json(escape_json(s)) == s,
    decreases s.len(),
{
    if s.len() == 0 {
        assert(escape_json(s) =~= Seq::<char>::empty());
    } else {
        let c = s[0];
        let rest = s.drop_first();
        assert(s =~= seq![c] + rest);
        lemma_escape_json_append(seq![c], rest);
        assert(seq![c].drop_last() =~= Seq::<char>::empty());
        assert(escape_json(Seq::<char>::empty()) =~= Seq::<char>::empty());
        assert(escape_json(seq![c]) =~= escape_char(c));
        lemma_unescape_char(c, escape_json(rest));
        lemma_unescape_escape(rest);
    }
}

} // verus!
