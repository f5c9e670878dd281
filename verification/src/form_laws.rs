//! Properties of form decoding: what a browser submits is what is read back.

use vstd::prelude::*;
use vstd::utf8::{
    encode_scalar, encode_utf8, encode_utf8_decode_utf8, encode_utf8_valid_utf8,
    has_width_1_encoding, leading_byte_width_1, leading_byte_width_2, leading_byte_width_3,
    leading_byte_width_4, last_continuation_byte, second_last_continuation_byte,
    third_last_continuation_byte,
};

use crate::form::{
    decode_from, form_pairs, hex_pair, last_value, next_index_of, pair_key, pair_value,
    parsed_form, password_key, percent_decoded, segments_from, ssid_key, url_decoded, FormError,
    AMPERSAND, EQUALS, PERCENT, PLUS, SPACE,
};

verus! {

/// Upper-case hexadecimal digit byte for `n` (below 16).
pub open spec fn hex_upper_byte(n: u8) -> u8 {
    if n < 10 {
        (48 + n) as u8
    } else {
        (55 + n) as u8
    }
}

/// Bytes that form encoding keeps as they are: ASCII letters and digits,
/// `*`, `-`, `.` and `_`.
pub open spec fn is_unreserved(b: u8) -> bool {
    (48 <= b <= 57) || (65 <= b <= 90) || (97 <= b <= 122) || b == 42 || b == 45 || b == 46
        || b == 95
}

/// How form encoding writes one byte: a space as `+`, an unreserved byte as
/// itself, any other byte as `%` and two upper-case hex digits.
pub open spec fn encode_byte(b: u8) -> Seq<u8> {
    if b == SPACE {
        seq![PLUS]
    } else if is_unreserved(b) {
        seq![b]
    } else {
        seq![PERCENT, hex_upper_byte(b / 16), hex_upper_byte(b % 16)]
    }
}

/// Form encoding of a byte string.
pub open spec fn form_encoded_bytes(bs: Seq<u8>) -> Seq<u8>
    decreases bs.len(),
{
    if bs.len() == 0 {
        Seq::empty()
    } else {
        encode_byte(bs[0]) + form_encoded_bytes(bs.drop_first())
    }
}

/// The `application/x-www-form-urlencoded` form of the text `t`, as a
/// browser submits it: its UTF-8 bytes, form-encoded.
pub open spec fn form_encoded(t: Seq<char>) -> Seq<u8> {
    form_encoded_bytes(encode_utf8(t))
}

/// A form body that submits the texts `ssid` and `password`:
/// `ssid=…&password=…`, both values form-encoded.
pub open spec fn form_body(ssid: Seq<char>, password: Seq<char>) -> Seq<u8> {
    ssid_key().push(EQUALS) + form_encoded(ssid) + seq![AMPERSAND] + password_key().push(EQUALS)
        + form_encoded(password)
}

/// Form encoding writes no `&` and no `=`.
pub proof fn lemma_encoded_has_no_separators(bs: Seq<u8>)
    ensures
        forall|k: int|
            0 <= k < form_encoded_bytes(bs).len() ==> #[trigger] form_encoded_bytes(bs)[k]
                != AMPERSAND && form_encoded_bytes(bs)[k] != EQUALS,
    decreases bs.len(),
{
    if bs.len() > 0 {
        lemma_encoded_has_no_separators(bs.drop_first());
        let e0 = encode_byte(bs[0]);
        let rest = form_encoded_bytes(bs.drop_first());
        assert forall|k: int| 0 <= k < form_encoded_bytes(bs).len() implies #[trigger] form_encoded_bytes(
            bs,
        )[k] != AMPERSAND && form_encoded_bytes(bs)[k] != EQUALS by {
            if k >= e0.len() {
                assert(form_encoded_bytes(bs)[k] == rest[k - e0.len()]);
            }
        }
    }
}

/// Decoding from a position inside a suffix only reads that suffix.
pub proof fn lemma_decode_shift(x: Seq<u8>, y: Seq<u8>, j: int)
    requires
        0 <= j,
    ensures
        decode_from(x + y, x.len() + j) == decode_from(y, j),
    decreases y.len() - j,
{
    let xy = x + y;
    let i = x.len() + j;
    if j < y.len() {
        assert(xy[i] == y[j]);
        if j + 1 < y.len() {
            assert(xy[i + 1] == y[j + 1]);
        }
        if j + 2 < y.len() {
            assert(xy[i + 2] == y[j + 2]);
        }
        lemma_decode_shift(x, y, j + 1);
        if j + 2 < y.len() {
            lemma_decode_shift(x, y, j + 3);
        }
    }
}

/// Percent-decoding undoes form encoding, byte for byte.
pub proof fn lemma_decode_encoded_bytes(bs: Seq<u8>)
    ensures
        percent_decoded(form_encoded_bytes(bs)) == bs,
    decreases bs.len(),
{
    if bs.len() == 0 {
        assert(percent_decoded(form_encoded_bytes(bs)) =~= bs);
    } else {
        let b = bs[0];
        let rest = bs.drop_first();
        let e0 = encode_byte(b);
        let enc = form_encoded_bytes(bs);
        lemma_decode_encoded_bytes(rest);
        assert(enc == e0 + form_encoded_bytes(rest));
        lemma_decode_shift(e0, form_encoded_bytes(rest), 0);
        if b != SPACE && !is_unreserved(b) {
            assert(hex_pair(hex_upper_byte(b / 16), hex_upper_byte(b % 16)) == Some(b));
            assert(enc[1] == hex_upper_byte(b / 16));
            assert(enc[2] == hex_upper_byte(b % 16));
        }
        assert(percent_decoded(enc) =~= seq![b] + rest);
        assert(seq![b] + rest =~= bs);
    }
}

/// Decoding undoes what a browser submits: the form encoding of any text
/// decodes back to that very text.
pub proof fn lemma_decode_form_encoded(t: Seq<char>)
    ensures
        url_decoded(form_encoded(t)) == t,
{
    lemma_decode_encoded_bytes(encode_utf8(t));
    encode_utf8_valid_utf8(t);
    encode_utf8_decode_utf8(t);
}

/// The UTF-8 encoding of a character other than `%` and `+` holds neither
/// byte.
proof fn lemma_scalar_plain(c: char)
    requires
        c != '%' && c != '+',
    ensures
        forall|k: int|
            0 <= k < encode_scalar(c as u32).len() ==> #[trigger] encode_scalar(c as u32)[k]
                != PERCENT && encode_scalar(c as u32)[k] != PLUS,
{
    let v = c as u32;
    assert(v != 37 && v != 43);
    if has_width_1_encoding(v) {
        assert(v <= 0x7F ==> (v & 0x7F) as u8 == v) by (bit_vector);
        assert(leading_byte_width_1(v) == v);
    } else {
        assert(leading_byte_width_2(v) >= 0x80) by (bit_vector);
        assert(leading_byte_width_3(v) >= 0x80) by (bit_vector);
        assert(leading_byte_width_4(v) >= 0x80) by (bit_vector);
        assert(last_continuation_byte(v) >= 0x80) by (bit_vector);
        assert(second_last_continuation_byte(v) >= 0x80) by (bit_vector);
        assert(third_last_continuation_byte(v) >= 0x80) by (bit_vector);
    }
}

/// The UTF-8 encoding of text without `%` and `+` holds neither byte.
proof fn lemma_encode_plain(t: Seq<char>)
    requires
        forall|i: int| 0 <= i < t.len() ==> t[i] != '%' && t[i] != '+',
    ensures
        forall|k: int|
            0 <= k < encode_utf8(t).len() ==> #[trigger] encode_utf8(t)[k] != PERCENT
                && encode_utf8(t)[k] != PLUS,
    decreases t.len(),
{
    if t.len() > 0 {
        let rest = t.drop_first();
        lemma_encode_plain(rest);
        lemma_scalar_plain(t[0]);
        let e0 = encode_scalar(t[0] as u32);
        assert forall|k: int| 0 <= k < encode_utf8(t).len() implies #[trigger] encode_utf8(t)[k]
            != PERCENT && encode_utf8(t)[k] != PLUS by {
            if k >= e0.len() {
                assert(encode_utf8(t)[k] == encode_utf8(rest)[k - e0.len()]);
            } else {
                assert(encode_utf8(t)[k] == e0[k]);
            }
        }
    }
}

/// Percent-decoding from byte `i` of bytes with no `%` and no `+`.
proof fn lemma_decode_plain_bytes(b: Seq<u8>, i: int)
    requires
        0 <= i <= b.len(),
        forall|k: int| 0 <= k < b.len() ==> b[k] != PERCENT && b[k] != PLUS,
    ensures
        decode_from(b, i) == b.subrange(i, b.len() as int),
    decreases b.len() - i,
{
    if i < b.len() {
        lemma_decode_plain_bytes(b, i + 1);
        assert(b.subrange(i, b.len() as int) =~= seq![b[i]] + b.subrange(i + 1, b.len() as int));
    } else {
        assert(b.subrange(i, b.len() as int) =~= Seq::<u8>::empty());
    }
}

/// Text with no `%` and no `+` decodes to itself, character for character.
pub proof fn lemma_decode_plain(t: Seq<char>)
    requires
        forall|i: int| 0 <= i < t.len() ==> t[i] != '%' && t[i] != '+',
    ensures
        url_decoded(encode_utf8(t)) == t,
{
    let b = encode_utf8(t);
    lemma_encode_plain(t);
    lemma_decode_plain_bytes(b, 0);
    assert(b.subrange(0, b.len() as int) =~= b);
    encode_utf8_valid_utf8(t);
    encode_utf8_decode_utf8(t);
}

/// Where the first `c` at or after `i` is, given that the bytes before `k`
/// differ from `c` and `k` holds `c` or is the end.
proof fn lemma_next_index_at(b: Seq<u8>, i: int, k: int, c: u8)
    requires
        0 <= i <= k <= b.len(),
        forall|j: int| i <= j < k ==> b[j] != c,
        k < b.len() ==> b[k] == c,
    ensures
        next_index_of(b, i, c) == k,
    decreases k - i,
{
    if i < k {
        lemma_next_index_at(b, i + 1, k, c);
    }
}

/// A submitted form reads back as typed: the body `ssid=…&password=…` that a
/// browser sends for the texts `ssid` and `password` gives back exactly those
/// texts, or is refused as an empty SSID when nothing was typed for it.
pub proof fn lemma_form_roundtrip(ssid: Seq<char>, password: Seq<char>)
    ensures
        ssid.len() > 0 ==> parsed_form(form_body(ssid, password)) == Ok::<
            (Seq<char>, Seq<char>),
            FormError,
        >((ssid, password)),
        ssid.len() == 0 ==> parsed_form(form_body(ssid, password)) == Err::<
            (Seq<char>, Seq<char>),
            FormError,
        >(FormError::EmptySsid),
{
    let es = form_encoded(ssid);
    let ep = form_encoded(password);
    lemma_encoded_has_no_separators(encode_utf8(ssid));
    lemma_encoded_has_no_separators(encode_utf8(password));
    let seg1 = ssid_key().push(EQUALS) + es;
    let seg2 = password_key().push(EQUALS) + ep;
    let body = form_body(ssid, password);
    assert(body =~= seg1 + seq![AMPERSAND] + seg2);
    let e1 = seg1.len() as int;
    // The first `&` ends the first field; the second field runs to the end.
    assert forall|j: int| 0 <= j < e1 implies body[j] != AMPERSAND by {
        if j >= 5 {
            assert(body[j] == es[j - 5]);
        }
    }
    lemma_next_index_at(body, 0, e1, AMPERSAND);
    assert forall|j: int| e1 + 1 <= j < body.len() implies body[j] != AMPERSAND by {
        if j >= e1 + 10 {
            assert(body[j] == ep[j - e1 - 10]);
        }
    }
    lemma_next_index_at(body, e1 + 1, body.len() as int, AMPERSAND);
    assert(body.subrange(0, e1) =~= seg1);
    assert(body.subrange(e1 + 1, body.len() as int) =~= seg2);
    assert(segments_from(body, e1 + 1) == seq![seg2]);
    assert(form_pairs(body) =~= seq![seg1, seg2]);
    // Each field splits at its first `=`.
    assert forall|j: int| 0 <= j < 4 implies seg1[j] != EQUALS by {}
    lemma_next_index_at(seg1, 0, 4, EQUALS);
    assert(pair_key(seg1) =~= ssid_key());
    assert(pair_value(seg1) =~= es);
    assert forall|j: int| 0 <= j < 8 implies seg2[j] != EQUALS by {}
    lemma_next_index_at(seg2, 0, 8, EQUALS);
    assert(pair_key(seg2) =~= password_key());
    assert(pair_value(seg2) =~= ep);
    // The last `ssid` field is the first one; the last `password` field is the second.
    let pairs = seq![seg1, seg2];
    assert(pairs.drop_last() =~= seq![seg1]);
    assert(seq![seg1].drop_last() =~= Seq::<Seq<u8>>::empty());
    assert(password_key() != ssid_key()) by {
        assert(password_key().len() != ssid_key().len());
    }
    assert(ssid_key() != password_key());
    assert(pairs.last() == seg2);
    assert(seq![seg1].last() == seg1);
    assert(last_value(seq![seg1], ssid_key()) == Some(es));
    assert(last_value(pairs, ssid_key()) == Some(es));
    assert(last_value(pairs, password_key()) == Some(ep));
    lemma_decode_form_encoded(ssid);
    lemma_decode_form_encoded(password);
}

} // verus!
