//! The provisioning form: `application/x-www-form-urlencoded` bodies with an
//! `ssid` and a `password` field.
//!
//! Decoding works on the UTF-8 bytes of the text. `+` becomes a space, `%XY`
//! (two hex digits) becomes the byte `0xXY`, and every other byte is kept.
//! The bytes that result are read as UTF-8 text again; a sequence that is not
//! valid UTF-8 becomes U+FFFD.

use vstd::prelude::*;
use vstd::string::StringSliceAdditionalSpecFns;
use vstd::utf8::{decode_utf8, valid_utf8};

use crate::text::{lossy_utf8, utf8_lossy, utf8_text};

verus! {

/// ASCII `+`.
pub const PLUS: u8 = 43;

/// ASCII space.
pub const SPACE: u8 = 32;

/// ASCII `%`.
pub const PERCENT: u8 = 37;

/// ASCII `&`, the separator between form fields.
pub const AMPERSAND: u8 = 38;

/// ASCII `=`, the separator between a field's name and its value.
pub const EQUALS: u8 = 61;

/// Largest request body read for the form, in bytes.
pub const MAX_BODY_LEN: usize = 1024;

/// Why a submitted form was refused.
#[derive(Debug, Clone, Copy, PartialEq, Eq)]
pub enum FormError {
    /// The body is not valid UTF-8 text.
    InvalidUtf8,
    /// No `ssid` field was submitted.
    MissingSsid,
    /// The `ssid` field is empty after decoding.
    EmptySsid,
}

/// Value of one hexadecimal digit (either case).
pub open spec fn hex_digit(b: u8) -> Option<u8> {
    if 48 <= b <= 57 {
        Some((b - 48) as u8)
    } else if 97 <= b <= 102 {
        Some((b - 87) as u8)
    } else if 65 <= b <= 70 {
        Some((b - 55) as u8)
    } else {
        None
    }
}

/// The byte that a `%` escape's two characters denote: two hex digits.
pub open spec fn hex_pair(hi: u8, lo: u8) -> Option<u8> {
    match (hex_digit(hi), hex_digit(lo)) {
        (Some(h), Some(l)) => Some((h * 16 + l) as u8),
        _ => None,
    }
}

/// Percent-decoding of the bytes `b` from byte `i` on: `+` gives a space,
/// `%` and two hex digits give the byte they denote, and every other byte
/// (a `%` not followed by two hex digits among them) is kept.
pub open spec fn decode_from(b: Seq<u8>, i: int) -> Seq<u8>
    decreases b.len() - i,
{
    if i < 0 || i >= b.len() {
        Seq::empty()
    } else if b[i] == PLUS {
        seq![SPACE] + decode_from(b, i + 1)
    } else if b[i] == PERCENT && i + 2 < b.len() {
        match hex_pair(b[i + 1], b[i + 2]) {
            Some(v) => seq![v] + decode_from(b, i + 3),
            None => seq![PERCENT] + decode_from(b, i + 1),
        }
    } else {
        seq![b[i]] + decode_from(b, i + 1)
    }
}

/// The bytes that percent-decoding turns `b` into.
pub open spec fn percent_decoded(b: Seq<u8>) -> Seq<u8> {
    decode_from(b, 0)
}

/// The text that bytes read as UTF-8 give: their decoding when they are valid
/// UTF-8; otherwise each invalid sequence becomes U+FFFD, as
/// `String::from_utf8_lossy` does.
pub open spec fn utf8_text_of(bytes: Seq<u8>) -> Seq<char> {
    if valid_utf8(bytes) {
        decode_utf8(bytes)
    } else {
        lossy_utf8(bytes)
    }
}

/// The text that decoding the form value `b` gives: its percent-decoded bytes
/// read as UTF-8.
pub open spec fn url_decoded(b: Seq<u8>) -> Seq<char> {
    utf8_text_of(percent_decoded(b))
}

fn hex_digit_exec(b: u8) -> (res: Option<u8>)
    ensures
        res == hex_digit(b),
{
    if 48 <= b && b <= 57 {
        Some(b - 48)
    } else if 97 <= b && b <= 102 {
        Some(b - 87)
    } else if 65 <= b && b <= 70 {
        Some(b - 55)
    } else {
        None
    }
}

fn hex_pair_exec(hi: u8, lo: u8) -> (res: Option<u8>)
    ensures
        res == hex_pair(hi, lo),
{
    match (hex_digit_exec(hi), hex_digit_exec(lo)) {
        (Some(h), Some(l)) => Some(h * 16 + l),
        _ => None,
    }
}

/// Percent-decodes raw bytes into bytes.
fn percent_decode_bytes(b: &[u8]) -> (res: Vec<u8>)
    ensures
        res@ == percent_decoded(b@),
{
    let mut out: Vec<u8> = Vec::new();
    let mut i: usize = 0;
    while i < b.len()
        invariant
            0 <= i <= b@.len(),
            percent_decoded(b@) == out@ + decode_from(b@, i as int),
        decreases b@.len() - i,
    {
        let ghost before = out@;
        let ghost i0 = i as int;
        if b[i] == PLUS {
            out.push(SPACE);
            i = i + 1;
        } else if b[i] == PERCENT && b.len() - i > 2 {
            match hex_pair_exec(b[i + 1], b[i + 2]) {
                Some(v) => {
                    out.push(v);
                    i = i + 3;
                },
                None => {
                    out.push(PERCENT);
                    i = i + 1;
                },
            }
        } else {
            out.push(b[i]);
            i = i + 1;
        }
        proof {
            let c = out@.last();
            assert(out@ == before.push(c));
            assert(before + decode_from(b@, i0) == out@ + decode_from(b@, i as int)) by {
                assert(before.push(c) + decode_from(b@, i as int) =~= before + (seq![c]
                    + decode_from(b@, i as int)));
            }
        }
    }
    assert(decode_from(b@, i as int) =~= Seq::<u8>::empty());
    assert(out@ + Seq::<u8>::empty() =~= out@);
    out
}

/// Decodes a form value given as raw bytes.
fn decode_bytes(b: &[u8]) -> (res: String)
    ensures
        res@ == url_decoded(b@),
{
    let bytes = percent_decode_bytes(b);
    utf8_lossy(bytes.as_slice())
}

/// Decodes a form value: `+` becomes a space, `%XY` (two hex digits) the byte
/// `0xXY`, a `%` not followed by two hex digits is kept, and the resulting
/// bytes are read as UTF-8 text (each invalid sequence becoming U+FFFD).
pub fn url_decode(s: &str) -> (res: String)
    ensures
        res@ == url_decoded(s.spec_bytes()),
{
    decode_bytes(s.as_bytes())
}

/// First position at or after `i` that holds `c`, or the length of `b` when
/// there is none.
pub open spec fn next_index_of(b: Seq<u8>, i: int, c: u8) -> int
    decreases b.len() - i,
{
    if i < 0 || i >= b.len() {
        b.len() as int
    } else if b[i] == c {
        i
    } else {
        next_index_of(b, i + 1, c)
    }
}

/// The `&`-separated pieces of `b` from byte `i` on (as `str::split` yields
/// them: an empty body is one empty piece, a trailing `&` adds one).
pub open spec fn segments_from(b: Seq<u8>, i: int) -> Seq<Seq<u8>>
    decreases b.len() - i,
{
    if i < 0 || i > b.len() {
        Seq::empty()
    } else {
        let e = next_index_of(b, i, AMPERSAND);
        if i <= e < b.len() {
            seq![b.subrange(i, e)] + segments_from(b, e + 1)
        } else {
            seq![b.subrange(i, b.len() as int)]
        }
    }
}

/// The fields of a form body, in order.
pub open spec fn form_pairs(b: Seq<u8>) -> Seq<Seq<u8>> {
    segments_from(b, 0)
}

/// A field's name: everything before its first `=` (all of it if none).
pub open spec fn pair_key(p: Seq<u8>) -> Seq<u8> {
    p.subrange(0, next_index_of(p, 0, EQUALS))
}

/// A field's raw value: everything after its first `=` (empty if none).
pub open spec fn pair_value(p: Seq<u8>) -> Seq<u8> {
    let e = next_index_of(p, 0, EQUALS);
    if 0 <= e < p.len() {
        p.subrange(e + 1, p.len() as int)
    } else {
        Seq::empty()
    }
}

/// The raw value of the last field named `key`, if any.
pub open spec fn last_value(pairs: Seq<Seq<u8>>, key: Seq<u8>) -> Option<Seq<u8>>
    decreases pairs.len(),
{
    if pairs.len() == 0 {
        None
    } else if pair_key(pairs.last()) == key {
        Some(pair_value(pairs.last()))
    } else {
        last_value(pairs.drop_last(), key)
    }
}

/// The bytes of the field name `ssid`.
pub open spec fn ssid_key() -> Seq<u8> {
    seq![115u8, 115u8, 105u8, 100u8]
}

/// The bytes of the field name `password`.
pub open spec fn password_key() -> Seq<u8> {
    seq![112u8, 97u8, 115u8, 115u8, 119u8, 111u8, 114u8, 100u8]
}

/// What the form body `b` gives: the decoded SSID and password of the last
/// `ssid` and `password` fields (an absent password is empty), or the reason
/// it is refused.
pub open spec fn parsed_form(b: Seq<u8>) -> Result<(Seq<char>, Seq<char>), FormError> {
    let pairs = form_pairs(b);
    match last_value(pairs, ssid_key()) {
        None => Err(FormError::MissingSsid),
        Some(v) => if url_decoded(v).len() == 0 {
            Err(FormError::EmptySsid)
        } else {
            Ok(
                (
                    url_decoded(v),
                    match last_value(pairs, password_key()) {
                        Some(p) => url_decoded(p),
                        None => Seq::empty(),
                    },
                ),
            )
        },
    }
}

proof fn lemma_next_index_bounds(b: Seq<u8>, i: int, c: u8)
    requires
        0 <= i <= b.len(),
    ensures
        i <= next_index_of(b, i, c) <= b.len(),
        next_index_of(b, i, c) < b.len() ==> b[next_index_of(b, i, c)] == c,
        forall|k: int| i <= k < next_index_of(b, i, c) ==> b[k] != c,
    decreases b.len() - i,
{
    if i < b.len() && b[i] != c {
        lemma_next_index_bounds(b, i + 1, c);
    }
}

/// Finds the first `c` at or after `from`.
fn find_byte(b: &[u8], from: usize, c: u8) -> (res: usize)
    requires
        from <= b@.len(),
    ensures
        res as int == next_index_of(b@, from as int, c),
        from <= res <= b@.len(),
{
    let mut k = from;
    while k < b.len() && b[k] != c
        invariant
            from <= k <= b@.len(),
            next_index_of(b@, from as int, c) == next_index_of(b@, k as int, c),
        decreases b@.len() - k,
    {
        k = k + 1;
    }
    k
}

/// Whether `b` equals the byte string `lit`.
fn bytes_equal(b: &[u8], lit: &[u8]) -> (res: bool)
    ensures
        res == (b@ == lit@),
{
    if b.len() != lit.len() {
        return false;
    }
    let mut k: usize = 0;
    while k < b.len()
        invariant
            b@.len() == lit@.len(),
            0 <= k <= b@.len(),
            forall|j: int| 0 <= j < k ==> b@[j] == lit@[j],
        decreases b@.len() - k,
    {
        if b[k] != lit[k] {
            return false;
        }
        k = k + 1;
    }
    assert(b@ =~= lit@);
    true
}

/// Splits one field into its name and raw value.
fn split_pair(p: &[u8]) -> (res: (&[u8], &[u8]))
    ensures
        res.0@ == pair_key(p@),
        res.1@ == pair_value(p@),
{
    let e = find_byte(p, 0, EQUALS);
    let key = vstd::slice::slice_subrange(p, 0, e);
    if e < p.len() {
        (key, vstd::slice::slice_subrange(p, e + 1, p.len()))
    } else {
        let empty: &[u8] = &[];
        assert(empty@ =~= Seq::<u8>::empty());
        (key, empty)
    }
}

/// Parses a provisioning form body into `(ssid, password)`.
///
/// Fields are separated by `&`, and a field's name from its value by its
/// first `=`. When a name repeats, its last field wins; other names are
/// ignored. Values are percent-decoded. A missing password is empty; a
/// missing or empty SSID refuses the form.
pub fn parse_form(body: &str) -> (res: Result<(String, String), FormError>)
    ensures
        match res {
            Ok((ssid, password)) => parsed_form(body.spec_bytes()) == Ok::<(Seq<char>, Seq<char>), FormError>((ssid@, password@)),
            Err(e) => parsed_form(body.spec_bytes()) == Err::<(Seq<char>, Seq<char>), FormError>(e),
        },
{
    let b = body.as_bytes();
    let ghost bs = b@;
    let len = b.len();
    let mut start: usize = 0;
    let mut ssid: Option<String> = None;
    let mut password = String::new();
    let ghost mut done: Seq<Seq<u8>> = Seq::empty();
    loop
        invariant_except_break
            start <= len,
            form_pairs(bs) == done + segments_from(bs, start as int),
        invariant
            bs == b@,
            len == bs.len(),
            match last_value(done, ssid_key()) {
                None => ssid is None,
                Some(v) => ssid matches Some(s) && s@ == url_decoded(v),
            },
            password@ == match last_value(done, password_key()) {
                Some(p) => url_decoded(p),
                None => Seq::empty(),
            },
        ensures
            form_pairs(bs) == done,
        decreases len - start,
    {
        let e = find_byte(b, start, AMPERSAND);
        let seg = vstd::slice::slice_subrange(b, start, e);
        proof {
            lemma_next_index_bounds(bs, start as int, AMPERSAND);
            assert(segments_from(bs, start as int)[0] == seg@);
            assert(form_pairs(bs)[done.len() as int] == seg@);
        }
        let (key, value) = split_pair(seg);
        let decoded = decode_bytes(value);
        if bytes_equal(key, &[115u8, 115, 105, 100]) {
            ssid = Some(decoded);
        } else if bytes_equal(key, &[112u8, 97, 115, 115, 119, 111, 114, 100]) {
            password = decoded;
        }
        proof {
            let ghost old_done = done;
            done = done.push(seg@);
            assert(done.drop_last() =~= old_done);
            assert(done.last() == seg@);
        }
        if e == len {
            proof {
                assert(segments_from(bs, start as int) =~= seq![seg@]);
                assert(form_pairs(bs) =~= done);
            }
            break;
        }
        proof {
            assert(form_pairs(bs) =~= done + segments_from(bs, e + 1));
        }
        start = e + 1;
    }
    match ssid {
        None => Err(FormError::MissingSsid),
        Some(s) => {
            if s.as_str().is_empty() {
                Err(FormError::EmptySsid)
            } else {
                Ok((s, password))
            }
        },
    }
}

/// Reads the body of a submitted form: it must be UTF-8 text, which is then
/// parsed as by `parse_form`.
pub fn parse_save_body(body: &[u8]) -> (res: Result<(String, String), FormError>)
    ensures
        !valid_utf8(body@) ==> res == Err::<(String, String), FormError>(FormError::InvalidUtf8),
        valid_utf8(body@) ==> match res {
            Ok((ssid, password)) => parsed_form(body@) == Ok::<(Seq<char>, Seq<char>), FormError>((ssid@, password@)),
            Err(e) => parsed_form(body@) == Err::<(Seq<char>, Seq<char>), FormError>(e),
        },
{
    match utf8_text(body) {
        None => Err(FormError::InvalidUtf8),
        Some(text) => parse_form(text),
    }
}

/// ASCII decimal digit.
pub open spec fn is_digit(b: u8) -> bool {
    48 <= b <= 57
}

/// Value of a string of decimal digits.
pub open spec fn decimal_value(d: Seq<u8>) -> nat
    decreases d.len(),
{
    if d.len() == 0 {
        0
    } else {
        decimal_value(d.drop_last()) * 10 + (d.last() - 48) as nat
    }
}

/// The text after an optional leading `+`.
pub open spec fn unsigned_digits(b: Seq<u8>) -> Seq<u8> {
    if b.len() > 0 && b[0] == PLUS {
        b.drop_first()
    } else {
        b
    }
}

/// Every byte of `d` is an ASCII digit.
pub open spec fn all_digits(d: Seq<u8>) -> bool {
    forall|k: int| 0 <= k < d.len() ==> is_digit(#[trigger] d[k])
}

/// `usize`'s decimal parse: an optional `+`, then one or more ASCII digits
/// whose value fits in `usize`.
pub open spec fn parsed_usize(b: Seq<u8>) -> Option<usize> {
    let digits = unsigned_digits(b);
    if digits.len() == 0 || !all_digits(digits) {
        None
    } else if decimal_value(digits) <= usize::MAX {
        Some(decimal_value(digits) as usize)
    } else {
        None
    }
}

/// The number of body bytes to read for a request whose `Content-Length`
/// header reads `content_length`: its decimal value (0 when absent or not a
/// number), at most `MAX_BODY_LEN`.
pub open spec fn body_capacity_for(content_length: Option<Seq<u8>>) -> usize {
    let n: usize = match content_length {
        Some(h) => match parsed_usize(h) {
            Some(v) => v,
            None => 0,
        },
        None => 0,
    };
    if n < MAX_BODY_LEN {
        n
    } else {
        MAX_BODY_LEN
    }
}

/// The decimal numeral of `n`: its ASCII digits, most significant first,
/// without leading zeros.
pub open spec fn decimal_numeral(n: nat) -> Seq<u8>
    decreases n,
{
    if n < 10 {
        seq![(48 + n) as u8]
    } else {
        decimal_numeral(n / 10).push((48 + n % 10) as u8)
    }
}

/// Every byte of a numeral lies in `'0'..='9'`, and the parse reads the
/// numeral back as its number.
proof fn lemma_numeral_value(n: nat)
    ensures
        decimal_numeral(n).len() > 0,
        forall|k: int|
            0 <= k < decimal_numeral(n).len() ==> 48 <= #[trigger] decimal_numeral(n)[k] <= 57,
        all_digits(decimal_numeral(n)),
        decimal_value(decimal_numeral(n)) == n,
    decreases n,
{
    if n < 10 {
        let d = decimal_numeral(n);
        assert(d.drop_last() =~= Seq::<u8>::empty());
        assert(decimal_value(d.drop_last()) == 0);
        assert(d.last() == (48 + n) as u8);
        assert(decimal_value(d) == decimal_value(d.drop_last()) * 10 + (d.last() - 48) as nat);
    } else {
        lemma_numeral_value(n / 10);
        let d = decimal_numeral(n);
        assert(d.drop_last() =~= decimal_numeral(n / 10));
        assert(d.last() == (48 + n % 10) as u8);
        assert((n / 10) * 10 + n % 10 == n);
        assert(decimal_value(d) == decimal_value(d.drop_last()) * 10 + (d.last() - 48) as nat);
        assert forall|k: int| 0 <= k < d.len() implies 48 <= #[trigger] d[k] <= 57 by {
            if k < d.len() - 1 {
                assert(d[k] == decimal_numeral(n / 10)[k]);
            }
        }
    }
}

/// `Content-Length` read as a number: the decimal numeral of any `n` that fits
/// in `usize` parses to `n`, so a request announcing `n` body bytes gets
/// `n` of them read, up to `MAX_BODY_LEN`.
pub proof fn lemma_body_capacity_of_numeral(n: nat)
    requires
        n <= usize::MAX,
    ensures
        parsed_usize(decimal_numeral(n)) == Some(n as usize),
        body_capacity_for(Some(decimal_numeral(n))) == if n < 1024 {
            n as usize
        } else {
            1024usize
        },
{
    lemma_numeral_value(n);
    let d = decimal_numeral(n);
    assert(d[0] != PLUS);
    assert(unsigned_digits(d) == d);
}

/// A string of digits is worth at least any of its prefixes.
proof fn lemma_decimal_prefix(d: Seq<u8>, j: int)
    requires
        0 <= j <= d.len(),
        forall|k: int| 0 <= k < d.len() ==> is_digit(#[trigger] d[k]),
    ensures
        decimal_value(d.subrange(0, j)) <= decimal_value(d),
    decreases d.len() - j,
{
    if j < d.len() {
        lemma_decimal_prefix(d, j + 1);
        assert(d.subrange(0, j + 1).drop_last() =~= d.subrange(0, j));
    } else {
        assert(d.subrange(0, j) =~= d);
    }
}

/// Parses a decimal `usize` as `str::parse::<usize>` does.
fn parse_usize(b: &[u8]) -> (res: Option<usize>)
    ensures
        res == parsed_usize(b@),
{
    let start: usize = if b.len() > 0 && b[0] == PLUS {
        1
    } else {
        0
    };
    let ghost digits = unsigned_digits(b@);
    assert(digits =~= b@.subrange(start as int, b@.len() as int));
    if start == b.len() {
        return None;
    }
    let mut v: usize = 0;
    let mut i: usize = start;
    while i < b.len()
        invariant
            start <= i <= b@.len(),
            digits == unsigned_digits(b@),
            digits == b@.subrange(start as int, b@.len() as int),
            forall|k: int| 0 <= k < i - start ==> is_digit(#[trigger] digits[k]),
            v as nat == decimal_value(digits.subrange(0, i - start)),
        decreases b@.len() - i,
    {
        let c = b[i];
        if c < 48 || c > 57 {
            assert(!is_digit(digits[i - start]));
            assert(!all_digits(digits));
            assert(parsed_usize(b@) is None);
            return None;
        }
        let d = (c - 48) as usize;
        assert(digits.subrange(0, i + 1 - start).drop_last() =~= digits.subrange(0, i - start));
        if v > (usize::MAX - d) / 10 {
            proof {
                let next = digits.subrange(0, i + 1 - start);
                assert(decimal_value(next) == v * 10 + d);
                assert(decimal_value(next) > usize::MAX) by (nonlinear_arith)
                    requires
                        decimal_value(next) == v * 10 + d,
                        v > (usize::MAX - d) / 10,
                        d <= 9,
                ;
                if all_digits(digits) {
                    lemma_decimal_prefix(digits, i + 1 - start);
                    assert(decimal_value(digits) > usize::MAX);
                }
                assert(parsed_usize(b@) is None);
            }
            return None;
        }
        v = v * 10 + d;
        i = i + 1;
    }
    assert(digits.subrange(0, i - start) =~= digits);
    Some(v)
}

/// How many bytes of a submitted form to read, from its `Content-Length`
/// header: the header's decimal value (0 when the header is absent or not a
/// number), capped at `MAX_BODY_LEN`.
pub fn body_capacity(content_length: Option<&str>) -> (n: usize)
    ensures
        n == body_capacity_for(
            match content_length {
                Some(h) => Some(h.spec_bytes()),
                None => None,
            },
        ),
{
    let parsed = match content_length {
        Some(h) => parse_usize(h.as_bytes()),
        None => None,
    };
    let n = match parsed {
        Some(v) => v,
        None => 0,
    };
    if n < MAX_BODY_LEN {
        n
    } else {
        MAX_BODY_LEN
    }
}

} // verus!
