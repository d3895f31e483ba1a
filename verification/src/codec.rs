//! The field codec shared by all header fields: octal-number fields and
//! NUL- or space-terminated string fields, each over a byte region of a
//! known width.

use vstd::prelude::*;
use vstd::utf8::{valid_utf8, decode_utf8, encode_utf8};
use vstd::slice::{slice_subrange, slice_to_vec};
use vstd::string::StrSliceExecFns;
use crate::{BasicTarError, ErrKind, err_kind};

verus! {

// ---------------------------------------------------------------------------
// Byte-sequence model
// ---------------------------------------------------------------------------

/// A run of `n` zero bytes.
pub open spec fn zero_seq(n: nat) -> Seq<u8> {
    Seq::new(n, |i: int| 0u8)
}

/// The index of the first occurrence of `b` in `s`, or `s.len()` if `b`
/// does not occur.
pub open spec fn first_pos(s: Seq<u8>, b: u8) -> int
    decreases s.len(),
{
    if s.len() == 0 {
        0
    } else if s[0] == b {
        0
    } else {
        1 + first_pos(s.skip(1), b)
    }
}

pub proof fn lemma_first_pos(s: Seq<u8>, b: u8)
    ensures
        0 <= first_pos(s, b) <= s.len(),
        forall|j: int| 0 <= j < first_pos(s, b) ==> s[j] != b,
        first_pos(s, b) < s.len() ==> s[first_pos(s, b)] == b,
    decreases s.len(),
{
    if s.len() == 0 {
    } else if s[0] == b {
    } else {
        lemma_first_pos(s.skip(1), b);
        assert forall|j: int| 0 <= j < first_pos(s, b) implies s[j] != b by {
            if j > 0 {
                assert(s.skip(1)[j - 1] == s[j]);
            }
        }
        if first_pos(s, b) < s.len() {
            assert(s.skip(1)[first_pos(s, b) - 1] == s[first_pos(s, b)]);
        }
    }
}

/// `first_pos` is pinned down by its characteristic properties.
pub proof fn lemma_first_pos_is(s: Seq<u8>, b: u8, i: int)
    requires
        0 <= i <= s.len(),
        forall|j: int| 0 <= j < i ==> s[j] != b,
        i < s.len() ==> s[i] == b,
    ensures
        first_pos(s, b) == i,
{
    lemma_first_pos(s, b);
}

/// An ASCII whitespace byte: tab, line feed, vertical tab, form feed,
/// carriage return or space.
pub open spec fn is_ascii_ws(b: u8) -> bool {
    b == 0x09 || b == 0x0a || b == 0x0b || b == 0x0c || b == 0x0d || b == 0x20
}

/// `s` with every trailing ASCII whitespace byte removed.
pub open spec fn trim_ws_end(s: Seq<u8>) -> Seq<u8>
    decreases s.len(),
{
    if s.len() > 0 && is_ascii_ws(s.last()) {
        trim_ws_end(s.drop_last())
    } else {
        s
    }
}

// ---------------------------------------------------------------------------
// Octal numbers
// ---------------------------------------------------------------------------

/// An ASCII octal digit `'0'..='7'`.
pub open spec fn is_octal_digit(b: u8) -> bool {
    0x30 <= b <= 0x37
}

/// Every byte of `s` is an octal digit.
pub open spec fn all_octal(s: Seq<u8>) -> bool {
    forall|i: int| 0 <= i < s.len() ==> is_octal_digit(#[trigger] s[i])
}

/// The numeric value of one digit byte.
pub open spec fn digit_val(b: u8) -> nat {
    if is_octal_digit(b) {
        (b - 0x30) as nat
    } else {
        0
    }
}

/// The value of a base-8 digit string, most significant digit first.
pub open spec fn octal_val(s: Seq<u8>) -> nat
    decreases s.len(),
{
    if s.len() == 0 {
        0
    } else {
        octal_val(s.drop_last()) * 8 + digit_val(s.last())
    }
}

/// The minimal-width base-8 digit string of `n`, most significant digit
/// first.
pub open spec fn octal_digits_of(n: nat) -> Seq<u8>
    decreases n,
{
    if n < 8 {
        seq![(0x30 + n) as u8]
    } else {
        octal_digits_of(n / 8).push((0x30 + n % 8) as u8)
    }
}

/// `8^k`.
pub open spec fn pow8(k: nat) -> nat
    decreases k,
{
    if k == 0 {
        1
    } else {
        8 * pow8((k - 1) as nat)
    }
}

pub proof fn lemma_octal_digits_of(n: nat)
    ensures
        octal_digits_of(n).len() >= 1,
        all_octal(octal_digits_of(n)),
        octal_val(octal_digits_of(n)) == n,
    decreases n,
{
    if n < 8 {
        let d = octal_digits_of(n);
        assert(d.drop_last() =~= Seq::<u8>::empty());
        assert(octal_val(d) == octal_val(d.drop_last()) * 8 + digit_val(d.last()));
    } else {
        lemma_octal_digits_of(n / 8);
        let d = octal_digits_of(n);
        assert(d.drop_last() =~= octal_digits_of(n / 8));
        assert(octal_val(d) == (n / 8) * 8 + n % 8);
        assert((n / 8) * 8 + n % 8 == n) by (nonlinear_arith);
    }
}

/// The digit string of `n` has at most `k` digits exactly when `n < 8^k`.
pub proof fn lemma_octal_digits_len(n: nat, k: nat)
    requires
        k >= 1,
    ensures
        octal_digits_of(n).len() <= k <==> n < pow8(k),
    decreases k,
{
    if n < 8 {
        assert(pow8(k) >= 8) by {
            reveal_with_fuel(pow8, 2);
            lemma_pow8_grows(1, k);
        }
    } else if k == 1 {
        reveal_with_fuel(pow8, 2);
        lemma_octal_digits_of(n / 8);
        assert(octal_digits_of(n).len() >= 2);
    } else {
        lemma_octal_digits_len(n / 8, (k - 1) as nat);
        assert(n / 8 < pow8((k - 1) as nat) <==> n < pow8(k)) by (nonlinear_arith)
            requires
                n >= 8,
                pow8(k) == 8 * pow8((k - 1) as nat),
        ;
    }
}

pub proof fn lemma_pow8_grows(j: nat, k: nat)
    requires
        j <= k,
    ensures
        pow8(j) <= pow8(k),
    decreases k,
{
    if j < k {
        lemma_pow8_grows(j, (k - 1) as nat);
        assert(pow8((k - 1) as nat) <= 8 * pow8((k - 1) as nat)) by (nonlinear_arith)
            requires
                pow8((k - 1) as nat) >= 0,
        ;
    }
}

/// Leading `'0'` digits do not change the value of a digit string.
pub proof fn lemma_octal_val_pad(p: nat, d: Seq<u8>)
    ensures
        octal_val(Seq::new(p, |i: int| 0x30u8) + d) == octal_val(d),
    decreases d.len(),
{
    let z = Seq::new(p, |i: int| 0x30u8);
    if d.len() == 0 {
        assert(z + d =~= z);
        lemma_octal_val_zeros(p);
    } else {
        lemma_octal_val_pad(p, d.drop_last());
        assert((z + d).drop_last() =~= z + d.drop_last());
        assert((z + d).last() == d.last());
    }
}

pub proof fn lemma_octal_val_zeros(p: nat)
    ensures
        octal_val(Seq::new(p, |i: int| 0x30u8)) == 0,
    decreases p,
{
    let z = Seq::new(p, |i: int| 0x30u8);
    if p > 0 {
        lemma_octal_val_zeros((p - 1) as nat);
        assert(z.drop_last() =~= Seq::new((p - 1) as nat, |i: int| 0x30u8));
    }
}

// ---------------------------------------------------------------------------
// Field decoding, as seen by contracts
// ---------------------------------------------------------------------------

/// The data bytes of a string field: everything before the first NUL.
pub open spec fn str_field_data(f: Seq<u8>) -> Seq<u8> {
    f.take(first_pos(f, 0x00))
}

/// The data bytes of a terminated field: the field is first cut at the
/// first ASCII space (the whole field when none is present), then at the
/// first NUL.
pub open spec fn term_field_data(f: Seq<u8>) -> Seq<u8> {
    str_field_data(f.take(first_pos(f, 0x20)))
}

/// Decoding an optional string field: empty data is an absent value,
/// bytes that are not UTF-8 are unsupported.
pub open spec fn decode_string_opt_spec(f: Seq<u8>) -> Result<Option<Seq<char>>, ErrKind> {
    let data = str_field_data(f);
    if data.len() == 0 {
        Ok(None)
    } else if !valid_utf8(data) {
        Err(ErrKind::Unsupported)
    } else {
        Ok(Some(decode_utf8(data)))
    }
}

/// Decoding a required string field: an absent value is invalid data.
pub open spec fn decode_string_req_spec(f: Seq<u8>) -> Result<Seq<char>, ErrKind> {
    match decode_string_opt_spec(f) {
        Ok(Some(s)) => Ok(s),
        Ok(None) => Err(ErrKind::InvalidData),
        Err(k) => Err(k),
    }
}

/// Parsing a non-empty, trimmed digit string: an optional leading `'+'`,
/// then at least one octal digit, with a value that fits in a `u64`.
pub open spec fn parse_octal_spec(t: Seq<u8>) -> Result<u64, ErrKind> {
    let d = if t[0] == 0x2b {
        t.skip(1)
    } else {
        t
    };
    if d.len() == 0 || !all_octal(d) {
        Err(ErrKind::InvalidData)
    } else if octal_val(d) > u64::MAX {
        Err(ErrKind::InvalidData)
    } else {
        Ok(octal_val(d) as u64)
    }
}

/// Decoding an optional octal field: terminated-string decode, then a trim
/// of trailing ASCII whitespace, then base-8 parsing; empty data before or
/// after the trim is an absent value.
pub open spec fn decode_octal_opt_spec(f: Seq<u8>) -> Result<Option<u64>, ErrKind> {
    let data = term_field_data(f);
    if data.len() == 0 {
        Ok(None)
    } else if !valid_utf8(data) {
        Err(ErrKind::Unsupported)
    } else {
        let t = trim_ws_end(data);
        if t.len() == 0 {
            Ok(None)
        } else {
            match parse_octal_spec(t) {
                Ok(v) => Ok(Some(v)),
                Err(k) => Err(k),
            }
        }
    }
}

/// Decoding a required octal field: an absent value is invalid data.
pub open spec fn decode_octal_req_spec(f: Seq<u8>) -> Result<u64, ErrKind> {
    match decode_octal_opt_spec(f) {
        Ok(Some(v)) => Ok(v),
        Ok(None) => Err(ErrKind::InvalidData),
        Err(k) => Err(k),
    }
}

// ---------------------------------------------------------------------------
// Field encoding, as seen by contracts
// ---------------------------------------------------------------------------

/// The encoded form of the number `v` in a terminated field of width `w`:
/// digits left-padded with `'0'` to width `w - 1`, then a NUL terminator.
pub open spec fn octal_field(v: nat, w: nat) -> Seq<u8>
    recommends
        octal_digits_of(v).len() <= w - 1,
{
    Seq::new((w - 1 - octal_digits_of(v).len()) as nat, |i: int| 0x30u8) + octal_digits_of(v)
        + seq![0x00u8]
}

/// Encoding an optional octal field of width `w`: an absent value encodes
/// as an empty digit string, and a digit string longer than `w - 1` is an
/// API misuse.
pub open spec fn encode_octal_spec(v: Option<u64>, w: nat) -> Result<Seq<u8>, ErrKind> {
    let digits = match v {
        Some(n) => octal_digits_of(n as nat),
        None => Seq::<u8>::empty(),
    };
    if w == 0 {
        Err(ErrKind::ApiMisuse)
    } else if digits.len() > w - 1 {
        Err(ErrKind::ApiMisuse)
    } else {
        Ok(Seq::new((w - 1 - digits.len()) as nat, |i: int| 0x30u8) + digits + seq![0x00u8])
    }
}

/// Encoding an optional string field of width `w`: the UTF-8 bytes of the
/// value (none for an absent value), NUL-filled up to the width; bytes
/// that do not fit are an API misuse.
pub open spec fn encode_string_opt_spec(v: Option<Seq<char>>, w: nat) -> Result<Seq<u8>, ErrKind> {
    let bytes = match v {
        Some(s) => encode_utf8(s),
        None => Seq::<u8>::empty(),
    };
    if bytes.len() > w {
        Err(ErrKind::ApiMisuse)
    } else {
        Ok(bytes + zero_seq((w - bytes.len()) as nat))
    }
}

/// Encoding a required string field: an empty value is invalid data.
pub open spec fn encode_string_req_spec(s: Seq<char>, w: nat) -> Result<Seq<u8>, ErrKind> {
    if s.len() == 0 {
        Err(ErrKind::InvalidData)
    } else {
        encode_string_opt_spec(Some(s), w)
    }
}

/// The view of an optional string reference.
pub open spec fn opt_str_view(v: Option<&str>) -> Option<Seq<char>> {
    match v {
        Some(s) => Some(s@),
        None => None,
    }
}

/// The value of a digit-string prefix never exceeds the value of the whole.
pub proof fn lemma_octal_val_take_mono(s: Seq<u8>, i: int, j: int)
    requires
        0 <= i <= j <= s.len(),
    ensures
        octal_val(s.take(i)) <= octal_val(s.take(j)),
    decreases j - i,
{
    if i < j {
        lemma_octal_val_take_mono(s, i, j - 1);
        assert(s.take(j).drop_last() =~= s.take(j - 1));
        assert(octal_val(s.take(j)) == octal_val(s.take(j - 1)) * 8 + digit_val(s.take(j).last()));
        assert(octal_val(s.take(j - 1)) * 8 >= octal_val(s.take(j - 1))) by (nonlinear_arith)
            requires
                octal_val(s.take(j - 1)) >= 0,
        ;
    }
}

// ---------------------------------------------------------------------------
// Executable codec
// ---------------------------------------------------------------------------

/// The index of the first occurrence of `b` in `v[..limit]`, or `limit`
/// if `b` does not occur there.
pub fn position_upto(v: &Vec<u8>, limit: usize, b: u8) -> (r: usize)
    requires
        limit <= v@.len(),
    ensures
        r == first_pos(v@.take(limit as int), b),
{
    let ghost s = v@.take(limit as int);
    let mut i: usize = 0;
    while i < limit
        invariant
            0 <= i <= limit <= v@.len(),
            s == v@.take(limit as int),
            forall|j: int| 0 <= j < i ==> s[j] != b,
        decreases limit - i,
    {
        if v[i] == b {
            proof {
                lemma_first_pos_is(s, b, i as int);
            }
            return i;
        }
        i += 1;
    }
    proof {
        lemma_first_pos_is(s, b, limit as int);
    }
    limit
}

/// A copy of the bytes `v[start..end]`.
pub fn copy_range(v: &Vec<u8>, start: usize, end: usize) -> (r: Vec<u8>)
    requires
        start <= end <= v@.len(),
    ensures
        r@ == v@.subrange(start as int, end as int),
{
    slice_to_vec(slice_subrange(v.as_slice(), start, end))
}

/// Relies on `String::from_utf8`: it succeeds exactly on the byte
/// sequences that are valid UTF-8, and then returns the string those bytes
/// encode.
#[verifier::external_body]
fn string_from_utf8(bytes: Vec<u8>) -> (r: Option<String>)
    ensures
        match r {
            Some(s) => valid_utf8(bytes@) && s@ == decode_utf8(bytes@),
            None => !valid_utf8(bytes@),
        },
{
    String::from_utf8(bytes).ok()
}

/// Decodes an optional string field: the bytes before the first NUL,
/// as UTF-8; an empty region is an absent value.
pub fn decode_string_opt(field: &Vec<u8>) -> (r: Result<Option<String>, BasicTarError>)
    ensures
        r is Ok <==> decode_string_opt_spec(field@) is Ok,
        r is Ok ==> (r->Ok_0 is Some <==> decode_string_opt_spec(field@)->Ok_0 is Some),
        r is Ok && r->Ok_0 is Some ==> r->Ok_0.unwrap()@ == decode_string_opt_spec(
            field@,
        )->Ok_0.unwrap(),
        r is Err ==> err_kind(r->Err_0) == decode_string_opt_spec(field@)->Err_0,
{
    let nul = position_upto(field, field.len(), 0x00);
    proof {
        assert(field@.take(field@.len() as int) =~= field@);
    }
    if nul == 0 {
        proof {
            assert(str_field_data(field@).len() == 0);
        }
        return Ok(None);
    }
    proof {
        lemma_first_pos(field@, 0x00);
        assert(str_field_data(field@) =~= field@.subrange(0, nul as int));
    }
    let data = copy_range(field, 0, nul);
    match string_from_utf8(data) {
        Some(s) => Ok(Some(s)),
        None => Err(BasicTarError::Unsupported("Header field is not UTF-8")),
    }
}

/// Decodes a required string field: as the optional decode, except that an
/// absent value is invalid data.
pub fn decode_string_req(field: &Vec<u8>) -> (r: Result<String, BasicTarError>)
    ensures
        r is Ok <==> decode_string_req_spec(field@) is Ok,
        r is Ok ==> r->Ok_0@ == decode_string_req_spec(field@)->Ok_0,
        r is Err ==> err_kind(r->Err_0) == decode_string_req_spec(field@)->Err_0,
{
    match decode_string_opt(field) {
        Ok(Some(s)) => Ok(s),
        Ok(None) => Err(BasicTarError::InvalidData("Required field is empty")),
        Err(e) => Err(e),
    }
}

/// Whether `b` is an ASCII whitespace byte.
fn is_ws_byte(b: u8) -> (r: bool)
    ensures
        r == is_ascii_ws(b),
{
    b == 0x09 || b == 0x0a || b == 0x0b || b == 0x0c || b == 0x0d || b == 0x20
}

/// Decodes an optional octal field: terminated-string decode, a trim of
/// trailing ASCII whitespace, then base-8 parsing with an optional leading
/// `'+'`; an empty region decodes as an absent value.
pub fn decode_octal_opt(field: &Vec<u8>) -> (r: Result<Option<u64>, BasicTarError>)
    ensures
        r is Ok <==> decode_octal_opt_spec(field@) is Ok,
        r is Ok ==> r->Ok_0 == decode_octal_opt_spec(field@)->Ok_0,
        r is Err ==> err_kind(r->Err_0) == decode_octal_opt_spec(field@)->Err_0,
{
    let sp = position_upto(field, field.len(), 0x20);
    proof {
        assert(field@.take(field@.len() as int) =~= field@);
        lemma_first_pos(field@, 0x20);
    }
    let nul = position_upto(field, sp, 0x00);
    let ghost data = term_field_data(field@);
    proof {
        lemma_first_pos(field@.take(sp as int), 0x00);
        assert(data =~= field@.subrange(0, nul as int));
    }
    if nul == 0 {
        return Ok(None);
    }
    let bytes = copy_range(field, 0, nul);
    match string_from_utf8(bytes) {
        None => {
            return Err(BasicTarError::Unsupported("Header field is not UTF-8"));
        },
        Some(_) => {},
    }
    let mut e: usize = nul;
    while e > 0 && is_ws_byte(field[e - 1])
        invariant
            0 <= e <= nul <= sp <= field@.len(),
            data == term_field_data(field@),
            data =~= field@.subrange(0, nul as int),
            data.len() > 0,
            valid_utf8(data),
            trim_ws_end(data) == trim_ws_end(field@.take(e as int)),
        decreases e,
    {
        proof {
            assert(field@.take(e as int).drop_last() =~= field@.take(e as int - 1));
        }
        e -= 1;
    }
    let ghost t = trim_ws_end(data);
    if e == 0 {
        proof {
            assert(field@.take(0) =~= Seq::<u8>::empty());
        }
        return Ok(None);
    }
    proof {
        assert(field@.take(e as int).last() == field@[e as int - 1]);
        assert(t == field@.take(e as int));
    }
    let start: usize = if field[0] == 0x2b {
        1
    } else {
        0
    };
    let ghost d = if t[0] == 0x2b {
        t.skip(1)
    } else {
        t
    };
    proof {
        assert(t[0] == field@[0]);
        assert(d.len() == e - start);
        assert(forall|k: int| 0 <= k < d.len() ==> d[k] == field@[k + start]);
    }
    if start >= e {
        return Err(BasicTarError::InvalidData("Invalid octal number"));
    }
    let mut v: u64 = 0;
    let mut i: usize = start;
    while i < e
        invariant
            start <= i <= e <= field@.len(),
            start < e,
            start <= 1,
            data == term_field_data(field@),
            data.len() > 0,
            valid_utf8(data),
            t == trim_ws_end(data),
            t.len() == e,
            d == (if t[0] == 0x2b {
                t.skip(1)
            } else {
                t
            }),
            d.len() == e - start,
            forall|k: int| 0 <= k < d.len() ==> d[k] == field@[k + start],
            forall|k: int| 0 <= k < i - start ==> is_octal_digit(#[trigger] d[k]),
            v == octal_val(d.take(i - start)),
        decreases e - i,
    {
        let b = field[i];
        if b < 0x30 || b > 0x37 {
            proof {
                assert(d[i - start] == field@[i as int]);
                assert(!all_octal(d));
            }
            return Err(BasicTarError::InvalidData("Invalid octal number"));
        }
        let dv: u8 = b - 0x30;
        proof {
            assert(d.take(i - start + 1).drop_last() =~= d.take(i - start));
            assert(d.take(i - start + 1).last() == d[i - start]);
            assert(digit_val(d[i - start]) == dv);
        }
        if v > u64::MAX / 8 {
            proof {
                assert(octal_val(d.take(i - start + 1)) == v * 8 + dv);
                lemma_octal_val_take_mono(d, i - start + 1, d.len() as int);
                assert(d.take(d.len() as int) =~= d);
                assert(octal_val(d) > u64::MAX);
            }
            return Err(BasicTarError::InvalidData("Invalid octal number"));
        }
        v = v * 8 + dv as u64;
        i += 1;
    }
    proof {
        assert(d.take(d.len() as int) =~= d);
        assert(all_octal(d));
        assert(octal_val(d) == v);
        assert(parse_octal_spec(t) == Ok::<u64, ErrKind>(v));
    }
    Ok(Some(v))
}

/// Decodes a required octal field: as the optional decode, except that an
/// absent value is invalid data.
pub fn decode_octal_req(field: &Vec<u8>) -> (r: Result<u64, BasicTarError>)
    ensures
        r is Ok <==> decode_octal_req_spec(field@) is Ok,
        r is Ok ==> r->Ok_0 == decode_octal_req_spec(field@)->Ok_0,
        r is Err ==> err_kind(r->Err_0) == decode_octal_req_spec(field@)->Err_0,
{
    match decode_octal_opt(field) {
        Ok(Some(v)) => Ok(v),
        Ok(None) => Err(BasicTarError::InvalidData("Required field is empty")),
        Err(e) => Err(e),
    }
}

/// The minimal-width octal digit string of `n`.
pub fn octal_digits(n: u64) -> (r: Vec<u8>)
    ensures
        r@ == octal_digits_of(n as nat),
    decreases n,
{
    if n < 8 {
        let mut v: Vec<u8> = Vec::new();
        v.push(0x30 + n as u8);
        proof {
            assert(v@ =~= octal_digits_of(n as nat));
        }
        v
    } else {
        let mut v = octal_digits(n / 8);
        v.push(0x30 + (n % 8) as u8);
        v
    }
}

/// Encodes an optional octal field of width `w`: the digit string of the
/// value (empty for an absent value), left-padded with `'0'` to `w - 1`
/// digits, then a NUL terminator.
pub fn encode_octal(v: Option<u64>, w: usize) -> (r: Result<Vec<u8>, BasicTarError>)
    ensures
        r is Ok <==> encode_octal_spec(v, w as nat) is Ok,
        r is Ok ==> r->Ok_0@ == encode_octal_spec(v, w as nat)->Ok_0,
        r is Err ==> err_kind(r->Err_0) == encode_octal_spec(v, w as nat)->Err_0,
{
    if w == 0 {
        return Err(BasicTarError::ApiMisuse("`field` is too small to hold the value"));
    }
    let digits: Vec<u8> = match v {
        Some(n) => octal_digits(n),
        None => Vec::new(),
    };
    proof {
        if v is None {
            assert(digits@ =~= Seq::<u8>::empty());
        }
    }
    if digits.len() > w - 1 {
        return Err(BasicTarError::ApiMisuse("`field` is too small to hold the value"));
    }
    let pad = w - 1 - digits.len();
    let mut out: Vec<u8> = Vec::new();
    let mut i: usize = 0;
    while i < pad
        invariant
            0 <= i <= pad,
            out@ =~= Seq::new(i as nat, |k: int| 0x30u8),
        decreases pad - i,
    {
        out.push(0x30);
        i += 1;
        proof {
            assert(out@ =~= Seq::new(i as nat, |k: int| 0x30u8));
        }
    }
    out.extend_from_slice(digits.as_slice());
    out.push(0x00);
    proof {
        assert(out@ =~= Seq::new(pad as nat, |k: int| 0x30u8) + digits@ + seq![0x00u8]);
    }
    Ok(out)
}

/// Encodes an optional string field of width `w`: the UTF-8 bytes of the
/// value (none for an absent value), NUL-filled up to the width.
pub fn encode_string_opt(v: Option<&str>, w: usize) -> (r: Result<Vec<u8>, BasicTarError>)
    ensures
        r is Ok <==> encode_string_opt_spec(opt_str_view(v), w as nat) is Ok,
        r is Ok ==> r->Ok_0@ == encode_string_opt_spec(opt_str_view(v), w as nat)->Ok_0,
        r is Err ==> err_kind(r->Err_0) == encode_string_opt_spec(opt_str_view(v), w as nat)->Err_0,
{
    let mut out: Vec<u8> = match v {
        Some(s) => s.as_bytes_vec(),
        None => Vec::new(),
    };
    proof {
        if v is None {
            assert(out@ =~= Seq::<u8>::empty());
        }
    }
    if out.len() > w {
        return Err(BasicTarError::ApiMisuse("`field` is too small to hold the value"));
    }
    let ghost bytes = out@;
    while out.len() < w
        invariant
            bytes.len() <= out@.len() <= w,
            out@ =~= bytes + zero_seq((out@.len() - bytes.len()) as nat),
        decreases w - out@.len(),
    {
        out.push(0x00);
        proof {
            assert(out@ =~= bytes + zero_seq((out@.len() - bytes.len()) as nat));
        }
    }
    Ok(out)
}

/// Encodes a required string field: as the optional encode, except that an
/// empty value is invalid data.
pub fn encode_string_req(s: &str, w: usize) -> (r: Result<Vec<u8>, BasicTarError>)
    ensures
        r is Ok <==> encode_string_req_spec(s@, w as nat) is Ok,
        r is Ok ==> r->Ok_0@ == encode_string_req_spec(s@, w as nat)->Ok_0,
        r is Err ==> err_kind(r->Err_0) == encode_string_req_spec(s@, w as nat)->Err_0,
{
    if s.is_empty() {
        Err(BasicTarError::InvalidData("Required field is empty"))
    } else {
        encode_string_opt(Some(s), w)
    }
}

} // verus!
