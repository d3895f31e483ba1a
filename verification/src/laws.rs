//! The laws of the codec: round-trip and sensitivity properties, proved
//! over the same specification functions the contracts use.

use vstd::prelude::*;
use vstd::utf8::{
    valid_utf8, decode_utf8, encode_utf8, encode_scalar, is_ascii_chars, is_ascii_chars_encode_utf8,
    encode_utf8_valid_utf8, encode_utf8_decode_utf8,
};
use crate::ErrKind;
use crate::codec::{
    zero_seq, first_pos, lemma_first_pos_is, lemma_first_pos, trim_ws_end, is_octal_digit,
    all_octal, octal_val, octal_digits_of, pow8, lemma_octal_digits_of, lemma_octal_digits_len,
    lemma_octal_val_pad, octal_field, str_field_data, term_field_data, decode_string_opt_spec,
    decode_string_req_spec, decode_octal_opt_spec, decode_octal_req_spec, encode_octal_spec,
    encode_string_req_spec, encode_string_opt_spec,
};
use crate::raw::{zero_block, byte_sum, checksum_input, checksum_of, lemma_byte_sum_bound, verify_spec};
use crate::header::{HeaderView, parse_spec, serialize_spec, assemble_spec};

verus! {

/// A sequence of bytes below `0x80` is valid UTF-8 and decodes to those
/// bytes read as characters.
pub proof fn lemma_ascii_bytes_utf8(b: Seq<u8>)
    requires
        forall|i: int| 0 <= i < b.len() ==> #[trigger] b[i] < 0x80,
    ensures
        valid_utf8(b),
        decode_utf8(b) == Seq::new(b.len(), |i: int| b[i] as char),
        encode_utf8(Seq::new(b.len(), |i: int| b[i] as char)) == b,
{
    let chars = Seq::new(b.len(), |i: int| b[i] as char);
    assert forall|i: int| 0 <= i < chars.len() implies '\0' <= #[trigger] chars[i] <= '\u{7f}' by {
        assert(b[i] < 0x80);
        assert(chars[i] as u32 == b[i] as u32);
    }
    assert(is_ascii_chars(chars));
    is_ascii_chars_encode_utf8(chars);
    assert(encode_utf8(chars) =~= b);
    encode_utf8_valid_utf8(chars);
    encode_utf8_decode_utf8(chars);
}

/// A digit string padded into a terminated octal field decodes back to
/// its value: the octal field codec round-trips every value whose minimal
/// digit string fits the field.
pub proof fn lemma_octal_field_round_trip(v: u64, w: nat)
    requires
        2 <= w,
        octal_digits_of(v as nat).len() <= w - 1,
    ensures
        octal_field(v as nat, w).len() == w,
        decode_octal_opt_spec(octal_field(v as nat, w)) == Ok::<Option<u64>, ErrKind>(Some(v)),
        decode_octal_req_spec(octal_field(v as nat, w)) == Ok::<u64, ErrKind>(v),
{
    lemma_octal_digits_of(v as nat);
    let digits = octal_digits_of(v as nat);
    let pad = Seq::new((w - 1 - digits.len()) as nat, |i: int| 0x30u8);
    let f = octal_field(v as nat, w);
    assert(f == pad + digits + seq![0x00u8]);
    assert(f.len() == w);
    assert(forall|j: int| 0 <= j < w - 1 ==> is_octal_digit(#[trigger] f[j]));
    assert(f[w - 1] == 0x00);

    // No space anywhere, so the space cut keeps the whole field.
    lemma_first_pos_is(f, 0x20, w as int);
    assert(f.take(w as int) =~= f);
    // The first NUL is the terminator byte.
    lemma_first_pos_is(f, 0x00, w as int - 1);
    let data = term_field_data(f);
    assert(data =~= pad + digits);
    assert(data.len() == w - 1 >= 1);

    // Digit bytes are ASCII, so the data region is valid UTF-8.
    assert(forall|i: int| 0 <= i < data.len() ==> #[trigger] data[i] < 0x80);
    lemma_ascii_bytes_utf8(data);

    // Digits carry no trailing whitespace, no sign, and their value.
    assert(data.last() == digits.last());
    assert(trim_ws_end(data) == data);
    assert(data[0] != 0x2b);
    assert(all_octal(data));
    lemma_octal_val_pad((w - 1 - digits.len()) as nat, digits);
    assert(octal_val(data) == v);
}

/// Octal encoding succeeds exactly when the value fits in one digit fewer
/// than the field width, and what it wrote decodes back to the value.
pub proof fn lemma_octal_round_trip(v: u64, w: nat)
    requires
        2 <= w,
    ensures
        encode_octal_spec(Some(v), w) is Ok <==> v < pow8((w - 1) as nat),
        v < pow8((w - 1) as nat) ==> decode_octal_req_spec(encode_octal_spec(Some(v), w)->Ok_0)
            == Ok::<u64, ErrKind>(v),
{
    lemma_octal_digits_len(v as nat, (w - 1) as nat);
    if v < pow8((w - 1) as nat) {
        lemma_octal_field_round_trip(v, w);
        assert(encode_octal_spec(Some(v), w)->Ok_0 == octal_field(v as nat, w));
    }
}

/// A string written into a NUL-filled field decodes back to itself, as
/// long as its own encoding holds no NUL byte; an empty value reads back
/// as absent.
pub proof fn lemma_string_field_round_trip(p: Seq<char>, w: nat)
    requires
        encode_utf8(p).len() <= w,
        forall|i: int| 0 <= i < encode_utf8(p).len() ==> #[trigger] encode_utf8(p)[i] != 0x00,
    ensures
        ({
            let f = encode_utf8(p) + zero_seq((w - encode_utf8(p).len()) as nat);
            &&& f.len() == w
            &&& decode_string_opt_spec(f) == if p.len() == 0 {
                Ok::<Option<Seq<char>>, ErrKind>(None)
            } else {
                Ok::<Option<Seq<char>>, ErrKind>(Some(p))
            }
        }),
{
    let b = encode_utf8(p);
    let f = b + zero_seq((w - b.len()) as nat);
    lemma_first_pos_is(f, 0x00, b.len() as int);
    assert(str_field_data(f) =~= b);
    if p.len() == 0 {
        assert(b.len() == 0);
    } else {
        assert(b == encode_scalar(p[0] as u32) + encode_utf8(p.drop_first()));
        assert(encode_scalar(p[0] as u32).len() >= 1);
        assert(b.len() > 0);
        encode_utf8_valid_utf8(p);
        encode_utf8_decode_utf8(p);
    }
}

/// An all-zero field decodes as an absent value, for strings and for
/// octal numbers alike.
pub proof fn lemma_zero_field_absent(w: nat)
    ensures
        decode_string_opt_spec(zero_seq(w)) == Ok::<Option<Seq<char>>, ErrKind>(None),
        decode_octal_opt_spec(zero_seq(w)) == Ok::<Option<u64>, ErrKind>(None),
{
    let f = zero_seq(w);
    lemma_first_pos_is(f, 0x00, 0);
    if w == 0 {
        lemma_first_pos_is(f, 0x20, 0);
        assert(f.take(first_pos(f, 0x20)) =~= f);
        lemma_first_pos_is(f.take(first_pos(f, 0x20)), 0x00, 0);
    } else {
        lemma_first_pos_is(f, 0x20, w as int);
        assert(f.take(w as int) =~= f);
    }
    assert(str_field_data(f).len() == 0);
    assert(term_field_data(f).len() == 0);
}

/// An absent optional number encodes as an all-`'0'` digit string, which
/// reads back as the value zero, not as absent: this is why the
/// round-trip law asks for present numeric fields.
pub proof fn lemma_absent_octal_reads_back_zero(w: nat)
    requires
        2 <= w,
    ensures
        encode_octal_spec(None, w)->Ok_0 == encode_octal_spec(Some(0u64), w)->Ok_0,
        decode_octal_opt_spec(encode_octal_spec(None, w)->Ok_0) == Ok::<Option<u64>, ErrKind>(
            Some(0u64),
        ),
{
    lemma_octal_digits_of(0);
    lemma_octal_field_round_trip(0u64, w);
    assert(encode_octal_spec(Some(0u64), w)->Ok_0 =~= octal_field(0, w));
    assert(encode_octal_spec(None, w)->Ok_0 =~= octal_field(0, w));
}

/// The checksum does not read the checksum field: two blocks that agree
/// everywhere outside it have the same checksum.
pub proof fn lemma_checksum_ignores_field(a: Seq<u8>, b: Seq<u8>)
    requires
        a.len() == b.len(),
        forall|i: int| 0 <= i < a.len() && !(148 <= i < 156) ==> a[i] == b[i],
    ensures
        checksum_of(a) == checksum_of(b),
{
    assert(checksum_input(a) =~= checksum_input(b));
}

/// Changing exactly one byte changes the byte sum by that byte's
/// difference.
pub proof fn lemma_byte_sum_one_change(a: Seq<u8>, b: Seq<u8>, i: int)
    requires
        a.len() == b.len(),
        0 <= i < a.len(),
        forall|j: int| 0 <= j < a.len() && j != i ==> a[j] == b[j],
    ensures
        byte_sum(a) - byte_sum(b) == a[i] - b[i],
    decreases a.len(),
{
    if i == a.len() - 1 {
        assert(a.drop_last() =~= b.drop_last());
    } else {
        lemma_byte_sum_one_change(a.drop_last(), b.drop_last(), i);
        assert(a.drop_last()[i] == a[i]);
        assert(b.drop_last()[i] == b[i]);
        assert(a.last() == b.last());
    }
}

/// Round-trip: a header whose field values fit their byte-width
/// constraints — a non-empty path of at most 100 UTF-8 bytes holding no
/// NUL, present numeric fields that fit their digit widths, and a
/// linkname that is either absent or shaped like the path — serializes,
/// and parsing the serialized block yields the header back.
pub proof fn lemma_round_trip(h: HeaderView)
    requires
        h.path.len() > 0,
        encode_utf8(h.path).len() <= 100,
        forall|i: int| 0 <= i < encode_utf8(h.path).len() ==> #[trigger] encode_utf8(h.path)[i]
            != 0x00,
        h.mode is Some && h.mode.unwrap() < 2097152,
        h.uid is Some && h.uid.unwrap() < 2097152,
        h.gid is Some && h.gid.unwrap() < 2097152,
        h.size < 8589934592,
        h.mtime is Some && h.mtime.unwrap() < 8589934592,
        h.linkname is Some ==> h.linkname.unwrap().len() > 0,
        h.linkname is Some ==> encode_utf8(h.linkname.unwrap()).len() <= 100,
        h.linkname is Some ==> forall|i: int|
            0 <= i < encode_utf8(h.linkname.unwrap()).len() ==> #[trigger] encode_utf8(
                h.linkname.unwrap(),
            )[i] != 0x00,
    ensures
        serialize_spec(h) is Ok,
        parse_spec(serialize_spec(h)->Ok_0) == Ok::<HeaderView, ErrKind>(h),
{
    assert(pow8(7) == 2097152) by {
        reveal_with_fuel(pow8, 8);
    }
    assert(pow8(11) == 8589934592) by {
        reveal_with_fuel(pow8, 12);
    }

    // The encoded fields.
    let pathb = encode_utf8(h.path);
    let namef = pathb + zero_seq((100 - pathb.len()) as nat);
    lemma_string_field_round_trip(h.path, 100);
    assert(encode_string_req_spec(h.path, 100) == Ok::<Seq<u8>, ErrKind>(namef));

    let m = h.mode.unwrap();
    lemma_octal_digits_len(m as nat, 7);
    lemma_octal_field_round_trip(m, 8);
    let modef = octal_field(m as nat, 8);
    assert(encode_octal_spec(h.mode, 8) == Ok::<Seq<u8>, ErrKind>(modef));

    let u = h.uid.unwrap();
    lemma_octal_digits_len(u as nat, 7);
    lemma_octal_field_round_trip(u, 8);
    let uidf = octal_field(u as nat, 8);
    assert(encode_octal_spec(h.uid, 8) == Ok::<Seq<u8>, ErrKind>(uidf));

    let g = h.gid.unwrap();
    lemma_octal_digits_len(g as nat, 7);
    lemma_octal_field_round_trip(g, 8);
    let gidf = octal_field(g as nat, 8);
    assert(encode_octal_spec(h.gid, 8) == Ok::<Seq<u8>, ErrKind>(gidf));

    lemma_octal_digits_len(h.size as nat, 11);
    lemma_octal_field_round_trip(h.size, 12);
    let sizef = octal_field(h.size as nat, 12);
    assert(encode_octal_spec(Some(h.size), 12) == Ok::<Seq<u8>, ErrKind>(sizef));

    let t = h.mtime.unwrap();
    lemma_octal_digits_len(t as nat, 11);
    lemma_octal_field_round_trip(t, 12);
    let mtimef = octal_field(t as nat, 12);
    assert(encode_octal_spec(h.mtime, 12) == Ok::<Seq<u8>, ErrKind>(mtimef));

    let linkf: Seq<u8> = match h.linkname {
        Some(l) => encode_utf8(l) + zero_seq((100 - encode_utf8(l).len()) as nat),
        None => zero_seq(100),
    };
    match h.linkname {
        Some(l) => {
            lemma_string_field_round_trip(l, 100);
        },
        None => {
            assert(Seq::<u8>::empty() + zero_seq(100) =~= zero_seq(100));
            lemma_zero_field_absent(100);
        },
    }
    assert(encode_string_opt_spec(h.linkname, 100) == Ok::<Seq<u8>, ErrKind>(linkf));
    assert(linkf.len() == 100);

    // The assembled block.
    let pre = namef + modef + uidf + gidf + sizef + mtimef;
    let post = seq![h.typeflag] + linkf + zero_seq(255);
    assert(pre.len() == 148);
    assert(post.len() == 356);
    let b0 = pre + zero_seq(8) + post;
    let ck = checksum_of(b0);
    lemma_byte_sum_bound(checksum_input(b0));
    assert(checksum_input(b0).len() == 512);
    assert(0 <= ck <= 255 * 512);
    let cku = ck as u64;
    lemma_octal_digits_len(cku as nat, 7);
    lemma_octal_field_round_trip(cku, 8);
    let ckf = octal_field(cku as nat, 8);
    let s = assemble_spec(pre, post);
    assert(s == pre + ckf + post);
    assert(serialize_spec(h) == Ok::<Seq<u8>, ErrKind>(s));
    assert(s.len() == 512);

    // The block is not the empty-header sentinel.
    assert(s[0] == pathb[0]);
    assert(pathb[0] != 0x00);
    assert(zero_block()[0] == 0x00);
    assert(s != zero_block());

    // The checksum field verifies.
    assert(s.subrange(148, 156) =~= ckf);
    lemma_checksum_ignores_field(s, b0);
    assert(checksum_of(s) == ck);
    assert(decode_octal_req_spec(s.subrange(148, 156)) == Ok::<u64, ErrKind>(cku));
    assert(verify_spec(s) is Ok);

    // Every field reads back.
    assert(s.subrange(0, 100) =~= namef);
    assert(decode_string_req_spec(s.subrange(0, 100)) == Ok::<Seq<char>, ErrKind>(h.path));
    assert(s.subrange(100, 108) =~= modef);
    assert(decode_octal_opt_spec(s.subrange(100, 108)) == Ok::<Option<u64>, ErrKind>(h.mode));
    assert(s.subrange(108, 116) =~= uidf);
    assert(decode_octal_opt_spec(s.subrange(108, 116)) == Ok::<Option<u64>, ErrKind>(h.uid));
    assert(s.subrange(116, 124) =~= gidf);
    assert(decode_octal_opt_spec(s.subrange(116, 124)) == Ok::<Option<u64>, ErrKind>(h.gid));
    assert(s.subrange(124, 136) =~= sizef);
    assert(decode_octal_req_spec(s.subrange(124, 136)) == Ok::<u64, ErrKind>(h.size));
    assert(s.subrange(136, 148) =~= mtimef);
    assert(decode_octal_opt_spec(s.subrange(136, 148)) == Ok::<Option<u64>, ErrKind>(h.mtime));
    assert(s[156] == h.typeflag);
    assert(s.subrange(157, 257) =~= linkf);
    assert(decode_string_opt_spec(s.subrange(157, 257)) == Ok::<Option<Seq<char>>, ErrKind>(
        h.linkname,
    ));

    assert(parse_spec(s) == Ok::<HeaderView, ErrKind>(h));
}

/// A field that decodes as a required octal number starts with a data
/// byte, not a NUL.
proof fn lemma_req_octal_field_nonzero(f: Seq<u8>)
    requires
        decode_octal_req_spec(f) is Ok,
        f.len() > 0,
    ensures
        f[0] != 0x00,
{
    let data = term_field_data(f);
    assert(data.len() > 0);
    let sp = first_pos(f, 0x20);
    let pre = f.take(sp);
    let nul = first_pos(pre, 0x00);
    lemma_first_pos(f, 0x20);
    lemma_first_pos(pre, 0x00);
    assert(data == pre.take(nul));
    assert(nul > 0);
    assert(pre[0] != 0x00);
    assert(f[0] == pre[0]);
}

/// Checksum sensitivity: changing any one byte of a parseable block
/// outside its checksum field — flipping any single bit there does that —
/// makes parsing fail as invalid data, the checksum no longer matching.
pub proof fn lemma_checksum_sensitivity(s: Seq<u8>, s2: Seq<u8>, i: int)
    requires
        s.len() == 512,
        s2.len() == 512,
        parse_spec(s) is Ok,
        0 <= i < 512,
        !(148 <= i < 156),
        s2[i] != s[i],
        forall|j: int| 0 <= j < 512 && j != i ==> s2[j] == s[j],
    ensures
        parse_spec(s2) == Err::<HeaderView, ErrKind>(ErrKind::InvalidData),
{
    assert(verify_spec(s) is Ok);
    let cf = s.subrange(148, 156);
    assert(decode_octal_req_spec(cf) is Ok);
    let c = decode_octal_req_spec(cf)->Ok_0;
    assert(c == checksum_of(s));

    // The stored checksum is unchanged...
    assert(s2.subrange(148, 156) =~= cf);

    // ...but the recomputed one is not.
    lemma_byte_sum_one_change(checksum_input(s2), checksum_input(s), i);
    assert(checksum_input(s2)[i] == s2[i]);
    assert(checksum_input(s)[i] == s[i]);
    assert(checksum_of(s2) != checksum_of(s));

    // The changed block is not the empty-header sentinel either: a
    // parseable block stores a checksum, whose field starts with a data
    // byte the change left alone.
    lemma_req_octal_field_nonzero(cf);
    assert(s2[148] == cf[0]);
    assert(zero_block()[148] == 0x00);
    assert(s2 != zero_block());

    assert(verify_spec(s2) == Err::<(), ErrKind>(ErrKind::InvalidData));
}

/// A path longer than 100 UTF-8 bytes fails serialization with the
/// field-too-small error.
pub proof fn lemma_oversized_path_rejected(h: HeaderView)
    requires
        encode_utf8(h.path).len() > 100,
    ensures
        serialize_spec(h) == Err::<Seq<u8>, ErrKind>(ErrKind::ApiMisuse),
{
    assert(h.path.len() > 0);
}

/// A linkname longer than 100 UTF-8 bytes fails serialization with the
/// field-too-small error, whenever the fields encoded before it fit.
pub proof fn lemma_oversized_linkname_rejected(h: HeaderView)
    requires
        h.path.len() > 0,
        encode_utf8(h.path).len() <= 100,
        h.mode is Some ==> h.mode.unwrap() < 2097152,
        h.uid is Some ==> h.uid.unwrap() < 2097152,
        h.gid is Some ==> h.gid.unwrap() < 2097152,
        h.size < 8589934592,
        h.mtime is Some ==> h.mtime.unwrap() < 8589934592,
        h.linkname is Some,
        encode_utf8(h.linkname.unwrap()).len() > 100,
    ensures
        serialize_spec(h) == Err::<Seq<u8>, ErrKind>(ErrKind::ApiMisuse),
{
    assert(pow8(7) == 2097152) by {
        reveal_with_fuel(pow8, 8);
    }
    assert(pow8(11) == 8589934592) by {
        reveal_with_fuel(pow8, 12);
    }
    if h.mode is Some {
        lemma_octal_digits_len(h.mode.unwrap() as nat, 7);
    }
    if h.uid is Some {
        lemma_octal_digits_len(h.uid.unwrap() as nat, 7);
    }
    if h.gid is Some {
        lemma_octal_digits_len(h.gid.unwrap() as nat, 7);
    }
    lemma_octal_digits_len(h.size as nat, 11);
    if h.mtime is Some {
        lemma_octal_digits_len(h.mtime.unwrap() as nat, 11);
    }
}

} // verus!
