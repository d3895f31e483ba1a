//! The typed tar header record and its mapping to and from a raw
//! 512-byte block.

use vstd::prelude::*;
use crate::{BasicTarError, ErrKind, err_kind};
use crate::codec::{
    zero_seq, decode_string_opt_spec, decode_string_req_spec, decode_octal_opt_spec,
    decode_octal_req_spec, encode_string_opt_spec, encode_string_req_spec, encode_octal_spec,
    octal_field, decode_string_opt, decode_string_req, decode_octal_opt, decode_octal_req,
    encode_string_opt, encode_string_req, encode_octal, opt_str_view, pow8,
    lemma_octal_digits_len,
};
use crate::raw;
use crate::raw::{
    zero_block, checksum_of, verify_spec, Checksum, BLOCK_LEN, NAME_START, NAME_END, MODE_START,
    MODE_END, UID_START, UID_END, GID_START, GID_END, SIZE_START, SIZE_END, MTIME_START,
    MTIME_END, TYPEFLAG_POS, LINKNAME_START, LINKNAME_END,
};

verus! {

/// The mathematical value of a header: every field as a plain value.
#[verifier::ext_equal]
pub struct HeaderView {
    pub path: Seq<char>,
    pub mode: Option<u64>,
    pub uid: Option<u64>,
    pub gid: Option<u64>,
    pub size: u64,
    pub mtime: Option<u64>,
    pub typeflag: u8,
    pub linkname: Option<Seq<char>>,
}

/// A tar header.
#[derive(Default, Debug, Clone, PartialEq, Eq)]
pub struct Header {
    /// The record's path and name.
    pub path: String,
    /// The record's access mode bits (e.g. `0o777`).
    pub mode: Option<u64>,
    /// The record's UID.
    pub uid: Option<u64>,
    /// The record's GID.
    pub gid: Option<u64>,
    /// The record's size.
    pub size: u64,
    /// The record's modification time.
    pub mtime: Option<u64>,
    /// The record's type.
    pub typeflag: u8,
    /// The record's link name.
    pub linkname: Option<String>,
}

impl View for Header {
    type V = HeaderView;

    open spec fn view(&self) -> HeaderView {
        HeaderView {
            path: self.path@,
            mode: self.mode,
            uid: self.uid,
            gid: self.gid,
            size: self.size,
            mtime: self.mtime,
            typeflag: self.typeflag,
            linkname: match self.linkname {
                Some(s) => Some(s@),
                None => None,
            },
        }
    }
}

/// How a block parses: the all-zero block is the empty-header signal; then
/// the checksum must verify; then every field decodes in turn, the first
/// failure winning.
pub open spec fn parse_spec(s: Seq<u8>) -> Result<HeaderView, ErrKind> {
    if s == zero_block() {
        Err(ErrKind::EmptyHeader)
    } else {
        match verify_spec(s) {
            Err(k) => Err(k),
            Ok(_) => match decode_string_req_spec(s.subrange(0, 100)) {
                Err(k) => Err(k),
                Ok(path) => match decode_octal_opt_spec(s.subrange(100, 108)) {
                    Err(k) => Err(k),
                    Ok(mode) => match decode_octal_opt_spec(s.subrange(108, 116)) {
                        Err(k) => Err(k),
                        Ok(uid) => match decode_octal_opt_spec(s.subrange(116, 124)) {
                            Err(k) => Err(k),
                            Ok(gid) => match decode_octal_req_spec(s.subrange(124, 136)) {
                                Err(k) => Err(k),
                                Ok(size) => match decode_octal_opt_spec(s.subrange(136, 148)) {
                                    Err(k) => Err(k),
                                    Ok(mtime) => match decode_string_opt_spec(
                                        s.subrange(157, 257),
                                    ) {
                                        Err(k) => Err(k),
                                        Ok(linkname) => Ok(
                                            HeaderView {
                                                path,
                                                mode,
                                                uid,
                                                gid,
                                                size,
                                                mtime,
                                                typeflag: s[156],
                                                linkname,
                                            },
                                        ),
                                    },
                                },
                            },
                        },
                    },
                },
            },
        }
    }
}

/// The serialized block for encoded fields `pre` (the bytes before the
/// checksum field) and `post` (the bytes after it): the checksum is taken
/// over the block with a zeroed checksum field, then written in its place.
pub open spec fn assemble_spec(pre: Seq<u8>, post: Seq<u8>) -> Seq<u8> {
    pre + octal_field(checksum_of(pre + zero_seq(8) + post) as nat, 8) + post
}

/// How a header serializes: every field encodes in turn into its region of
/// an all-zero block, the first failure winning; the checksum is computed
/// and written last.
pub open spec fn serialize_spec(h: HeaderView) -> Result<Seq<u8>, ErrKind> {
    match encode_string_req_spec(h.path, 100) {
        Err(k) => Err(k),
        Ok(namef) => match encode_octal_spec(h.mode, 8) {
            Err(k) => Err(k),
            Ok(modef) => match encode_octal_spec(h.uid, 8) {
                Err(k) => Err(k),
                Ok(uidf) => match encode_octal_spec(h.gid, 8) {
                    Err(k) => Err(k),
                    Ok(gidf) => match encode_octal_spec(Some(h.size), 12) {
                        Err(k) => Err(k),
                        Ok(sizef) => match encode_octal_spec(h.mtime, 12) {
                            Err(k) => Err(k),
                            Ok(mtimef) => match encode_string_opt_spec(h.linkname, 100) {
                                Err(k) => Err(k),
                                Ok(linkf) => Ok(
                                    assemble_spec(
                                        namef + modef + uidf + gidf + sizef + mtimef,
                                        seq![h.typeflag] + linkf + zero_seq(255),
                                    ),
                                ),
                            },
                        },
                    },
                },
            },
        },
    }
}

/// Whether `v` is the all-zero block.
fn is_zero_block(v: &Vec<u8>) -> (r: bool)
    requires
        v@.len() == 512,
    ensures
        r <==> v@ == zero_block(),
{
    let mut i: usize = 0;
    while i < BLOCK_LEN
        invariant
            0 <= i <= 512,
            v@.len() == 512,
            forall|j: int| 0 <= j < i ==> v@[j] == 0,
        decreases 512 - i,
    {
        if v[i] != 0 {
            proof {
                assert(zero_block()[i as int] == 0);
            }
            return false;
        }
        i += 1;
    }
    proof {
        assert(v@ =~= zero_block());
    }
    true
}

impl Header {
    /// Parses a raw byte block into a classic tar header.
    pub fn parse(data: Vec<u8>) -> (r: Result<Self, BasicTarError>)
        requires
            data@.len() == 512,
        ensures
            r is Ok <==> parse_spec(data@) is Ok,
            r is Ok ==> r->Ok_0@ == parse_spec(data@)->Ok_0,
            r is Err ==> err_kind(r->Err_0) == parse_spec(data@)->Err_0,
    {
        if is_zero_block(&data) {
            return Err(BasicTarError::EmptyHeader);
        }
        let tar = raw::Header::from_raw(data);
        match Checksum::verify(&tar) {
            Err(e) => {
                return Err(e);
            },
            Ok(()) => {},
        }
        let namef = tar.field(NAME_START, NAME_END);
        let path = match decode_string_req(&namef) {
            Ok(s) => s,
            Err(e) => {
                return Err(e);
            },
        };
        let modef = tar.field(MODE_START, MODE_END);
        let mode = match decode_octal_opt(&modef) {
            Ok(v) => v,
            Err(e) => {
                return Err(e);
            },
        };
        let uidf = tar.field(UID_START, UID_END);
        let uid = match decode_octal_opt(&uidf) {
            Ok(v) => v,
            Err(e) => {
                return Err(e);
            },
        };
        let gidf = tar.field(GID_START, GID_END);
        let gid = match decode_octal_opt(&gidf) {
            Ok(v) => v,
            Err(e) => {
                return Err(e);
            },
        };
        let sizef = tar.field(SIZE_START, SIZE_END);
        let size = match decode_octal_req(&sizef) {
            Ok(v) => v,
            Err(e) => {
                return Err(e);
            },
        };
        let mtimef = tar.field(MTIME_START, MTIME_END);
        let mtime = match decode_octal_opt(&mtimef) {
            Ok(v) => v,
            Err(e) => {
                return Err(e);
            },
        };
        let typeflag = tar.get(TYPEFLAG_POS);
        let linkf = tar.field(LINKNAME_START, LINKNAME_END);
        let linkname = match decode_string_opt(&linkf) {
            Ok(v) => v,
            Err(e) => {
                return Err(e);
            },
        };
        Ok(Header { path, mode, uid, gid, size, mtime, typeflag, linkname })
    }

    /// Serializes the tar header into a raw byte block.
    ///
    /// This can fail because the header may hold values that cannot be
    /// serialized, e.g. a path longer than 100 bytes or a size whose octal
    /// form needs more than 11 digits.
    pub fn serialize(self) -> (r: Result<Vec<u8>, BasicTarError>)
        ensures
            r is Ok <==> serialize_spec(self@) is Ok,
            r is Ok ==> r->Ok_0@ == serialize_spec(self@)->Ok_0,
            r is Ok ==> r->Ok_0@.len() == 512,
            r is Err ==> err_kind(r->Err_0) == serialize_spec(self@)->Err_0,
    {
        let namef = match encode_string_req(self.path.as_str(), 100) {
            Ok(v) => v,
            Err(e) => {
                return Err(e);
            },
        };
        let modef = match encode_octal(self.mode, 8) {
            Ok(v) => v,
            Err(e) => {
                return Err(e);
            },
        };
        let uidf = match encode_octal(self.uid, 8) {
            Ok(v) => v,
            Err(e) => {
                return Err(e);
            },
        };
        let gidf = match encode_octal(self.gid, 8) {
            Ok(v) => v,
            Err(e) => {
                return Err(e);
            },
        };
        let sizef = match encode_octal(Some(self.size), 12) {
            Ok(v) => v,
            Err(e) => {
                return Err(e);
            },
        };
        let mtimef = match encode_octal(self.mtime, 12) {
            Ok(v) => v,
            Err(e) => {
                return Err(e);
            },
        };
        let linkref: Option<&str> = match &self.linkname {
            Some(s) => Some(s.as_str()),
            None => None,
        };
        let linkf = match encode_string_opt(linkref, 100) {
            Ok(v) => v,
            Err(e) => {
                return Err(e);
            },
        };
        proof {
            assert(opt_str_view(linkref) == self@.linkname);
        }
        let mut tar = raw::header();
        tar.set_range(NAME_START, &namef);
        proof {
            assert(tar@ =~= namef@ + zero_seq(412));
        }
        tar.set_range(MODE_START, &modef);
        proof {
            assert(tar@ =~= namef@ + modef@ + zero_seq(404));
        }
        tar.set_range(UID_START, &uidf);
        proof {
            assert(tar@ =~= namef@ + modef@ + uidf@ + zero_seq(396));
        }
        tar.set_range(GID_START, &gidf);
        proof {
            assert(tar@ =~= namef@ + modef@ + uidf@ + gidf@ + zero_seq(388));
        }
        tar.set_range(SIZE_START, &sizef);
        proof {
            assert(tar@ =~= namef@ + modef@ + uidf@ + gidf@ + sizef@ + zero_seq(376));
        }
        tar.set_range(MTIME_START, &mtimef);
        proof {
            assert(tar@ =~= namef@ + modef@ + uidf@ + gidf@ + sizef@ + mtimef@ + zero_seq(364));
        }
        let ghost pre = namef@ + modef@ + uidf@ + gidf@ + sizef@ + mtimef@;
        let mut tfv: Vec<u8> = Vec::new();
        tfv.push(self.typeflag);
        tar.set_range(TYPEFLAG_POS, &tfv);
        proof {
            assert(tar@ =~= pre + zero_seq(8) + seq![self.typeflag] + zero_seq(355));
        }
        tar.set_range(LINKNAME_START, &linkf);
        proof {
            assert(tar@ =~= pre + zero_seq(8) + seq![self.typeflag] + linkf@ + zero_seq(255));
        }
        let ghost post = seq![self.typeflag] + linkf@ + zero_seq(255);
        proof {
            assert(namef@.len() == 100);
            assert(modef@.len() == 8);
            assert(uidf@.len() == 8);
            assert(gidf@.len() == 8);
            assert(sizef@.len() == 12);
            assert(mtimef@.len() == 12);
            assert(linkf@.len() == 100);
            assert(tar@ =~= pre + zero_seq(8) + post);
        }
        let ghost before = tar@;
        Checksum::write(&mut tar);
        proof {
            raw::lemma_byte_sum_bound(raw::checksum_input(before));
            assert(pow8(7) == 2097152) by {
                reveal_with_fuel(pow8, 8);
            }
            lemma_octal_digits_len(checksum_of(before) as nat, 7);
            assert(octal_field(checksum_of(before) as nat, 8).len() == 8);
            assert(before.take(148) =~= pre);
            assert(before.skip(156) =~= post);
            assert(tar@ =~= assemble_spec(pre, post));
        }
        Ok(tar.into_raw())
    }
}

} // verus!
