//! The preamble reader.
//!
//! A source opens with six magic bytes, a major and a minor version
//! byte, and, for major version one, a two-byte little-endian header
//! length.  The header text follows; the payload begins after it.

use crate::errors::{FormatKind, IoKind, NpyError};
use crate::header::{
    matches_tok, parse_header, sp_parse_header, HeaderFields, NumpyHeader,
};
use crate::translate::{matches_at, spec_translate};
use crate::utf8::is_utf8;
use vstd::prelude::*;

verus! {

broadcast use vstd::seq::group_seq_axioms, vstd::std_specs::vec::group_vec_axioms;

/// The six magic bytes that open the format.
pub open spec fn npy_magic() -> Seq<u8> {
    seq![147u8, 78u8, 85u8, 77u8, 80u8, 89u8]
}

/// Header length declared by the two little-endian bytes at offsets
/// eight and nine.
pub open spec fn spec_header_len(data: Seq<u8>) -> int {
    data[8] + 256 * data[9]
}

/// The header text: the declared number of bytes from offset ten.
pub open spec fn spec_header_text(data: Seq<u8>) -> Seq<u8> {
    data.subrange(10, 10 + spec_header_len(data))
}

/// The payload offset: magic, version and length field, then the
/// header text.
pub open spec fn spec_payload_offset(data: Seq<u8>) -> int {
    10 + spec_header_len(data)
}

/// The error of the preamble and header stages on `data`, `None` when
/// both decode.  The cases stand in reading order: a source too short
/// for the field being read is truncated; wrong magic bytes, a major
/// version other than one, and a header text that is not UTF-8 or does
/// not decode each name their own format error.
pub open spec fn spec_preamble_error(data: Seq<u8>) -> Option<NpyError> {
    if data.len() < 6 {
        Some(NpyError::IOError(IoKind::Truncated))
    } else if !matches_at(data, 0, npy_magic()) {
        Some(NpyError::FormatError(FormatKind::BadMagic))
    } else if data.len() < 8 {
        Some(NpyError::IOError(IoKind::Truncated))
    } else if data[6] != 1 {
        Some(NpyError::FormatError(FormatKind::UnsupportedVersion))
    } else if data.len() < 10 {
        Some(NpyError::IOError(IoKind::Truncated))
    } else if data.len() < spec_payload_offset(data) {
        Some(NpyError::IOError(IoKind::Truncated))
    } else if !is_utf8(spec_header_text(data)) || sp_parse_header(
        spec_translate(spec_header_text(data)),
    ) is None {
        Some(NpyError::FormatError(FormatKind::HeaderSyntax))
    } else {
        None
    }
}

/// The decoded header fields of `data`, defined when the preamble
/// stages pass.
pub open spec fn spec_header_fields(data: Seq<u8>) -> HeaderFields {
    sp_parse_header(spec_translate(spec_header_text(data)))->Some_0
}

/// Reads the preamble and the header of an in-memory source: magic
/// bytes, version, header length, then the translated and decoded
/// header text.  Returns the header and the payload offset.
pub fn read_numpy_header(data: &Vec<u8>) -> (r: Result<(NumpyHeader, usize), NpyError>)
    ensures
        spec_preamble_error(data@) is Some ==> r == Result::<
            (NumpyHeader, usize),
            NpyError,
        >::Err(spec_preamble_error(data@)->Some_0),
        spec_preamble_error(data@) is None ==> {
            &&& r is Ok
            &&& r->Ok_0.0.descr@ == spec_header_fields(data@).descr
            &&& r->Ok_0.0.fortran_order == spec_header_fields(data@).fortran_order
            &&& r->Ok_0.0.shape@ == spec_header_fields(data@).shape
            &&& r->Ok_0.1 == spec_payload_offset(data@)
        },
{
    if data.len() < 6 {
        return Err(NpyError::IOError(IoKind::Truncated));
    }
    let magic = vec![147u8, 78u8, 85u8, 77u8, 80u8, 89u8];
    proof {
        assert(magic@ =~= npy_magic());
    }
    if !matches_tok(data, 0, &magic) {
        return Err(NpyError::FormatError(FormatKind::BadMagic));
    }
    if data.len() < 8 {
        return Err(NpyError::IOError(IoKind::Truncated));
    }
    if data[6] != 1 {
        return Err(NpyError::FormatError(FormatKind::UnsupportedVersion));
    }
    if data.len() < 10 {
        return Err(NpyError::IOError(IoKind::Truncated));
    }
    let hlen: usize = (data[8] as usize) + 256 * (data[9] as usize);
    if data.len() - 10 < hlen {
        return Err(NpyError::IOError(IoKind::Truncated));
    }
    let mut text: Vec<u8> = Vec::new();
    let mut k: usize = 0;
    proof {
        assert(text@ =~= data@.subrange(10, 10));
    }
    while k < hlen
        invariant
            k <= hlen,
            10 + hlen <= data@.len(),
            text@ == data@.subrange(10, 10 + k),
        decreases hlen - k,
    {
        proof {
            assert(data.len() == data@.len());
        }
        text.push(data[10 + k]);
        proof {
            assert(text@ =~= data@.subrange(10, 10 + k + 1));
        }
        k = k + 1;
    }
    proof {
        assert(text@ == spec_header_text(data@));
    }
    match parse_header(&text) {
        Err(e) => Err(e),
        Ok(h) => Ok((h, 10 + hlen)),
    }
}

} // verus!
