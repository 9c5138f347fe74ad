//! Reader for the NumPy `.npy` binary array-serialization format.
//!
//! The format is a fixed preamble (magic bytes and version), a textual
//! header describing element type, memory order and shape, and a flat
//! little-endian payload.  This crate decodes the preamble, translates
//! and parses the header literal, decodes the payload into a flat
//! element buffer, and reshapes that buffer into an arbitrarily ranked
//! nested array.

pub mod dtype;
pub mod element;
pub mod errors;
pub mod header;
pub mod ndarray;
pub mod payload;
pub mod preamble;
pub mod translate;
pub mod utf8;

use crate::dtype::{parse_descr, spec_parse_descr, Descriptor, DtypeKind};
use crate::errors::{FormatKind, IoKind, NpyError};
use crate::ndarray::{
    col_to_row, conforms, flatten_model, reshape_model, reshape_ordered, shape_product,
    NumpyArrayResult,
};
use crate::payload::{decoded_payload, read_payload};
use crate::preamble::{
    read_numpy_header, spec_header_fields, spec_payload_offset, spec_preamble_error,
};
use vstd::prelude::*;

verus! {

broadcast use vstd::seq::group_seq_axioms, vstd::std_specs::vec::group_vec_axioms;

/// A decoded array: its descriptor and its nested data.
#[derive(Debug)]
pub struct NumpyArray {
    pub descriptor: Descriptor,
    pub data: NumpyArrayResult,
}

/// The dtype named by the header of `data`, defined when the preamble
/// stages pass.
pub open spec fn spec_dtype_of(data: Seq<u8>) -> Option<(DtypeKind, usize)> {
    spec_parse_descr(spec_header_fields(data).descr)
}

/// Reads a source end to end: preamble, header, payload, reshaping.
/// Each stage's error propagates unchanged; on success the nested array
/// carries the decoded payload, reshaped row-major, or permuted from
/// column-major storage when the header orders the payload that way.
/// A returned array is always complete: on an error the result holds
/// no array at all, and the `conforms` and flattening clauses below pin
/// every element of a returned one, so no partially populated array can
/// escape.
pub fn read_array(data: &Vec<u8>) -> (r: Result<NumpyArray, NpyError>)
    ensures
        spec_preamble_error(data@) is Some ==> r == Result::<
            NumpyArray,
            NpyError,
        >::Err(spec_preamble_error(data@)->Some_0),
        spec_preamble_error(data@) is None ==> {
            let f = spec_header_fields(data@);
            let off = spec_payload_offset(data@);
            match spec_dtype_of(data@) {
                None => r == Result::<NumpyArray, NpyError>::Err(
                    NpyError::FormatError(FormatKind::UnsupportedDType),
                ),
                Some((kind, itemsize)) => {
                    let buf = decoded_payload(data@, off, kind, itemsize, shape_product(f.shape));
                    if off + shape_product(f.shape) * itemsize > data@.len() {
                        r == Result::<NumpyArray, NpyError>::Err(
                            NpyError::IOError(IoKind::Truncated),
                        )
                    } else {
                        &&& r is Ok
                        &&& r->Ok_0.descriptor.kind == kind
                        &&& r->Ok_0.descriptor.itemsize == itemsize
                        &&& r->Ok_0.descriptor.fortran_order == f.fortran_order
                        &&& r->Ok_0.descriptor.shape@ == f.shape
                        &&& conforms(r->Ok_0.data@, f.shape)
                        &&& flatten_model(r->Ok_0.data@) == if f.fortran_order {
                            col_to_row(buf, f.shape)
                        } else {
                            buf
                        }
                        &&& r->Ok_0.data@ == reshape_model(
                            if f.fortran_order {
                                col_to_row(buf, f.shape)
                            } else {
                                buf
                            },
                            f.shape,
                        )
                    }
                },
            }
        },
{
    let parsed = match read_numpy_header(data) {
        Err(e) => {
            return Err(e);
        },
        Ok(p) => p,
    };
    let header = parsed.0;
    let offset = parsed.1;
    let dtype = match parse_descr(&header.descr) {
        None => {
            return Err(NpyError::FormatError(FormatKind::UnsupportedDType));
        },
        Some(d) => d,
    };
    let kind = dtype.0;
    let itemsize = dtype.1;
    let buf = match read_payload(data, offset, kind, itemsize, &header.shape) {
        Err(e) => {
            return Err(e);
        },
        Ok(b) => b,
    };
    let tree = match reshape_ordered(&buf, &header.shape, header.fortran_order) {
        Err(e) => {
            proof {
                assert(false);
            }
            return Err(e);
        },
        Ok(t) => t,
    };
    Ok(
        NumpyArray {
            descriptor: Descriptor {
                kind,
                itemsize,
                fortran_order: header.fortran_order,
                shape: header.shape,
            },
            data: tree,
        },
    )
}

} // verus!
