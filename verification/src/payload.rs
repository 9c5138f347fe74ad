//! The payload reader: decodes the flat element sequence of an array.
//!
//! The payload is `product(shape) × itemsize` bytes starting at the
//! payload offset; each `itemsize`-wide chunk is one little-endian
//! element.  A payload shorter than that is truncated: no partial
//! element is ever decoded.

use crate::dtype::{supported_dtype, DtypeKind};
use crate::element::{decode_elem, decode_elem_at};
use crate::errors::{IoKind, NpyError};
use crate::ndarray::{element_count, shape_product, Elem};
use vstd::prelude::*;

verus! {

broadcast use vstd::seq::group_seq_axioms, vstd::std_specs::vec::group_vec_axioms;

/// The flat element sequence of a payload: entry `p` decodes the
/// `itemsize`-wide chunk at `offset + p × itemsize`.
pub open spec fn decoded_payload(
    data: Seq<u8>,
    offset: int,
    kind: DtypeKind,
    itemsize: usize,
    count: nat,
) -> Seq<Elem> {
    Seq::new(
        count,
        |p: int|
            decode_elem(
                kind,
                itemsize,
                data.subrange(offset + p * itemsize, offset + p * itemsize + itemsize),
            ),
    )
}

/// Reads and decodes the `product(shape)` elements stored at `offset`.
/// Fails with `Truncated` exactly when fewer than
/// `product(shape) × itemsize` bytes follow the offset.
pub fn read_payload(
    data: &Vec<u8>,
    offset: usize,
    kind: DtypeKind,
    itemsize: usize,
    shape: &Vec<usize>,
) -> (r: Result<Vec<Elem>, NpyError>)
    requires
        supported_dtype(kind, itemsize),
    ensures
        offset + shape_product(shape@) * itemsize > data@.len() ==> r == Result::<
            Vec<Elem>,
            NpyError,
        >::Err(NpyError::IOError(IoKind::Truncated)),
        offset + shape_product(shape@) * itemsize <= data@.len() ==> {
            &&& r is Ok
            &&& r->Ok_0@ == decoded_payload(
                data@,
                offset as int,
                kind,
                itemsize,
                shape_product(shape@),
            )
            &&& r->Ok_0@.len() == shape_product(shape@)
        },
{
    let ghost total = shape_product(shape@);
    proof {
        assert(data.len() == data@.len());
    }
    let count = match element_count(shape) {
        Some(c) => c,
        None => {
            proof {
                assert(total * itemsize >= total) by (nonlinear_arith)
                    requires
                        itemsize >= 1,
                        total >= 0,
                ;
            }
            return Err(NpyError::IOError(IoKind::Truncated));
        },
    };
    let needed = match count.checked_mul(itemsize) {
        Some(n) => n,
        None => {
            return Err(NpyError::IOError(IoKind::Truncated));
        },
    };
    if offset > data.len() || data.len() - offset < needed {
        return Err(NpyError::IOError(IoKind::Truncated));
    }
    let mut buf: Vec<Elem> = Vec::new();
    let mut p: usize = 0;
    while p < count
        invariant
            p <= count,
            count == total,
            needed == count * itemsize,
            supported_dtype(kind, itemsize),
            offset + needed <= data@.len(),
            buf@.len() == p,
            forall|q: int|
                0 <= q < p ==> buf@[q] == decode_elem(
                    kind,
                    itemsize,
                    data@.subrange(
                        offset + q * itemsize,
                        offset + q * itemsize + itemsize,
                    ),
                ),
        decreases count - p,
    {
        proof {
            assert(data.len() == data@.len());
            assert(p * itemsize + itemsize == (p + 1) * itemsize) by (nonlinear_arith);
            assert((p + 1) * itemsize <= count * itemsize) by (nonlinear_arith)
                requires
                    p + 1 <= count,
                    itemsize >= 0,
            ;
            assert(p * itemsize >= 0) by (nonlinear_arith)
                requires
                    p >= 0,
                    itemsize >= 0,
            ;
        }
        let e = decode_elem_at(data, offset + p * itemsize, kind, itemsize);
        buf.push(e);
        p = p + 1;
    }
    proof {
        assert(buf@ =~= decoded_payload(data@, offset as int, kind, itemsize, total));
    }
    Ok(buf)
}

} // verus!
