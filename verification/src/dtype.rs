//! Element types of the format.
//!
//! A dtype string such as `<i4` names a byte order (only `<`,
//! little-endian, is supported), an element kind, and an item size in
//! bytes.  The supported kind and item-size combinations form a closed
//! table; everything else is rejected as an unsupported dtype.

use vstd::prelude::*;

verus! {

/// Kind of array element.
#[derive(Clone, Copy, Debug, PartialEq, Eq, Structural)]
pub enum DtypeKind {
    /// Signed two's-complement integer.
    Int,
    /// Unsigned integer.
    UInt,
    /// IEEE-754 binary floating point, carried as raw bits.
    Float,
    /// Boolean, one byte per element, nonzero meaning true.
    Bool,
}

/// The closed table of supported kind and item-size combinations.
pub open spec fn supported_dtype(kind: DtypeKind, itemsize: usize) -> bool {
    match kind {
        DtypeKind::Int => itemsize == 1 || itemsize == 2 || itemsize == 4 || itemsize == 8,
        DtypeKind::UInt => itemsize == 1 || itemsize == 2 || itemsize == 4 || itemsize == 8,
        DtypeKind::Float => itemsize == 4 || itemsize == 8,
        DtypeKind::Bool => itemsize == 1,
    }
}

/// The element kind named by a dtype character.
pub open spec fn spec_kind_of(b: u8) -> Option<DtypeKind> {
    if b == 105 {  // 'i'
        Some(DtypeKind::Int)
    } else if b == 117 {  // 'u'
        Some(DtypeKind::UInt)
    } else if b == 102 {  // 'f'
        Some(DtypeKind::Float)
    } else if b == 98 {  // 'b'
        Some(DtypeKind::Bool)
    } else {
        None
    }
}

/// The meaning of a dtype string: `Some((kind, itemsize))` exactly for
/// a little-endian byte-order mark, a supported kind character and a
/// single digit naming a supported item size.
pub open spec fn spec_parse_descr(s: Seq<u8>) -> Option<(DtypeKind, usize)> {
    if s.len() == 3 && s[0] == 60 && spec_kind_of(s[1]) is Some && 48 <= s[2] <= 57 {
        let kind = spec_kind_of(s[1])->Some_0;
        let itemsize = (s[2] - 48) as usize;
        if supported_dtype(kind, itemsize) {
            Some((kind, itemsize))
        } else {
            None
        }
    } else {
        None
    }
}

/// Parses a dtype string against the supported table.
pub fn parse_descr(descr: &Vec<u8>) -> (r: Option<(DtypeKind, usize)>)
    ensures
        r == spec_parse_descr(descr@),
{
    if descr.len() != 3 {
        return None;
    }
    if descr[0] != 60 {
        return None;
    }
    let kind = if descr[1] == 105 {
        DtypeKind::Int
    } else if descr[1] == 117 {
        DtypeKind::UInt
    } else if descr[1] == 102 {
        DtypeKind::Float
    } else if descr[1] == 98 {
        DtypeKind::Bool
    } else {
        return None;
    };
    let d = descr[2];
    if d < 48 || d > 57 {
        return None;
    }
    let itemsize = (d - 48) as usize;
    let ok = match kind {
        DtypeKind::Int => itemsize == 1 || itemsize == 2 || itemsize == 4 || itemsize == 8,
        DtypeKind::UInt => itemsize == 1 || itemsize == 2 || itemsize == 4 || itemsize == 8,
        DtypeKind::Float => itemsize == 4 || itemsize == 8,
        DtypeKind::Bool => itemsize == 1,
    };
    if ok {
        Some((kind, itemsize))
    } else {
        None
    }
}

/// Decoded header metadata: dtype kind and item size, memory order and
/// shape.  Byte order is not recorded: only little-endian is supported.
#[derive(Debug)]
pub struct Descriptor {
    pub kind: DtypeKind,
    pub itemsize: usize,
    pub fortran_order: bool,
    pub shape: Vec<usize>,
}

impl Descriptor {
    /// A descriptor is well formed when its kind and item size stand in
    /// the supported table.
    pub open spec fn wf(self) -> bool {
        supported_dtype(self.kind, self.itemsize)
    }
}

} // verus!
