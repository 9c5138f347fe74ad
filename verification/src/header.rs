//! The header decoder.
//!
//! The translated header text is a map literal with the three keys
//! `descr`, `fortran_order` and `shape`, carrying a string, a boolean
//! and a sequence of non-negative integers.  The decoder relies on a
//! guarantee of the format: the writer emits the dictionary's keys in
//! alphabetical order, so the three entries are read in exactly that
//! order, and a literal with permuted, missing or extra keys is
//! malformed here.  The header bytes must be well-formed UTF-8.
//! `sp_parse_header` is the meaning of a translated text: `Some`
//! exactly for the well-formed ones.

use crate::errors::{FormatKind, NpyError};
use crate::translate::{
    lemma_skip_ws_bounds, matches_at, skip_ws, spec_skip_ws, spec_translate, translate_header,
};
use crate::utf8::{is_utf8, validate_utf8};
use vstd::prelude::*;

verus! {

broadcast use vstd::seq::group_seq_axioms, vstd::std_specs::vec::group_vec_axioms;

/// Decoded header data: dtype string, memory order and shape.
#[derive(Debug)]
pub struct NumpyHeader {
    pub descr: Vec<u8>,
    pub fortran_order: bool,
    pub shape: Vec<usize>,
}

/// The fields of a header literal, as mathematical values.
pub struct HeaderFields {
    pub descr: Seq<u8>,
    pub fortran_order: bool,
    pub shape: Seq<usize>,
}

/// The quoted key `"descr"`.
pub open spec fn descr_key() -> Seq<u8> {
    seq![34u8, 100u8, 101u8, 115u8, 99u8, 114u8, 34u8]
}

/// The quoted key `"fortran_order"`.
pub open spec fn fortran_key() -> Seq<u8> {
    seq![
        34u8,
        102u8,
        111u8,
        114u8,
        116u8,
        114u8,
        97u8,
        110u8,
        95u8,
        111u8,
        114u8,
        100u8,
        101u8,
        114u8,
        34u8,
    ]
}

/// The quoted key `"shape"`.
pub open spec fn shape_key() -> Seq<u8> {
    seq![34u8, 115u8, 104u8, 97u8, 112u8, 101u8, 34u8]
}

/// Index of the first double quote at or after `i`.
pub open spec fn sp_find_quote(s: Seq<u8>, i: int) -> int
    decreases s.len() - i,
{
    if 0 <= i < s.len() && s[i] != 34 {
        sp_find_quote(s, i + 1)
    } else {
        i
    }
}

/// Whether a byte is a decimal digit.
pub open spec fn is_digit(b: u8) -> bool {
    48 <= b <= 57
}

/// Index of the first byte at or after `i` that is not a digit.
pub open spec fn sp_digits_end(s: Seq<u8>, i: int) -> int
    decreases s.len() - i,
{
    if 0 <= i < s.len() && is_digit(s[i]) {
        sp_digits_end(s, i + 1)
    } else {
        i
    }
}

/// The digit scan moves forward, not past the end, and over digits
/// only.
pub proof fn lemma_digits_end_bounds(s: Seq<u8>, i: int)
    requires
        0 <= i <= s.len(),
    ensures
        i <= sp_digits_end(s, i) <= s.len(),
        forall|k: int| i <= k < sp_digits_end(s, i) ==> is_digit(#[trigger] s[k]),
    decreases s.len() - i,
{
    if i < s.len() && is_digit(s[i]) {
        lemma_digits_end_bounds(s, i + 1);
    }
}

/// Value of the decimal digits of `s` from `i` up to `j`.
pub open spec fn sp_digits_val(s: Seq<u8>, i: int, j: int) -> nat
    decreases j - i,
{
    if j <= i {
        0
    } else {
        sp_digits_val(s, i, j - 1) * 10 + (s[j - 1] - 48) as nat
    }
}

/// A longer digit run denotes at least as large a value.
pub proof fn lemma_digits_val_grows(s: Seq<u8>, i: int, j: int, j2: int)
    requires
        i <= j <= j2,
        forall|k: int| i <= k < j2 ==> is_digit(#[trigger] s[k]),
    ensures
        sp_digits_val(s, i, j) <= sp_digits_val(s, i, j2),
    decreases j2 - j,
{
    if j < j2 {
        lemma_digits_val_grows(s, i, j, j2 - 1);
        let v = sp_digits_val(s, i, j2 - 1);
        assert(v <= v * 10 + (s[j2 - 1] - 48) as nat) by (nonlinear_arith)
            requires
                v >= 0,
                (s[j2 - 1] - 48) as nat >= 0,
        ;
    }
}

/// The number beginning at `i`: its value and the index after its
/// digits; `None` when no digit stands at `i`.
pub open spec fn sp_parse_number(s: Seq<u8>, i: int) -> Option<(nat, int)> {
    let e = sp_digits_end(s, i);
    if e == i {
        None
    } else {
        Some((sp_digits_val(s, i, e), e))
    }
}

/// The string beginning at `i`: its contents and the index after the
/// closing quote; `None` unless a quote stands at `i` and another
/// closes it.
pub open spec fn sp_parse_string(s: Seq<u8>, i: int) -> Option<(Seq<u8>, int)> {
    if 0 <= i < s.len() && s[i] == 34 {
        let e = sp_find_quote(s, i + 1);
        if e < s.len() {
            Some((s.subrange(i + 1, e), e + 1))
        } else {
            None
        }
    } else {
        None
    }
}

/// The boolean literal beginning at `i` and the index after it.
pub open spec fn sp_parse_bool(s: Seq<u8>, i: int) -> Option<(bool, int)> {
    if matches_at(s, i, seq![116u8, 114u8, 117u8, 101u8]) {
        Some((true, i + 4))
    } else if matches_at(s, i, seq![102u8, 97u8, 108u8, 115u8, 101u8]) {
        Some((false, i + 5))
    } else {
        None
    }
}

/// The comma-separated numbers beginning at `i`, up to a closing
/// bracket: their values and the index after the bracket.  A number
/// must stand at `i`; each value must fit in `usize`.
pub open spec fn sp_parse_items(s: Seq<u8>, i: int) -> Option<(Seq<usize>, int)>
    decreases s.len() - i,
    via sp_parse_items_decreases
{
    match sp_parse_number(s, i) {
        None => None,
        Some((v, e)) => {
            if v > usize::MAX {
                None
            } else {
                let j = spec_skip_ws(s, e);
                if j < s.len() && s[j] == 44 {
                    let k = spec_skip_ws(s, j + 1);
                    match sp_parse_items(s, k) {
                        None => None,
                        Some((rest, nxt)) => Some((seq![v as usize] + rest, nxt)),
                    }
                } else if j < s.len() && s[j] == 93 {
                    Some((seq![v as usize], j + 1))
                } else {
                    None
                }
            }
        },
    }
}

#[via_fn]
proof fn sp_parse_items_decreases(s: Seq<u8>, i: int) {
    let e = sp_digits_end(s, i);
    if e != i {
        assert(0 <= i <= s.len());
        lemma_digits_end_bounds(s, i);
        lemma_skip_ws_bounds(s, e);
        let j = spec_skip_ws(s, e);
        if j < s.len() && s[j] == 44 {
            lemma_skip_ws_bounds(s, j + 1);
        }
    }
}

/// The bracketed list of numbers beginning at `i` and the index after
/// its closing bracket.
pub open spec fn sp_parse_list(s: Seq<u8>, i: int) -> Option<(Seq<usize>, int)> {
    if 0 <= i < s.len() && s[i] == 91 {
        let j = spec_skip_ws(s, i + 1);
        if j < s.len() && s[j] == 93 {
            Some((seq![], j + 1))
        } else {
            sp_parse_items(s, j)
        }
    } else {
        None
    }
}

/// The meaning of a translated header text: its three fields, written
/// in the format's sorted key order, with nothing but whitespace
/// besides.
pub open spec fn sp_parse_header(s: Seq<u8>) -> Option<HeaderFields> {
    let i0 = spec_skip_ws(s, 0);
    if !(i0 < s.len() && s[i0] == 123) {
        None
    } else {
        let i1 = spec_skip_ws(s, i0 + 1);
        if !matches_at(s, i1, descr_key()) {
            None
        } else {
            let i2 = spec_skip_ws(s, i1 + 7);
            if !(i2 < s.len() && s[i2] == 58) {
                None
            } else {
                match sp_parse_string(s, spec_skip_ws(s, i2 + 1)) {
                    None => None,
                    Some((descr, i3)) => {
                        let i4 = spec_skip_ws(s, i3);
                        if !(i4 < s.len() && s[i4] == 44) {
                            None
                        } else {
                            let i5 = spec_skip_ws(s, i4 + 1);
                            if !matches_at(s, i5, fortran_key()) {
                                None
                            } else {
                                let i6 = spec_skip_ws(s, i5 + 15);
                                if !(i6 < s.len() && s[i6] == 58) {
                                    None
                                } else {
                                    match sp_parse_bool(s, spec_skip_ws(s, i6 + 1)) {
                                        None => None,
                                        Some((fortran, i7)) => sp_parse_header_tail(
                                            s,
                                            descr,
                                            fortran,
                                            i7,
                                        ),
                                    }
                                }
                            }
                        }
                    },
                }
            }
        }
    }
}

/// The shape entry and closing brace of a translated header text, from
/// the index after the boolean.
pub open spec fn sp_parse_header_tail(
    s: Seq<u8>,
    descr: Seq<u8>,
    fortran: bool,
    i7: int,
) -> Option<HeaderFields> {
    let i8 = spec_skip_ws(s, i7);
    if !(i8 < s.len() && s[i8] == 44) {
        None
    } else {
        let i9 = spec_skip_ws(s, i8 + 1);
        if !matches_at(s, i9, shape_key()) {
            None
        } else {
            let i10 = spec_skip_ws(s, i9 + 7);
            if !(i10 < s.len() && s[i10] == 58) {
                None
            } else {
                match sp_parse_list(s, spec_skip_ws(s, i10 + 1)) {
                    None => None,
                    Some((shape, i11)) => {
                        let i12 = spec_skip_ws(s, i11);
                        if !(i12 < s.len() && s[i12] == 125) {
                            None
                        } else if spec_skip_ws(s, i12 + 1) == s.len() {
                            Some(HeaderFields { descr, fortran_order: fortran, shape })
                        } else {
                            None
                        }
                    },
                }
            }
        }
    }
}

/// Whether the bytes of `tok` stand at position `i` of `s`.
pub(crate) fn matches_tok(s: &Vec<u8>, i: usize, tok: &Vec<u8>) -> (r: bool)
    ensures
        r == matches_at(s@, i as int, tok@),
{
    if i > s.len() || s.len() - i < tok.len() {
        return false;
    }
    let mut k: usize = 0;
    while k < tok.len()
        invariant
            k <= tok@.len(),
            i + tok@.len() <= s@.len(),
            forall|q: int| 0 <= q < k ==> s@[i + q] == tok@[q],
        decreases tok@.len() - k,
    {
        proof {
            assert(s.len() == s@.len());
        }
        if s[i + k] != tok[k] {
            return false;
        }
        k = k + 1;
    }
    true
}

/// Parses the string beginning at `i`: its contents and the index after
/// the closing quote.
fn parse_string_at(s: &Vec<u8>, i: usize) -> (r: Option<(Vec<u8>, usize)>)
    requires
        i <= s@.len(),
    ensures
        ({
            let sp = sp_parse_string(s@, i as int);
            match r {
                Some(p) => {
                    &&& sp is Some
                    &&& p.0@ == sp->Some_0.0
                    &&& p.1 == sp->Some_0.1
                    &&& i < p.1 <= s@.len()
                },
                None => sp is None,
            }
        }),
{
    if i >= s.len() || s[i] != 34 {
        return None;
    }
    let mut e: usize = i + 1;
    while e < s.len() && s[e] != 34
        invariant
            i + 1 <= e <= s@.len(),
            sp_find_quote(s@, i + 1) == sp_find_quote(s@, e as int),
        decreases s@.len() - e,
    {
        e = e + 1;
    }
    if e >= s.len() {
        return None;
    }
    let mut content: Vec<u8> = Vec::new();
    let mut k: usize = i + 1;
    proof {
        assert(content@ =~= s@.subrange(i + 1, i + 1));
    }
    while k < e
        invariant
            i + 1 <= k <= e,
            e < s@.len(),
            content@ == s@.subrange(i + 1, k as int),
        decreases e - k,
    {
        content.push(s[k]);
        proof {
            assert(content@ =~= s@.subrange(i + 1, k + 1));
        }
        k = k + 1;
    }
    Some((content, e + 1))
}

/// Parses the number beginning at `i`: its value and the index after
/// its digits.  `None` when no digit stands at `i` or the value does
/// not fit in `usize`.
fn parse_number_at(s: &Vec<u8>, i: usize) -> (r: Option<(usize, usize)>)
    requires
        i <= s@.len(),
    ensures
        ({
            let sp = sp_parse_number(s@, i as int);
            match r {
                Some(p) => {
                    &&& sp == Some((p.0 as nat, p.1 as int))
                    &&& i < p.1 <= s@.len()
                },
                None => sp is None || sp->Some_0.0 > usize::MAX,
            }
        }),
{
    proof {
        lemma_digits_end_bounds(s@, i as int);
    }
    let mut e: usize = i;
    while e < s.len() && 48 <= s[e] && s[e] <= 57
        invariant
            i <= e <= s@.len(),
            sp_digits_end(s@, i as int) == sp_digits_end(s@, e as int),
        decreases s@.len() - e,
    {
        e = e + 1;
    }
    if e == i {
        return None;
    }
    let ghost ge = sp_digits_end(s@, i as int);
    let mut acc: usize = 0;
    let mut j: usize = i;
    while j < e
        invariant
            i <= j <= e,
            e <= s@.len(),
            e == ge,
            ge == sp_digits_end(s@, i as int),
            acc == sp_digits_val(s@, i as int, j as int),
        decreases e - j,
    {
        proof {
            lemma_digits_end_bounds(s@, i as int);
        }
        let d = s[j] - 48;
        let next = match acc.checked_mul(10) {
            Some(x) => x.checked_add(d as usize),
            None => None,
        };
        match next {
            Some(v) => {
                acc = v;
            },
            None => {
                proof {
                    assert(sp_digits_val(s@, i as int, j + 1) > usize::MAX);
                    lemma_digits_end_bounds(s@, i as int);
                    lemma_digits_val_grows(s@, i as int, j + 1, ge);
                }
                return None;
            },
        }
        j = j + 1;
    }
    Some((acc, e))
}

/// Parses the boolean literal beginning at `i` and the index after it.
fn parse_bool_at(s: &Vec<u8>, i: usize) -> (r: Option<(bool, usize)>)
    requires
        i <= s@.len(),
    ensures
        ({
            let sp = sp_parse_bool(s@, i as int);
            match r {
                Some(p) => {
                    &&& sp == Some((p.0, p.1 as int))
                    &&& i < p.1 <= s@.len()
                },
                None => sp is None,
            }
        }),
{
    let tok_true = vec![116u8, 114u8, 117u8, 101u8];
    let tok_false = vec![102u8, 97u8, 108u8, 115u8, 101u8];
    proof {
        assert(tok_true@ =~= seq![116u8, 114u8, 117u8, 101u8]);
        assert(tok_false@ =~= seq![102u8, 97u8, 108u8, 115u8, 101u8]);
    }
    proof {
        assert(s.len() == s@.len());
    }
    if matches_tok(s, i, &tok_true) {
        Some((true, i + 4))
    } else if matches_tok(s, i, &tok_false) {
        Some((false, i + 5))
    } else {
        None
    }
}

/// Parses the bracketed list of numbers beginning at `i`: its values
/// and the index after the closing bracket.
fn parse_list_at(s: &Vec<u8>, i: usize) -> (r: Option<(Vec<usize>, usize)>)
    requires
        i <= s@.len(),
    ensures
        ({
            let sp = sp_parse_list(s@, i as int);
            match r {
                Some(p) => {
                    &&& sp is Some
                    &&& p.0@ == sp->Some_0.0
                    &&& p.1 == sp->Some_0.1
                    &&& p.1 <= s@.len()
                },
                None => sp is None,
            }
        }),
{
    if i >= s.len() || s[i] != 91 {
        return None;
    }
    let j = skip_ws(s, i + 1);
    if j < s.len() && s[j] == 93 {
        let empty: Vec<usize> = Vec::new();
        proof {
            assert(empty@ =~= Seq::<usize>::empty());
        }
        return Some((empty, j + 1));
    }
    let ghost jstart = j as int;
    let mut acc: Vec<usize> = Vec::new();
    let mut cur: usize = j;
    proof {
        if sp_parse_items(s@, jstart) is Some {
            assert(acc@ + sp_parse_items(s@, jstart)->Some_0.0 =~= sp_parse_items(
                s@,
                jstart,
            )->Some_0.0);
        }
    }
    loop
        invariant
            j <= cur <= s@.len(),
            jstart == j as int,
            i <= s@.len(),
            sp_parse_items(s@, cur as int) is None ==> sp_parse_items(s@, jstart) is None,
            sp_parse_items(s@, cur as int) is Some ==> sp_parse_items(s@, jstart) == Some(
                (
                    acc@ + sp_parse_items(s@, cur as int)->Some_0.0,
                    sp_parse_items(s@, cur as int)->Some_0.1,
                ),
            ),
            sp_parse_list(s@, i as int) == sp_parse_items(s@, jstart),
        decreases s@.len() - cur,
    {
        let ghost prev = acc@;
        let num = parse_number_at(s, cur);
        match num {
            None => {
                return None;
            },
            Some((v, e)) => {
                let w = skip_ws(s, e);
                if w < s.len() && s[w] == 44 {
                    let k = skip_ws(s, w + 1);
                    acc.push(v);
                    proof {
                        let spk = sp_parse_items(s@, k as int);
                        if spk is Some {
                            assert(prev + (seq![v] + spk->Some_0.0) =~= acc@ + spk->Some_0.0);
                        }
                    }
                    cur = k;
                } else if w < s.len() && s[w] == 93 {
                    acc.push(v);
                    proof {
                        assert(sp_parse_items(s@, cur as int) == Some(
                            (seq![v as usize], w + 1 as int),
                        ));
                        assert(prev + seq![v] =~= acc@);
                    }
                    return Some((acc, w + 1));
                } else {
                    return None;
                }
            },
        }
    }
}

/// Decodes a translated header text into its three fields.
fn decode_header(s: &Vec<u8>) -> (r: Option<NumpyHeader>)
    ensures
        ({
            let sp = sp_parse_header(s@);
            match r {
                Some(h) => {
                    &&& sp is Some
                    &&& h.descr@ == sp->Some_0.descr
                    &&& h.fortran_order == sp->Some_0.fortran_order
                    &&& h.shape@ == sp->Some_0.shape
                },
                None => sp is None,
            }
        }),
{
    let key_descr = vec![34u8, 100u8, 101u8, 115u8, 99u8, 114u8, 34u8];
    let key_fortran = vec![
        34u8,
        102u8,
        111u8,
        114u8,
        116u8,
        114u8,
        97u8,
        110u8,
        95u8,
        111u8,
        114u8,
        100u8,
        101u8,
        114u8,
        34u8,
    ];
    let key_shape = vec![34u8, 115u8, 104u8, 97u8, 112u8, 101u8, 34u8];
    proof {
        assert(key_descr@ =~= descr_key());
        assert(key_fortran@ =~= fortran_key());
        assert(key_shape@ =~= shape_key());
    }
    let i0 = skip_ws(s, 0);
    if !(i0 < s.len() && s[i0] == 123) {
        return None;
    }
    let i1 = skip_ws(s, i0 + 1);
    if !matches_tok(s, i1, &key_descr) {
        return None;
    }
    let i2 = skip_ws(s, i1 + 7);
    if !(i2 < s.len() && s[i2] == 58) {
        return None;
    }
    let sstart = skip_ws(s, i2 + 1);
    let descr_parsed = parse_string_at(s, sstart);
    let (descr, i3) = match descr_parsed {
        None => {
            return None;
        },
        Some(p) => p,
    };
    let i4 = skip_ws(s, i3);
    if !(i4 < s.len() && s[i4] == 44) {
        return None;
    }
    let i5 = skip_ws(s, i4 + 1);
    if !matches_tok(s, i5, &key_fortran) {
        return None;
    }
    let i6 = skip_ws(s, i5 + 15);
    if !(i6 < s.len() && s[i6] == 58) {
        return None;
    }
    let bstart = skip_ws(s, i6 + 1);
    let bool_parsed = parse_bool_at(s, bstart);
    let (fortran, i7) = match bool_parsed {
        None => {
            return None;
        },
        Some(p) => p,
    };
    let i8 = skip_ws(s, i7);
    if !(i8 < s.len() && s[i8] == 44) {
        return None;
    }
    let i9 = skip_ws(s, i8 + 1);
    if !matches_tok(s, i9, &key_shape) {
        return None;
    }
    let i10 = skip_ws(s, i9 + 7);
    if !(i10 < s.len() && s[i10] == 58) {
        return None;
    }
    let lstart = skip_ws(s, i10 + 1);
    let list_parsed = parse_list_at(s, lstart);
    let (shape, i11) = match list_parsed {
        None => {
            return None;
        },
        Some(p) => p,
    };
    let i12 = skip_ws(s, i11);
    if !(i12 < s.len() && s[i12] == 125) {
        return None;
    }
    if skip_ws(s, i12 + 1) != s.len() {
        return None;
    }
    Some(NumpyHeader { descr, fortran_order: fortran, shape })
}

/// Translates and decodes a header literal.  Fails with `HeaderSyntax`
/// exactly when the text is not well-formed UTF-8 or the translated
/// text is not a well-formed header.
pub fn parse_header(header_text: &Vec<u8>) -> (r: Result<NumpyHeader, NpyError>)
    ensures
        ({
            let sp = sp_parse_header(spec_translate(header_text@));
            match r {
                Ok(h) => {
                    &&& is_utf8(header_text@)
                    &&& sp is Some
                    &&& h.descr@ == sp->Some_0.descr
                    &&& h.fortran_order == sp->Some_0.fortran_order
                    &&& h.shape@ == sp->Some_0.shape
                },
                Err(e) => {
                    &&& !is_utf8(header_text@) || sp is None
                    &&& e == NpyError::FormatError(FormatKind::HeaderSyntax)
                },
            }
        }),
{
    if !validate_utf8(header_text) {
        return Err(NpyError::FormatError(FormatKind::HeaderSyntax));
    }
    let translated = translate_header(header_text);
    match decode_header(&translated) {
        Some(h) => Ok(h),
        None => Err(NpyError::FormatError(FormatKind::HeaderSyntax)),
    }
}

} // verus!
