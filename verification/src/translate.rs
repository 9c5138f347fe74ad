//! The header literal translator.
//!
//! The header text is a Python-dict-like literal.  Four rewrites, in
//! this fixed order, turn it into the bracketed, double-quoted form the
//! header decoder reads: boolean literals are lowercased, parenthesized
//! tuples become bracketed sequences, a trailing comma before a closer
//! is stripped, and single-quote string delimiters become double
//! quotes.  The first three rewrites operate on the literal, not on raw
//! bytes: a single-quoted string's contents pass through unchanged, so
//! parentheses, booleans or commas inside a string survive translation.

use vstd::prelude::*;

verus! {

broadcast use vstd::seq::group_seq_axioms, vstd::std_specs::vec::group_vec_axioms;

/// Whitespace bytes of the header text: space, tab, line feed,
/// carriage return.
pub open spec fn is_ws(b: u8) -> bool {
    b == 32 || b == 9 || b == 10 || b == 13
}

/// Index of the first byte at or after `i` that is not whitespace.
pub open spec fn spec_skip_ws(s: Seq<u8>, i: int) -> int
    decreases s.len() - i,
{
    if 0 <= i < s.len() && is_ws(s[i]) {
        spec_skip_ws(s, i + 1)
    } else {
        i
    }
}

/// Skipping whitespace moves forward, and not past the end.
pub proof fn lemma_skip_ws_bounds(s: Seq<u8>, i: int)
    requires
        0 <= i <= s.len(),
    ensures
        i <= spec_skip_ws(s, i) <= s.len(),
    decreases s.len() - i,
{
    if i < s.len() && is_ws(s[i]) {
        lemma_skip_ws_bounds(s, i + 1);
    }
}

/// Whether the bytes of `tok` stand at position `i` of `s`.
pub open spec fn matches_at(s: Seq<u8>, i: int, tok: Seq<u8>) -> bool {
    &&& 0 <= i
    &&& i + tok.len() <= s.len()
    &&& forall|k: int| 0 <= k < tok.len() ==> s[i + k] == tok[k]
}

/// Index of the first single quote at or after `i`.
pub open spec fn sp_next_quote(s: Seq<u8>, i: int) -> int
    decreases s.len() - i,
{
    if 0 <= i < s.len() && s[i] != 39 {
        sp_next_quote(s, i + 1)
    } else {
        i
    }
}

/// The quote search moves forward, and not past the end.
pub proof fn lemma_next_quote_bounds(s: Seq<u8>, i: int)
    requires
        0 <= i <= s.len(),
    ensures
        i <= sp_next_quote(s, i) <= s.len(),
    decreases s.len() - i,
{
    if i < s.len() && s[i] != 39 {
        lemma_next_quote_bounds(s, i + 1);
    }
}

/// For a text opening with a single quote: the index just past the
/// quote that closes it, or the text's length when none does.
pub open spec fn sp_span_end(s: Seq<u8>) -> int {
    let e = sp_next_quote(s, 1);
    if e < s.len() {
        e + 1
    } else {
        s.len() as int
    }
}

/// The text with Python boolean literals outside strings lowercased:
/// `True` becomes `true` and `False` becomes `false`.
pub open spec fn spec_replace_bools(s: Seq<u8>) -> Seq<u8>
    decreases s.len(),
    via spec_replace_bools_decreases
{
    if s.len() == 0 {
        seq![]
    } else if s[0] == 39 {
        s.subrange(0, sp_span_end(s)) + spec_replace_bools(s.skip(sp_span_end(s)))
    } else if matches_at(s, 0, seq![84u8, 114u8, 117u8, 101u8]) {
        seq![116u8, 114u8, 117u8, 101u8] + spec_replace_bools(s.skip(4))
    } else if matches_at(s, 0, seq![70u8, 97u8, 108u8, 115u8, 101u8]) {
        seq![102u8, 97u8, 108u8, 115u8, 101u8] + spec_replace_bools(s.skip(5))
    } else {
        seq![s[0]] + spec_replace_bools(s.skip(1))
    }
}

#[via_fn]
proof fn spec_replace_bools_decreases(s: Seq<u8>) {
    if s.len() > 0 && s[0] == 39 {
        lemma_next_quote_bounds(s, 1);
    }
}

/// The text with each tuple delimiter outside strings replaced by the
/// matching sequence delimiter: `(` becomes `[` and `)` becomes `]`.
pub open spec fn spec_bracket_tuples(s: Seq<u8>) -> Seq<u8>
    decreases s.len(),
    via spec_bracket_tuples_decreases
{
    if s.len() == 0 {
        seq![]
    } else if s[0] == 39 {
        s.subrange(0, sp_span_end(s)) + spec_bracket_tuples(s.skip(sp_span_end(s)))
    } else if s[0] == 40 {
        seq![91u8] + spec_bracket_tuples(s.skip(1))
    } else if s[0] == 41 {
        seq![93u8] + spec_bracket_tuples(s.skip(1))
    } else {
        seq![s[0]] + spec_bracket_tuples(s.skip(1))
    }
}

#[via_fn]
proof fn spec_bracket_tuples_decreases(s: Seq<u8>) {
    if s.len() > 0 && s[0] == 39 {
        lemma_next_quote_bounds(s, 1);
    }
}

/// The text with every comma outside strings that is followed, up to
/// whitespace, by a closing brace or bracket removed together with that
/// whitespace.
pub open spec fn spec_strip_trailing_commas(s: Seq<u8>) -> Seq<u8>
    decreases s.len(),
    via spec_strip_trailing_commas_decreases
{
    if s.len() == 0 {
        seq![]
    } else if s[0] == 39 {
        s.subrange(0, sp_span_end(s)) + spec_strip_trailing_commas(s.skip(sp_span_end(s)))
    } else if s[0] == 44 && {
        let j = spec_skip_ws(s, 1);
        j < s.len() && (s[j] == 125 || s[j] == 93)
    } {
        spec_strip_trailing_commas(s.skip(spec_skip_ws(s, 1)))
    } else {
        seq![s[0]] + spec_strip_trailing_commas(s.skip(1))
    }
}

#[via_fn]
proof fn spec_strip_trailing_commas_decreases(s: Seq<u8>) {
    if s.len() > 0 {
        if s[0] == 39 {
            lemma_next_quote_bounds(s, 1);
        } else {
            lemma_skip_ws_bounds(s, 1);
        }
    }
}

/// The text with single-quote string delimiters replaced by double
/// quotes.
pub open spec fn spec_replace_quotes(s: Seq<u8>) -> Seq<u8> {
    s.map_values(
        |b: u8|
            if b == 39 {
                34u8
            } else {
                b
            },
    )
}

/// The full translation: booleans, then tuples, then trailing commas,
/// then quotes.
pub open spec fn spec_translate(s: Seq<u8>) -> Seq<u8> {
    spec_replace_quotes(
        spec_strip_trailing_commas(spec_bracket_tuples(spec_replace_bools(s))),
    )
}

/// Index of the first single quote at or after `i`.
fn next_quote(s: &Vec<u8>, i: usize) -> (r: usize)
    requires
        i <= s@.len(),
    ensures
        r == sp_next_quote(s@, i as int),
        i <= r <= s@.len(),
{
    let mut j: usize = i;
    while j < s.len() && s[j] != 39
        invariant
            i <= j <= s@.len(),
            sp_next_quote(s@, i as int) == sp_next_quote(s@, j as int),
        decreases s@.len() - j,
    {
        j = j + 1;
    }
    j
}

/// Index of the first byte at or after `i` that is not whitespace.
pub(crate) fn skip_ws(s: &Vec<u8>, i: usize) -> (r: usize)
    requires
        i <= s@.len(),
    ensures
        r == spec_skip_ws(s@, i as int),
        i <= r <= s@.len(),
{
    let mut j: usize = i;
    while j < s.len() && (s[j] == 32 || s[j] == 9 || s[j] == 10 || s[j] == 13)
        invariant
            i <= j <= s@.len(),
            spec_skip_ws(s@, i as int) == spec_skip_ws(s@, j as int),
        decreases s@.len() - j,
    {
        j = j + 1;
    }
    j
}

/// Appends the bytes of `s` from `from` up to `to` onto `out`.
fn push_range(out: &mut Vec<u8>, s: &Vec<u8>, from: usize, to: usize)
    requires
        from <= to <= s@.len(),
    ensures
        final(out)@ == old(out)@ + s@.subrange(from as int, to as int),
{
    let mut m: usize = from;
    proof {
        assert(out@ =~= old(out)@ + s@.subrange(from as int, from as int));
    }
    while m < to
        invariant
            from <= m <= to,
            to <= s@.len(),
            out@ == old(out)@ + s@.subrange(from as int, m as int),
        decreases to - m,
    {
        proof {
            assert(s.len() == s@.len());
        }
        out.push(s[m]);
        proof {
            assert(out@ =~= old(out)@ + s@.subrange(from as int, m + 1));
        }
        m = m + 1;
    }
}

/// Finding the next quote in a suffix is finding it in the whole text,
/// shifted.
proof fn lemma_next_quote_shift(s: Seq<u8>, i: int, k: int)
    requires
        0 <= i,
        0 <= k,
        i + k <= s.len(),
    ensures
        sp_next_quote(s.skip(i), k) == sp_next_quote(s, i + k) - i,
    decreases s.len() - i - k,
{
    let suf = s.skip(i);
    if k < suf.len() && suf[k] != 39 {
        assert(suf[k] == s[i + k]);
        lemma_next_quote_shift(s, i, k + 1);
    } else {
        if i + k < s.len() {
            assert(suf[k] == s[i + k]);
        }
    }
}

/// Skipping whitespace in a suffix is skipping it in the whole text,
/// shifted.
proof fn lemma_skip_ws_shift(s: Seq<u8>, i: int, k: int)
    requires
        0 <= i,
        0 <= k,
        i + k <= s.len(),
    ensures
        spec_skip_ws(s.skip(i), k) == spec_skip_ws(s, i + k) - i,
    decreases s.len() - i - k,
{
    let suf = s.skip(i);
    if k < suf.len() && is_ws(suf[k]) {
        assert(suf[k] == s[i + k]);
        lemma_skip_ws_shift(s, i, k + 1);
    } else {
        if i + k < s.len() {
            assert(suf[k] == s[i + k]);
        }
    }
}

/// Lowercases the Python boolean literals outside strings.
fn replace_bools(s: &Vec<u8>) -> (r: Vec<u8>)
    ensures
        r@ == spec_replace_bools(s@),
{
    let mut out: Vec<u8> = Vec::new();
    let mut i: usize = 0;
    proof {
        assert(s@.skip(0) =~= s@);
    }
    while i < s.len()
        invariant
            i <= s@.len(),
            spec_replace_bools(s@) == out@ + spec_replace_bools(s@.skip(i as int)),
        decreases s@.len() - i,
    {
        let ghost suf = s@.skip(i as int);
        let ghost prev = out@;
        proof {
            assert(forall|k: int| 0 <= k < suf.len() ==> suf[k] == s@[i + k]);
        }
        if s[i] == 39 {
            let e = next_quote(s, i + 1);
            let end = if e < s.len() {
                e + 1
            } else {
                s.len()
            };
            proof {
                lemma_next_quote_shift(s@, i as int, 1);
                assert(sp_next_quote(suf, 1) == e - i);
                assert(sp_span_end(suf) == end - i);
            }
            push_range(&mut out, s, i, end);
            proof {
                assert(suf.subrange(0, end - i) =~= s@.subrange(i as int, end as int));
                assert(suf.skip(end - i) =~= s@.skip(end as int));
                assert(spec_replace_bools(suf) == suf.subrange(0, sp_span_end(suf))
                    + spec_replace_bools(s@.skip(end as int)));
                assert(prev + spec_replace_bools(suf) =~= out@ + spec_replace_bools(
                    s@.skip(end as int),
                ));
            }
            i = end;
        } else if s.len() - i >= 4 && s[i] == 84 && s[i + 1] == 114 && s[i + 2] == 117 && s[i + 3]
            == 101 {
            out.push(116);
            out.push(114);
            out.push(117);
            out.push(101);
            proof {
                assert(matches_at(suf, 0, seq![84u8, 114u8, 117u8, 101u8]));
                assert(suf.skip(4) =~= s@.skip(i + 4));
                assert(spec_replace_bools(suf) == seq![116u8, 114u8, 117u8, 101u8]
                    + spec_replace_bools(s@.skip(i + 4)));
                assert(prev + spec_replace_bools(suf) =~= out@ + spec_replace_bools(
                    s@.skip(i + 4),
                ));
            }
            i = i + 4;
        } else if s.len() - i >= 5 && s[i] == 70 && s[i + 1] == 97 && s[i + 2] == 108 && s[i + 3]
            == 115 && s[i + 4] == 101 {
            out.push(102);
            out.push(97);
            out.push(108);
            out.push(115);
            out.push(101);
            proof {
                assert(!matches_at(suf, 0, seq![84u8, 114u8, 117u8, 101u8]));
                assert(matches_at(suf, 0, seq![70u8, 97u8, 108u8, 115u8, 101u8]));
                assert(suf.skip(5) =~= s@.skip(i + 5));
                assert(spec_replace_bools(suf) == seq![102u8, 97u8, 108u8, 115u8, 101u8]
                    + spec_replace_bools(s@.skip(i + 5)));
                assert(prev + spec_replace_bools(suf) =~= out@ + spec_replace_bools(
                    s@.skip(i + 5),
                ));
            }
            i = i + 5;
        } else {
            out.push(s[i]);
            proof {
                assert(!matches_at(suf, 0, seq![84u8, 114u8, 117u8, 101u8]));
                assert(!matches_at(suf, 0, seq![70u8, 97u8, 108u8, 115u8, 101u8]));
                assert(suf.skip(1) =~= s@.skip(i + 1));
                assert(spec_replace_bools(suf) == seq![suf[0]] + spec_replace_bools(
                    s@.skip(i + 1),
                ));
                assert(prev + spec_replace_bools(suf) =~= out@ + spec_replace_bools(
                    s@.skip(i + 1),
                ));
            }
            i = i + 1;
        }
    }
    proof {
        assert(s@.skip(s@.len() as int) =~= Seq::<u8>::empty());
        assert(out@ + Seq::<u8>::empty() =~= out@);
    }
    out
}

/// Replaces tuple delimiters outside strings by sequence delimiters.
fn bracket_tuples(s: &Vec<u8>) -> (r: Vec<u8>)
    ensures
        r@ == spec_bracket_tuples(s@),
{
    let mut out: Vec<u8> = Vec::new();
    let mut i: usize = 0;
    proof {
        assert(s@.skip(0) =~= s@);
    }
    while i < s.len()
        invariant
            i <= s@.len(),
            spec_bracket_tuples(s@) == out@ + spec_bracket_tuples(s@.skip(i as int)),
        decreases s@.len() - i,
    {
        let ghost suf = s@.skip(i as int);
        let ghost prev = out@;
        proof {
            assert(forall|k: int| 0 <= k < suf.len() ==> suf[k] == s@[i + k]);
        }
        if s[i] == 39 {
            let e = next_quote(s, i + 1);
            let end = if e < s.len() {
                e + 1
            } else {
                s.len()
            };
            proof {
                lemma_next_quote_shift(s@, i as int, 1);
                assert(sp_next_quote(suf, 1) == e - i);
                assert(sp_span_end(suf) == end - i);
            }
            push_range(&mut out, s, i, end);
            proof {
                assert(suf.subrange(0, end - i) =~= s@.subrange(i as int, end as int));
                assert(suf.skip(end - i) =~= s@.skip(end as int));
                assert(spec_bracket_tuples(suf) == suf.subrange(0, sp_span_end(suf))
                    + spec_bracket_tuples(s@.skip(end as int)));
                assert(prev + spec_bracket_tuples(suf) =~= out@ + spec_bracket_tuples(
                    s@.skip(end as int),
                ));
            }
            i = end;
        } else {
            let b = s[i];
            if b == 40 {
                out.push(91);
            } else if b == 41 {
                out.push(93);
            } else {
                out.push(b);
            }
            proof {
                assert(suf.skip(1) =~= s@.skip(i + 1));
                assert(prev + spec_bracket_tuples(suf) =~= out@ + spec_bracket_tuples(
                    s@.skip(i + 1),
                ));
            }
            i = i + 1;
        }
    }
    proof {
        assert(s@.skip(s@.len() as int) =~= Seq::<u8>::empty());
        assert(out@ + Seq::<u8>::empty() =~= out@);
    }
    out
}

/// Strips every comma outside strings that is followed, up to
/// whitespace, by a closing brace or bracket, together with that
/// whitespace.
fn strip_trailing_commas(s: &Vec<u8>) -> (r: Vec<u8>)
    ensures
        r@ == spec_strip_trailing_commas(s@),
{
    let mut out: Vec<u8> = Vec::new();
    let mut i: usize = 0;
    proof {
        assert(s@.skip(0) =~= s@);
    }
    while i < s.len()
        invariant
            i <= s@.len(),
            spec_strip_trailing_commas(s@) == out@ + spec_strip_trailing_commas(
                s@.skip(i as int),
            ),
        decreases s@.len() - i,
    {
        let ghost suf = s@.skip(i as int);
        let ghost prev = out@;
        proof {
            assert(forall|k: int| 0 <= k < suf.len() ==> suf[k] == s@[i + k]);
        }
        if s[i] == 39 {
            let e = next_quote(s, i + 1);
            let end = if e < s.len() {
                e + 1
            } else {
                s.len()
            };
            proof {
                lemma_next_quote_shift(s@, i as int, 1);
                assert(sp_next_quote(suf, 1) == e - i);
                assert(sp_span_end(suf) == end - i);
            }
            push_range(&mut out, s, i, end);
            proof {
                assert(suf.subrange(0, end - i) =~= s@.subrange(i as int, end as int));
                assert(suf.skip(end - i) =~= s@.skip(end as int));
                assert(spec_strip_trailing_commas(suf) == suf.subrange(0, sp_span_end(suf))
                    + spec_strip_trailing_commas(s@.skip(end as int)));
                assert(prev + spec_strip_trailing_commas(suf) =~= out@
                    + spec_strip_trailing_commas(s@.skip(end as int)));
            }
            i = end;
        } else if s[i] == 44 {
            let j = skip_ws(s, i + 1);
            proof {
                lemma_skip_ws_shift(s@, i as int, 1);
                assert(spec_skip_ws(suf, 1) == j - i);
            }
            if j < s.len() && (s[j] == 125 || s[j] == 93) {
                proof {
                    assert(suf[j - i] == s@[j as int]);
                    assert(suf.skip(j - i) =~= s@.skip(j as int));
                    assert(spec_strip_trailing_commas(suf) == spec_strip_trailing_commas(
                        s@.skip(j as int),
                    ));
                }
                i = j;
            } else {
                out.push(s[i]);
                proof {
                    if j < s.len() {
                        assert(suf[j - i] == s@[j as int]);
                    }
                    assert(suf.skip(1) =~= s@.skip(i + 1));
                    assert(spec_strip_trailing_commas(suf) == seq![suf[0]]
                        + spec_strip_trailing_commas(s@.skip(i + 1)));
                    assert(prev + spec_strip_trailing_commas(suf) =~= out@
                        + spec_strip_trailing_commas(s@.skip(i + 1)));
                }
                i = i + 1;
            }
        } else {
            out.push(s[i]);
            proof {
                assert(suf.skip(1) =~= s@.skip(i + 1));
                assert(spec_strip_trailing_commas(suf) == seq![suf[0]]
                    + spec_strip_trailing_commas(s@.skip(i + 1)));
                assert(prev + spec_strip_trailing_commas(suf) =~= out@
                    + spec_strip_trailing_commas(s@.skip(i + 1)));
            }
            i = i + 1;
        }
    }
    proof {
        assert(s@.skip(s@.len() as int) =~= Seq::<u8>::empty());
        assert(out@ + Seq::<u8>::empty() =~= out@);
    }
    out
}

/// Replaces single-quote string delimiters by double quotes.
fn replace_quotes(s: &Vec<u8>) -> (r: Vec<u8>)
    ensures
        r@ == spec_replace_quotes(s@),
{
    let mut out: Vec<u8> = Vec::new();
    let mut i: usize = 0;
    while i < s.len()
        invariant
            i <= s@.len(),
            out@.len() == i,
            forall|k: int|
                0 <= k < i ==> out@[k] == (if s@[k] == 39 {
                    34u8
                } else {
                    s@[k]
                }),
        decreases s@.len() - i,
    {
        let b = s[i];
        if b == 39 {
            out.push(34);
        } else {
            out.push(b);
        }
        i = i + 1;
    }
    proof {
        assert(out@ =~= spec_replace_quotes(s@));
    }
    out
}

/// Translates the header literal into bracketed, double-quoted form:
/// booleans lowercased, tuples bracketed, trailing commas before a
/// closer stripped, single quotes doubled; string contents pass
/// through unchanged.
pub fn translate_header(s: &Vec<u8>) -> (r: Vec<u8>)
    ensures
        r@ == spec_translate(s@),
{
    let step1 = replace_bools(s);
    let step2 = bracket_tuples(&step1);
    let step3 = strip_trailing_commas(&step2);
    replace_quotes(&step3)
}

} // verus!
