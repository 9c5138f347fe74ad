use npy_reader::errors::{FormatKind, IoKind, NpyError};
use npy_reader::header::parse_header;
use npy_reader::preamble::read_numpy_header;
use npy_reader::translate::translate_header;

fn npy_bytes(major: u8, minor: u8, header: &str, payload: &[u8]) -> Vec<u8> {
    let mut text: Vec<u8> = header.as_bytes().to_vec();
    while (10 + text.len() + 1) % 64 != 0 {
        text.push(b' ');
    }
    text.push(b'\n');
    let mut out: Vec<u8> = Vec::new();
    out.extend_from_slice(&[0x93, b'N', b'U', b'M', b'P', b'Y']);
    out.push(major);
    out.push(minor);
    out.extend_from_slice(&(text.len() as u16).to_le_bytes());
    out.extend_from_slice(&text);
    out.extend_from_slice(payload);
    out
}

const HEADER_2X3: &str = "{'descr': '<i4', 'fortran_order': False, 'shape': (2, 3), }";

#[test]
fn translates_dict_literal_to_bracketed_form() {
    let input = HEADER_2X3.as_bytes().to_vec();
    let out = translate_header(&input);
    assert_eq!(
        out,
        b"{\"descr\": \"<i4\", \"fortran_order\": false, \"shape\": [2, 3]}".to_vec()
    );
}

#[test]
fn translates_one_element_tuple() {
    let input = b"{'descr': '<i4', 'fortran_order': False, 'shape': (5,), }".to_vec();
    let out = translate_header(&input);
    assert_eq!(
        out,
        b"{\"descr\": \"<i4\", \"fortran_order\": false, \"shape\": [5]}".to_vec()
    );
}

#[test]
fn translates_true_literal() {
    let input = b"{'fortran_order': True}".to_vec();
    let out = translate_header(&input);
    assert_eq!(out, b"{\"fortran_order\": true}".to_vec());
}

#[test]
fn parses_header_fields() {
    let input = HEADER_2X3.as_bytes().to_vec();
    let h = parse_header(&input).unwrap();
    assert_eq!(h.descr, b"<i4".to_vec());
    assert!(!h.fortran_order);
    assert_eq!(h.shape, vec![2, 3]);
}

#[test]
fn parses_empty_shape() {
    let input = b"{'descr': '<i4', 'fortran_order': False, 'shape': (), }".to_vec();
    let h = parse_header(&input).unwrap();
    assert_eq!(h.shape, Vec::<usize>::new());
}

#[test]
fn parses_padded_header() {
    let input = b"{'descr': '<f8', 'fortran_order': True, 'shape': (7,), }      \n".to_vec();
    let h = parse_header(&input).unwrap();
    assert_eq!(h.descr, b"<f8".to_vec());
    assert!(h.fortran_order);
    assert_eq!(h.shape, vec![7]);
}

#[test]
fn rejects_garbled_header() {
    let input = b"{'descr': '<i4', 'fortran_order'; False}".to_vec();
    let r = parse_header(&input);
    assert_eq!(r.unwrap_err(), NpyError::FormatError(FormatKind::HeaderSyntax));
}

#[test]
fn rejects_missing_shape_key() {
    let input = b"{'descr': '<i4', 'fortran_order': False}".to_vec();
    let r = parse_header(&input);
    assert_eq!(r.unwrap_err(), NpyError::FormatError(FormatKind::HeaderSyntax));
}

#[test]
fn rejects_trailing_text_after_brace() {
    let input = b"{'descr': '<i4', 'fortran_order': False, 'shape': (2,)} x".to_vec();
    let r = parse_header(&input);
    assert_eq!(r.unwrap_err(), NpyError::FormatError(FormatKind::HeaderSyntax));
}

fn npy_bytes_raw(header: &[u8], payload: &[u8]) -> Vec<u8> {
    let mut text: Vec<u8> = header.to_vec();
    while (10 + text.len() + 1) % 64 != 0 {
        text.push(b' ');
    }
    text.push(b'\n');
    let mut out: Vec<u8> = Vec::new();
    out.extend_from_slice(&[0x93, b'N', b'U', b'M', b'P', b'Y', 1, 0]);
    out.extend_from_slice(&(text.len() as u16).to_le_bytes());
    out.extend_from_slice(&text);
    out.extend_from_slice(payload);
    out
}

#[test]
fn preserves_string_contents_in_translation() {
    let input = b"{'descr': '(True, ]', 'fortran_order': False, 'shape': (2,), }".to_vec();
    let out = translate_header(&input);
    assert_eq!(
        out,
        b"{\"descr\": \"(True, ]\", \"fortran_order\": false, \"shape\": [2]}".to_vec()
    );
}

#[test]
fn parses_string_contents_verbatim() {
    let input = b"{'descr': '(i4', 'fortran_order': False, 'shape': (2, 3), }".to_vec();
    let h = parse_header(&input).unwrap();
    assert_eq!(h.descr, b"(i4".to_vec());
    let input2 = b"{'descr': 'True', 'fortran_order': True, 'shape': (1,), }".to_vec();
    let h2 = parse_header(&input2).unwrap();
    assert_eq!(h2.descr, b"True".to_vec());
    assert!(h2.fortran_order);
}

#[test]
fn rejects_non_utf8_header_text() {
    let input = b"{'descr': '\xffi4', 'fortran_order': False, 'shape': (2,), }".to_vec();
    let r = parse_header(&input);
    assert_eq!(r.unwrap_err(), NpyError::FormatError(FormatKind::HeaderSyntax));

    let data = npy_bytes_raw(b"{'descr': '\xffi4', 'fortran_order': False, 'shape': (2,), }", &[0u8; 8]);
    let r2 = read_numpy_header(&data);
    assert_eq!(r2.unwrap_err(), NpyError::FormatError(FormatKind::HeaderSyntax));
}

#[test]
fn accepts_multibyte_utf8_in_strings() {
    // a two-byte UTF-8 sequence (0xC3 0xA9) inside the descr string
    let input = b"{'descr': '\xc3\xa9', 'fortran_order': False, 'shape': (1,), }".to_vec();
    let h = parse_header(&input).unwrap();
    assert_eq!(h.descr, vec![0xc3, 0xa9]);
}

#[test]
fn rejects_mismatched_quotes() {
    let input = b"{'descr': '<i4, 'fortran_order': False, 'shape': (2,) }".to_vec();
    // the quote after '<i4, ' closes early and the rest does not parse
    let r = parse_header(&input);
    assert_eq!(r.unwrap_err(), NpyError::FormatError(FormatKind::HeaderSyntax));
}

#[test]
fn reads_preamble_and_offset() {
    let data = npy_bytes(1, 0, HEADER_2X3, &[]);
    let (h, offset) = read_numpy_header(&data).unwrap();
    assert_eq!(h.descr, b"<i4".to_vec());
    assert!(!h.fortran_order);
    assert_eq!(h.shape, vec![2, 3]);
    // 6 magic + 2 version + 2 length bytes, then the header text
    let hlen = u16::from_le_bytes([data[8], data[9]]) as usize;
    assert_eq!(offset, 10 + hlen);
    assert_eq!(offset % 64, 0);
}

#[test]
fn any_altered_magic_byte_is_bad_magic() {
    for k in 0..6 {
        let mut data = npy_bytes(1, 0, HEADER_2X3, &[0u8; 24]);
        data[k] ^= 0x01;
        let r = read_numpy_header(&data);
        assert_eq!(
            r.unwrap_err(),
            NpyError::FormatError(FormatKind::BadMagic),
            "magic byte {} altered",
            k
        );
    }
}

#[test]
fn unsupported_major_version_regardless_of_minor() {
    for (major, minor) in [(0u8, 0u8), (2, 0), (2, 1), (3, 0), (255, 255), (0, 7)] {
        let data = npy_bytes(major, minor, HEADER_2X3, &[0u8; 24]);
        let r = read_numpy_header(&data);
        assert_eq!(
            r.unwrap_err(),
            NpyError::FormatError(FormatKind::UnsupportedVersion),
            "version {}.{}",
            major,
            minor
        );
    }
}

#[test]
fn minor_version_is_informational_only() {
    let data = npy_bytes(1, 9, HEADER_2X3, &[]);
    assert!(read_numpy_header(&data).is_ok());
}

#[test]
fn short_preamble_is_truncated() {
    for n in [0usize, 3, 6, 7, 8, 9] {
        let full = npy_bytes(1, 0, HEADER_2X3, &[]);
        let data = full[..n].to_vec();
        let r = read_numpy_header(&data);
        assert_eq!(r.unwrap_err(), NpyError::IOError(IoKind::Truncated), "{} bytes", n);
    }
}

#[test]
fn short_header_text_is_truncated() {
    let full = npy_bytes(1, 0, HEADER_2X3, &[]);
    let data = full[..full.len() - 1].to_vec();
    let r = read_numpy_header(&data);
    assert_eq!(r.unwrap_err(), NpyError::IOError(IoKind::Truncated));
}
