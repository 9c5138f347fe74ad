use npy_reader::dtype::DtypeKind;
use npy_reader::errors::{FormatKind, IoKind, NpyError};
use npy_reader::ndarray::{element_count, flatten, reshape, reshape_ordered, Elem, NumpyArrayResult};
use npy_reader::read_array;

fn npy_bytes(major: u8, minor: u8, header: &str, payload: &[u8]) -> Vec<u8> {
    let mut text: Vec<u8> = header.as_bytes().to_vec();
    while (10 + text.len() + 1) % 64 != 0 {
        text.push(b' ');
    }
    text.push(b'\n');
    let mut out: Vec<u8> = Vec::new();
    out.extend_from_slice(&[0x93, b'N', b'U', b'M', b'P', b'Y']);
    out.push(major);
    out.push(minor);
    out.extend_from_slice(&(text.len() as u16).to_le_bytes());
    out.extend_from_slice(&text);
    out.extend_from_slice(payload);
    out
}

fn i32_payload(values: &[i32]) -> Vec<u8> {
    let mut out = Vec::new();
    for v in values {
        out.extend_from_slice(&v.to_le_bytes());
    }
    out
}

fn scalar_i32(v: i32) -> NumpyArrayResult {
    NumpyArrayResult::Scalar(Elem::I32(v))
}

fn row_i32(values: &[i32]) -> NumpyArrayResult {
    NumpyArrayResult::Array(values.iter().map(|v| scalar_i32(*v)).collect())
}

#[test]
fn reads_rank_2_row_major() {
    let data = npy_bytes(
        1,
        0,
        "{'descr': '<i4', 'fortran_order': False, 'shape': (2, 3), }",
        &i32_payload(&[1, 2, 3, 4, 5, 6]),
    );
    let a = read_array(&data).unwrap();
    assert_eq!(a.descriptor.kind, DtypeKind::Int);
    assert_eq!(a.descriptor.itemsize, 4);
    assert!(!a.descriptor.fortran_order);
    assert_eq!(a.descriptor.shape, vec![2, 3]);
    let expected = NumpyArrayResult::Array(vec![row_i32(&[1, 2, 3]), row_i32(&[4, 5, 6])]);
    assert_eq!(a.data, expected);
}

#[test]
fn reads_rank_1() {
    let data = npy_bytes(
        1,
        0,
        "{'descr': '<i4', 'fortran_order': False, 'shape': (6,), }",
        &i32_payload(&[1, 2, 3, 4, 5, 6]),
    );
    let a = read_array(&data).unwrap();
    assert_eq!(a.descriptor.shape, vec![6]);
    assert_eq!(a.data, row_i32(&[1, 2, 3, 4, 5, 6]));
}

#[test]
fn reads_rank_0_scalar() {
    let data = npy_bytes(
        1,
        0,
        "{'descr': '<i4', 'fortran_order': False, 'shape': (), }",
        &i32_payload(&[42]),
    );
    let a = read_array(&data).unwrap();
    assert_eq!(a.descriptor.shape, Vec::<usize>::new());
    assert_eq!(a.data, scalar_i32(42));
}

#[test]
fn reads_fortran_order_as_logical_row_major_view() {
    // column-major storage of [[1,2,3],[4,5,6]]: columns first
    let data = npy_bytes(
        1,
        0,
        "{'descr': '<i4', 'fortran_order': True, 'shape': (2, 3), }",
        &i32_payload(&[1, 4, 2, 5, 3, 6]),
    );
    let a = read_array(&data).unwrap();
    assert!(a.descriptor.fortran_order);
    let expected = NumpyArrayResult::Array(vec![row_i32(&[1, 2, 3]), row_i32(&[4, 5, 6])]);
    assert_eq!(a.data, expected);
}

#[test]
fn reads_rank_3() {
    let data = npy_bytes(
        1,
        0,
        "{'descr': '<i4', 'fortran_order': False, 'shape': (2, 2, 2), }",
        &i32_payload(&[1, 2, 3, 4, 5, 6, 7, 8]),
    );
    let a = read_array(&data).unwrap();
    let expected = NumpyArrayResult::Array(vec![
        NumpyArrayResult::Array(vec![row_i32(&[1, 2]), row_i32(&[3, 4])]),
        NumpyArrayResult::Array(vec![row_i32(&[5, 6]), row_i32(&[7, 8])]),
    ]);
    assert_eq!(a.data, expected);
}

#[test]
fn reads_rank_4_uniformly() {
    let values: Vec<i32> = (1..=16).collect();
    let data = npy_bytes(
        1,
        0,
        "{'descr': '<i4', 'fortran_order': False, 'shape': (2, 2, 2, 2), }",
        &i32_payload(&values),
    );
    let a = read_array(&data).unwrap();
    let block = |a0: i32| {
        NumpyArrayResult::Array(vec![
            NumpyArrayResult::Array(vec![row_i32(&[a0, a0 + 1]), row_i32(&[a0 + 2, a0 + 3])]),
            NumpyArrayResult::Array(vec![
                row_i32(&[a0 + 4, a0 + 5]),
                row_i32(&[a0 + 6, a0 + 7]),
            ]),
        ])
    };
    assert_eq!(a.data, NumpyArrayResult::Array(vec![block(1), block(9)]));
}

#[test]
fn reads_fortran_rank_3() {
    // column-major storage of [[[1,2],[3,4]],[[5,6],[7,8]]]
    let data = npy_bytes(
        1,
        0,
        "{'descr': '<i4', 'fortran_order': True, 'shape': (2, 2, 2), }",
        &i32_payload(&[1, 5, 3, 7, 2, 6, 4, 8]),
    );
    let a = read_array(&data).unwrap();
    let expected = NumpyArrayResult::Array(vec![
        NumpyArrayResult::Array(vec![row_i32(&[1, 2]), row_i32(&[3, 4])]),
        NumpyArrayResult::Array(vec![row_i32(&[5, 6]), row_i32(&[7, 8])]),
    ]);
    assert_eq!(a.data, expected);
}

#[test]
fn reads_zero_dimension_shape() {
    let data = npy_bytes(
        1,
        0,
        "{'descr': '<i4', 'fortran_order': False, 'shape': (2, 0, 3), }",
        &[],
    );
    let a = read_array(&data).unwrap();
    let expected = NumpyArrayResult::Array(vec![
        NumpyArrayResult::Array(vec![]),
        NumpyArrayResult::Array(vec![]),
    ]);
    assert_eq!(a.data, expected);
}

#[test]
fn unsupported_dtypes_are_rejected() {
    for descr in ["<i3", "<c16", ">i4", "|b1", "<f2", "<u3", "i4", "<i16"] {
        let header = format!(
            "{{'descr': '{}', 'fortran_order': False, 'shape': (1,), }}",
            descr
        );
        let data = npy_bytes(1, 0, &header, &[0u8; 16]);
        let r = read_array(&data);
        assert_eq!(
            r.unwrap_err(),
            NpyError::FormatError(FormatKind::UnsupportedDType),
            "descr {}",
            descr
        );
    }
}

#[test]
fn short_payload_is_truncated() {
    // 2 x 3 i32 needs 24 bytes; give 23
    let payload = i32_payload(&[1, 2, 3, 4, 5, 6]);
    let data = npy_bytes(
        1,
        0,
        "{'descr': '<i4', 'fortran_order': False, 'shape': (2, 3), }",
        &payload[..23],
    );
    let r = read_array(&data);
    assert_eq!(r.unwrap_err(), NpyError::IOError(IoKind::Truncated));
}

#[test]
fn empty_payload_is_truncated() {
    let data = npy_bytes(
        1,
        0,
        "{'descr': '<i4', 'fortran_order': False, 'shape': (2, 3), }",
        &[],
    );
    let r = read_array(&data);
    assert_eq!(r.unwrap_err(), NpyError::IOError(IoKind::Truncated));
}

#[test]
fn flatten_returns_row_major_buffer() {
    let data = npy_bytes(
        1,
        0,
        "{'descr': '<i4', 'fortran_order': True, 'shape': (2, 3), }",
        &i32_payload(&[1, 4, 2, 5, 3, 6]),
    );
    let a = read_array(&data).unwrap();
    let flat = flatten(&a.data);
    let expected: Vec<Elem> = (1..=6).map(Elem::I32).collect();
    assert_eq!(flat, expected);
}

#[test]
fn reshape_of_flatten_restores_the_array() {
    let data = npy_bytes(
        1,
        0,
        "{'descr': '<i4', 'fortran_order': False, 'shape': (2, 2, 3), }",
        &i32_payload(&(1..=12).collect::<Vec<i32>>()),
    );
    let a = read_array(&data).unwrap();
    let flat = flatten(&a.data);
    assert_eq!(flat.len(), 12);
    let again = reshape(&flat, &a.descriptor.shape).unwrap();
    assert_eq!(again, a.data);
}

#[test]
fn reshape_rejects_wrong_length() {
    let buf: Vec<Elem> = (1..=5).map(Elem::I32).collect();
    let shape = vec![2usize, 3usize];
    let r = reshape(&buf, &shape);
    assert_eq!(r.unwrap_err(), NpyError::FormatError(FormatKind::ShapeMismatch));
    let r2 = reshape_ordered(&buf, &shape, true);
    assert_eq!(r2.unwrap_err(), NpyError::FormatError(FormatKind::ShapeMismatch));
}

#[test]
fn exposes_depth_and_shape_accessors() {
    let data = npy_bytes(
        1,
        0,
        "{'descr': '<i4', 'fortran_order': False, 'shape': (2, 3), }",
        &i32_payload(&[1, 2, 3, 4, 5, 6]),
    );
    let a = read_array(&data).unwrap();
    assert_eq!(a.data.depth(), 2);
    assert_eq!(a.data.shape_of(), vec![2, 3]);
    assert_eq!(scalar_i32(5).depth(), 0);
    assert_eq!(scalar_i32(5).shape_of(), Vec::<usize>::new());
    assert_eq!(row_i32(&[1, 2, 3, 4]).depth(), 1);
    assert_eq!(row_i32(&[1, 2, 3, 4]).shape_of(), vec![4]);
}

#[test]
fn element_count_multiplies_dimensions() {
    assert_eq!(element_count(&vec![2, 3, 4]), Some(24));
    assert_eq!(element_count(&vec![]), Some(1));
    assert_eq!(element_count(&vec![7, 0, 9]), Some(0));
    assert_eq!(element_count(&vec![usize::MAX, 2]), None);
}
