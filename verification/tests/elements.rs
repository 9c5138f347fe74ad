use npy_reader::ndarray::{Elem, NumpyArrayResult};
use npy_reader::read_array;

fn npy_bytes_1d(descr: &str, count: usize, payload: &[u8]) -> Vec<u8> {
    let header = format!(
        "{{'descr': '{}', 'fortran_order': False, 'shape': ({},), }}",
        descr, count
    );
    let mut text: Vec<u8> = header.into_bytes();
    while (10 + text.len() + 1) % 64 != 0 {
        text.push(b' ');
    }
    text.push(b'\n');
    let mut out: Vec<u8> = Vec::new();
    out.extend_from_slice(&[0x93, b'N', b'U', b'M', b'P', b'Y', 1, 0]);
    out.extend_from_slice(&(text.len() as u16).to_le_bytes());
    out.extend_from_slice(&text);
    out.extend_from_slice(payload);
    out
}

fn elements_of(tree: NumpyArrayResult) -> Vec<Elem> {
    match tree {
        NumpyArrayResult::Array(children) => children
            .into_iter()
            .map(|c| match c {
                NumpyArrayResult::Scalar(e) => e,
                NumpyArrayResult::Array(_) => panic!("expected rank 1"),
            })
            .collect(),
        NumpyArrayResult::Scalar(_) => panic!("expected rank 1"),
    }
}

#[test]
fn decodes_signed_ints_two_complement() {
    let mut payload = Vec::new();
    for v in [-1i32, i32::MIN, i32::MAX, 0, 7] {
        payload.extend_from_slice(&v.to_le_bytes());
    }
    let a = read_array(&npy_bytes_1d("<i4", 5, &payload)).unwrap();
    assert_eq!(
        elements_of(a.data),
        vec![
            Elem::I32(-1),
            Elem::I32(i32::MIN),
            Elem::I32(i32::MAX),
            Elem::I32(0),
            Elem::I32(7)
        ]
    );
}

#[test]
fn decodes_i8_extremes() {
    let payload = [0x80u8, 0x7f, 0xff];
    let a = read_array(&npy_bytes_1d("<i1", 3, &payload)).unwrap();
    assert_eq!(
        elements_of(a.data),
        vec![Elem::I8(-128), Elem::I8(127), Elem::I8(-1)]
    );
}

#[test]
fn decodes_i2_and_i8_widths() {
    let mut payload = Vec::new();
    payload.extend_from_slice(&(-2i16).to_le_bytes());
    let a = read_array(&npy_bytes_1d("<i2", 1, &payload)).unwrap();
    assert_eq!(elements_of(a.data), vec![Elem::I16(-2)]);

    let mut payload8 = Vec::new();
    payload8.extend_from_slice(&i64::MIN.to_le_bytes());
    payload8.extend_from_slice(&(-3i64).to_le_bytes());
    let b = read_array(&npy_bytes_1d("<i8", 2, &payload8)).unwrap();
    assert_eq!(elements_of(b.data), vec![Elem::I64(i64::MIN), Elem::I64(-3)]);
}

#[test]
fn decodes_unsigned_ints() {
    let a = read_array(&npy_bytes_1d("<u1", 2, &[0xff, 0x01])).unwrap();
    assert_eq!(elements_of(a.data), vec![Elem::U8(255), Elem::U8(1)]);

    let mut payload = Vec::new();
    payload.extend_from_slice(&0xdead_beef_u32.to_le_bytes());
    let b = read_array(&npy_bytes_1d("<u4", 1, &payload)).unwrap();
    assert_eq!(elements_of(b.data), vec![Elem::U32(0xdead_beef)]);

    let mut payload8 = Vec::new();
    payload8.extend_from_slice(&u64::MAX.to_le_bytes());
    let c = read_array(&npy_bytes_1d("<u8", 1, &payload8)).unwrap();
    assert_eq!(elements_of(c.data), vec![Elem::U64(u64::MAX)]);
}

#[test]
fn decodes_float_bit_patterns() {
    let mut payload = Vec::new();
    payload.extend_from_slice(&1.5f32.to_le_bytes());
    let a = read_array(&npy_bytes_1d("<f4", 1, &payload)).unwrap();
    assert_eq!(elements_of(a.data), vec![Elem::F32Bits(1.5f32.to_bits())]);

    let mut payload8 = Vec::new();
    payload8.extend_from_slice(&(-0.25f64).to_le_bytes());
    let b = read_array(&npy_bytes_1d("<f8", 1, &payload8)).unwrap();
    assert_eq!(elements_of(b.data), vec![Elem::F64Bits((-0.25f64).to_bits())]);
}

#[test]
fn decodes_bools() {
    let a = read_array(&npy_bytes_1d("<b1", 3, &[0, 1, 2])).unwrap();
    assert_eq!(
        elements_of(a.data),
        vec![Elem::Bool(false), Elem::Bool(true), Elem::Bool(true)]
    );
}
