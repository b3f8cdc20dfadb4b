use sirius::{Sirius, SiriusError};

#[test]
fn test_char_sirius() {
    let original = '💯';
    let serialized = original.serialize_buffered();
    let (deserialized, bytes_read) = char::deserialize(&serialized).unwrap();

    assert_eq!(deserialized, original);
    assert_eq!(bytes_read, serialized.len());
}

#[test]
fn test_array_sirius() {
    let mut data: [u32; 100] = [69; 100];
    data.iter_mut().enumerate().for_each(|(idx, itm)| {
        *itm = idx as u32;
    });

    let v = data.serialize_buffered();
    let (n, bytes_read) = <[u32; 100] as Sirius>::deserialize(&v).unwrap();

    assert!(data.iter().zip(n.iter()).all(|(&a, &b)| a == b));
    assert_eq!(bytes_read, v.len());
}

#[test]
fn test_char_sirius_check() {
    let data = 0x110000_u32.to_be_bytes();
    assert!(matches!(
        char::deserialize(&data),
        Err(SiriusError::ParsingError {
            ty_name: "char",
            ..
        })
    ));
}

#[test]
fn test_string_sirius() {
    let original = "The quick brown fox jumps over the lazy dog.".to_string();
    let serialized = original.serialize_buffered();
    let (deserialized, bytes_read) = String::deserialize(&serialized).unwrap();

    assert_eq!(deserialized, original);
    assert_eq!(bytes_read, serialized.len());
}

#[test]
fn test_vec_sirius() {
    let original = "The quick brown fox jumps over the lazy dog."
        .chars()
        .collect::<Vec<_>>();
    let serialized = original.serialize_buffered();

    let (deserialized, bytes_read) = Vec::<char>::deserialize(&serialized).unwrap();

    assert_eq!(deserialized, original);
    assert_eq!(bytes_read, serialized.len());
}

#[test]
fn test_numeric_sirius() {
    let a: u8 = 69;
    let v = a.serialize_buffered();
    assert_eq!(u8::deserialize(&v).unwrap(), (a, v.len()));

    let b: u16 = 69;
    let v = b.serialize_buffered();
    assert_eq!(u16::deserialize(&v).unwrap(), (b, v.len()));

    let c: u32 = 69;
    let v = c.serialize_buffered();
    assert_eq!(u32::deserialize(&v).unwrap(), (c, v.len()));

    let d: u64 = 69;
    let v = d.serialize_buffered();
    assert_eq!(u64::deserialize(&v).unwrap(), (d, v.len()));

    let e: u128 = 69;
    let v = e.serialize_buffered();
    assert_eq!(u128::deserialize(&v).unwrap(), (e, v.len()));

    let f: i8 = 69;
    let v = f.serialize_buffered();
    assert_eq!(i8::deserialize(&v).unwrap(), (f, v.len()));

    let g: i16 = 69;
    let v = g.serialize_buffered();
    assert_eq!(i16::deserialize(&v).unwrap(), (g, v.len()));

    let h: i32 = 69;
    let v = h.serialize_buffered();
    assert_eq!(i32::deserialize(&v).unwrap(), (h, v.len()));

    let i: i64 = 69;
    let v = i.serialize_buffered();
    assert_eq!(i64::deserialize(&v).unwrap(), (i, v.len()));

    let j: i128 = 69;
    let v = j.serialize_buffered();
    assert_eq!(i128::deserialize(&v).unwrap(), (j, v.len()));

    let k: usize = 69;
    let v = k.serialize_buffered();
    assert_eq!(usize::deserialize(&v).unwrap(), (k, v.len()));

    let l: isize = 69;
    let v = l.serialize_buffered();
    assert_eq!(isize::deserialize(&v).unwrap(), (l, v.len()));
}
