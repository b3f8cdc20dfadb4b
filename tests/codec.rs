use sirius::{
    deserialize_field, deserialize_variant, deserialize_with_length_prefix,
    serialize_with_length_prefix, Sirius, SiriusError,
};

#[derive(Debug, PartialEq)]
enum Shape {
    Unit,
    Wrapper(u16),
    Named { x: u32 },
}

impl Shape {
    fn serialize(&self, output: &mut Vec<u8>) -> Result<usize, SiriusError> {
        match self {
            Shape::Unit => 0u8.serialize(output),
            Shape::Wrapper(v) => Ok(1u8.serialize(output)? + v.serialize(output)?),
            Shape::Named { x } => Ok(2u8.serialize(output)? + x.serialize(output)?),
        }
    }

    fn deserialize(data: &[u8]) -> Result<(Self, usize), SiriusError> {
        let (index, offset) = deserialize_variant(data, 3, "Shape")?;
        match index {
            0 => Ok((Shape::Unit, offset)),
            1 => {
                let (v, offset) = deserialize_field::<u16>(data, offset)?;
                Ok((Shape::Wrapper(v), offset))
            }
            _ => {
                let (x, offset) = deserialize_field::<u32>(data, offset)?;
                Ok((Shape::Named { x }, offset))
            }
        }
    }
}

#[test]
fn record_scenario() {
    let record: (u32, String, Vec<u32>) = (42, "Hi".to_string(), vec![1, 2]);
    let bytes = record.serialize_buffered();
    assert_eq!(
        bytes,
        vec![
            0x00, 0x00, 0x00, 0x2A, //
            0x00, 0x00, 0x00, 0x02, 0x48, 0x69, //
            0x00, 0x00, 0x00, 0x02, 0x00, 0x00, 0x00, 0x01, 0x00, 0x00, 0x00, 0x02,
        ]
    );
    let (decoded, read) = <(u32, String, Vec<u32>)>::deserialize(&bytes).unwrap();
    assert_eq!(decoded, record);
    // Every byte listed above is consumed: 4 + 6 + 12 of them.
    assert_eq!(read, bytes.len());
    assert_eq!(read, 22);
}

#[test]
fn tagged_union_scenario() {
    let mut out = Vec::new();
    assert_eq!(Shape::Wrapper(7).serialize(&mut out).unwrap(), 3);
    assert_eq!(out, vec![0x01, 0x00, 0x07]);

    let mut out = Vec::new();
    assert_eq!(Shape::Unit.serialize(&mut out).unwrap(), 1);
    assert_eq!(out, vec![0x00]);

    let bytes = [0x02, 0x00, 0x00, 0x01, 0x00];
    assert_eq!(
        Shape::deserialize(&bytes).unwrap(),
        (Shape::Named { x: 256 }, 5)
    );
}

#[test]
fn discriminant_without_variant_is_refused() {
    match Shape::deserialize(&[0x03, 0x00, 0x00]) {
        Err(SiriusError::ParsingError { ty_name, error }) => {
            assert_eq!(ty_name, "Shape");
            assert_eq!(error, "invalid variant index: 3");
        }
        other => panic!("unexpected result: {:?}", other),
    }
    match deserialize_variant(&[255], 256, "Wide") {
        Ok((index, read)) => {
            assert_eq!(index, 255);
            assert_eq!(read, 1);
        }
        other => panic!("unexpected result: {:?}", other),
    }
    assert!(matches!(
        deserialize_variant(&[], 3, "Shape"),
        Err(SiriusError::NotEnoughData)
    ));
}

#[test]
fn option_is_a_tagged_union() {
    assert_eq!(None::<u16>.serialize_buffered(), vec![0]);
    assert_eq!(Some(7u16).serialize_buffered(), vec![1, 0, 7]);
    assert_eq!(Option::<u16>::deserialize(&[1, 0, 7, 9]).unwrap(), (Some(7), 3));
    assert_eq!(Option::<u16>::deserialize(&[0, 5]).unwrap(), (None, 1));
    match Option::<u16>::deserialize(&[2, 0, 7]) {
        Err(SiriusError::ParsingError { ty_name, error }) => {
            assert_eq!(ty_name, "Option");
            assert_eq!(error, "invalid variant index: 2");
        }
        other => panic!("unexpected result: {:?}", other),
    }
    assert!(matches!(
        Option::<u16>::deserialize(&[1, 0]),
        Err(SiriusError::NotEnoughData)
    ));
}

#[test]
fn char_codec_uses_four_byte_code_points() {
    assert_eq!('A'.serialize_buffered(), vec![0x00, 0x00, 0x00, 0x41]);
    assert_eq!('💯'.serialize_buffered(), vec![0x00, 0x01, 0xF4, 0xAF]);
    assert_eq!(char::deserialize(&[0x00, 0x00, 0x00, 0x41, 0x42]).unwrap(), ('A', 4));
    match char::deserialize(&[0x00, 0x00, 0xD8, 0x00]) {
        Err(SiriusError::ParsingError { ty_name, error }) => {
            assert_eq!(ty_name, "char");
            assert_eq!(error, "invalid character: D800");
        }
        other => panic!("unexpected result: {:?}", other),
    }
    match char::deserialize(&0x110000_u32.to_be_bytes()) {
        Err(SiriusError::ParsingError { error, .. }) => {
            assert_eq!(error, "invalid character: 110000")
        }
        other => panic!("unexpected result: {:?}", other),
    }
    assert!(matches!(
        char::deserialize(&[0x00, 0x00, 0x41]),
        Err(SiriusError::NotEnoughData)
    ));
}

#[test]
fn every_strict_prefix_is_missing_data() {
    let record: (u32, String, Vec<char>) = (7, "héllo".to_string(), vec!['a', 'ß']);
    let bytes = record.serialize_buffered();
    for k in 0..bytes.len() {
        assert!(
            matches!(
                <(u32, String, Vec<char>)>::deserialize(&bytes[..k]),
                Err(SiriusError::NotEnoughData)
            ),
            "prefix of {} bytes",
            k
        );
    }
    let (decoded, read) = <(u32, String, Vec<char>)>::deserialize(&bytes).unwrap();
    assert_eq!(decoded, record);
    assert_eq!(read, bytes.len());
}

#[test]
fn string_payload_must_be_utf8() {
    match String::deserialize(&[0, 0, 0, 2, 0xC3, 0x28]) {
        Err(SiriusError::ParsingError { ty_name, .. }) => assert_eq!(ty_name, "string"),
        other => panic!("unexpected result: {:?}", other),
    }
    // The payload is checked only once it is all there.
    assert!(matches!(
        String::deserialize(&[0, 0, 0, 3, 0xC3, 0x28]),
        Err(SiriusError::NotEnoughData)
    ));
    assert!(matches!(
        String::deserialize(&[0, 0, 0]),
        Err(SiriusError::NotEnoughData)
    ));
    assert_eq!(
        String::deserialize(&[0, 0, 0, 2, 0xC3, 0xA9, 0xFF]).unwrap(),
        ("é".to_string(), 6)
    );
    assert_eq!("é".to_string().serialize_buffered(), vec![0, 0, 0, 2, 0xC3, 0xA9]);
}

#[test]
fn empty_values() {
    assert_eq!(String::new().serialize_buffered(), vec![0, 0, 0, 0]);
    assert_eq!(Vec::<u64>::new().serialize_buffered(), vec![0, 0, 0, 0]);
    assert_eq!(
        Vec::<u64>::deserialize(&[0, 0, 0, 0]).unwrap(),
        (Vec::new(), 4)
    );
    let none: [u16; 0] = [];
    assert_eq!(none.serialize_buffered(), Vec::<u8>::new());
    assert_eq!(<[u16; 0]>::deserialize(&[]).unwrap(), ([], 0));
}

#[test]
fn integers_are_big_endian() {
    assert_eq!(0x0102_0304u32.serialize_buffered(), vec![1, 2, 3, 4]);
    assert_eq!((-1i32).serialize_buffered(), vec![0xFF; 4]);
    assert_eq!((-2i16).serialize_buffered(), vec![0xFF, 0xFE]);
    assert_eq!(i8::MIN.serialize_buffered(), vec![0x80]);
    assert_eq!(i64::deserialize(&[0xFF; 8]).unwrap(), (-1, 8));
    assert_eq!(
        u128::MAX.serialize_buffered(),
        vec![0xFF; 16]
    );
    assert_eq!(
        u64::deserialize(&[0, 0, 0, 0, 0, 0, 1, 0, 9]).unwrap(),
        (256, 8)
    );
    assert_eq!(
        i128::deserialize(&i128::MIN.to_be_bytes()).unwrap(),
        (i128::MIN, 16)
    );
    assert!(matches!(
        u16::deserialize(&[1]),
        Err(SiriusError::NotEnoughData)
    ));
    assert_eq!(300usize.serialize_buffered(), vec![0, 0, 0, 0, 0, 0, 1, 44]);
    assert_eq!((-2isize).serialize_buffered(), vec![0xFF, 0xFF, 0xFF, 0xFF, 0xFF, 0xFF, 0xFF, 0xFE]);
    assert_eq!(isize::deserialize(&[0xFF; 8]).unwrap(), (-1, 8));
    let mut out = vec![9];
    assert_eq!(0xABCDu16.serialize(&mut out).unwrap(), 2);
    assert_eq!(out, vec![9, 0xAB, 0xCD]);
}

#[test]
fn vector_count_is_not_trusted_for_allocation() {
    assert!(matches!(
        Vec::<u32>::deserialize(&[0xFF, 0xFF, 0xFF, 0xFE, 0, 0, 0, 1]),
        Err(SiriusError::NotEnoughData)
    ));
    assert!(matches!(
        Vec::<u32>::deserialize(&[0, 0, 0, 2, 0, 0, 0, 1, 0, 0]),
        Err(SiriusError::NotEnoughData)
    ));
}

#[test]
fn boxes_add_no_framing() {
    assert_eq!(Box::new(5u32).serialize_buffered(), vec![0, 0, 0, 5]);
    let (b, n) = Box::<u32>::deserialize(&[0, 0, 0, 5]).unwrap();
    assert_eq!((*b, n), (5, 4));
}

#[test]
fn length_prefixed_bytes() {
    let mut out = vec![0xAA];
    assert_eq!(serialize_with_length_prefix(&[1, 2, 3], &mut out).unwrap(), 7);
    assert_eq!(out, vec![0xAA, 0, 0, 0, 3, 1, 2, 3]);

    let (payload, read) =
        deserialize_with_length_prefix(&[0, 0, 0, 2, 7, 8, 9], |bytes, total| {
            (bytes.to_vec(), total)
        })
        .unwrap();
    assert_eq!(payload, (vec![7, 8], 6));
    assert_eq!(read, 6);

    assert!(matches!(
        deserialize_with_length_prefix(&[0, 0, 0, 2, 7], |bytes, _| bytes.len()),
        Err(SiriusError::NotEnoughData)
    ));
    assert!(matches!(
        deserialize_with_length_prefix(&[0, 0], |bytes, _| bytes.len()),
        Err(SiriusError::NotEnoughData)
    ));
}

#[test]
fn fields_are_read_at_an_offset() {
    let data = [9, 0, 0, 0, 4, 1];
    let (v, end) = deserialize_field::<u32>(&data, 1).unwrap();
    assert_eq!((v, end), (4, 5));
    let (w, end) = deserialize_field::<u8>(&data, end).unwrap();
    assert_eq!((w, end), (1, 6));
    assert!(matches!(
        deserialize_field::<u8>(&data, 6),
        Err(SiriusError::NotEnoughData)
    ));
    assert!(matches!(
        deserialize_field::<u8>(&data, 7),
        Err(SiriusError::NotEnoughData)
    ));
}

#[test]
fn arrays_have_no_prefix() {
    let data: [u16; 3] = [1, 2, 0x0304];
    assert_eq!(data.serialize_buffered(), vec![0, 1, 0, 2, 3, 4]);
    assert_eq!(
        <[u16; 3]>::deserialize(&[0, 1, 0, 2, 3, 4, 5]).unwrap(),
        ([1, 2, 0x0304], 6)
    );
    assert!(matches!(
        <[u16; 3]>::deserialize(&[0, 1, 0, 2, 3]),
        Err(SiriusError::NotEnoughData)
    ));
}

#[test]
fn pairs_and_nested_sequences() {
    let value: (Vec<String>, i8) = (vec!["a".to_string(), String::new()], -3);
    let bytes = value.serialize_buffered();
    assert_eq!(
        bytes,
        vec![0, 0, 0, 2, 0, 0, 0, 1, b'a', 0, 0, 0, 0, 0xFD]
    );
    assert_eq!(<(Vec<String>, i8)>::deserialize(&bytes).unwrap(), (value, 14));
}
