use sirius::{deserialize_field, deserialize_variant, Sirius, SiriusError};

#[test]
fn test_struct_sirius() {
    // A record of three fields, in declaration order: a: u32, b: String, c: Vec<char>.
    let original: (u32, String, Vec<char>) = (
        42,
        "Hello, world!".to_string(),
        vec!['H', 'e', 'l', 'l', 'o'],
    );

    let serialized = original.serialize_buffered();
    assert_eq!(
        serialized,
        vec![
            0, 0, 0, 42, // a
            0, 0, 0, 13, // length of b
            72, 101, 108, 108, 111, 44, 32, 119, 111, 114, 108, 100, 33, // "Hello, world!"
            0, 0, 0, 5, // length of c
            0, 0, 0, 72, // 'H'
            0, 0, 0, 101, // 'e'
            0, 0, 0, 108, // 'l'
            0, 0, 0, 108, // 'l'
            0, 0, 0, 111 // 'o'
        ]
    );

    let (deserialized, bytes_read) =
        <(u32, String, Vec<char>) as Sirius>::deserialize(&serialized).unwrap();

    assert_eq!(deserialized, original);
    assert_eq!(bytes_read, serialized.len());
}

#[derive(Debug, PartialEq)]
enum TestEnum {
    VariantA { x: u32, y: String },
    VariantB(u16),
    VariantC,
}

impl TestEnum {
    fn serialize(&self, output: &mut Vec<u8>) -> Result<usize, SiriusError> {
        let mut bytes_written = 0;
        match self {
            TestEnum::VariantA { x, y } => {
                bytes_written += 0u8.serialize(output)?;
                bytes_written += x.serialize(output)?;
                bytes_written += y.serialize(output)?;
            }
            TestEnum::VariantB(v) => {
                bytes_written += 1u8.serialize(output)?;
                bytes_written += v.serialize(output)?;
            }
            TestEnum::VariantC => {
                bytes_written += 2u8.serialize(output)?;
            }
        }
        Ok(bytes_written)
    }

    fn deserialize(data: &[u8]) -> Result<(Self, usize), SiriusError> {
        let (index, offset) = deserialize_variant(data, 3, "TestEnum")?;
        match index {
            0 => {
                let (x, offset) = deserialize_field::<u32>(data, offset)?;
                let (y, offset) = deserialize_field::<String>(data, offset)?;
                Ok((TestEnum::VariantA { x, y }, offset))
            }
            1 => {
                let (v, offset) = deserialize_field::<u16>(data, offset)?;
                Ok((TestEnum::VariantB(v), offset))
            }
            _ => Ok((TestEnum::VariantC, offset)),
        }
    }
}

#[test]
fn test_enum_sirius() {
    let original_a = TestEnum::VariantA {
        x: 10,
        y: "Hello".to_string(),
    };
    let original_b = TestEnum::VariantB(42);
    let original_c = TestEnum::VariantC;

    let mut serialized = Vec::new();

    original_a.serialize(&mut serialized).unwrap();
    original_b.serialize(&mut serialized).unwrap();
    original_c.serialize(&mut serialized).unwrap();

    assert_eq!(
        serialized,
        vec![
            0, // VariantA
            0, 0, 0, 10, // x
            0, 0, 0, 5, // length of y
            72, 101, 108, 108, 111, // "Hello"
            1, // VariantB
            0, 42, // value of VariantB
            2, // VariantC (no data)
        ]
    );

    let mut offset = 0;
    let (deserialized_a, bytes_read_a) = TestEnum::deserialize(&serialized[offset..]).unwrap();
    offset += bytes_read_a;
    let (deserialized_b, bytes_read_b) = TestEnum::deserialize(&serialized[offset..]).unwrap();
    offset += bytes_read_b;
    let (deserialized_c, bytes_read_c) = TestEnum::deserialize(&serialized[offset..]).unwrap();

    assert_eq!(deserialized_a, original_a);
    assert_eq!(deserialized_b, original_b);
    assert_eq!(deserialized_c, original_c);
    assert_eq!(bytes_read_a + bytes_read_b + bytes_read_c, serialized.len());
}
