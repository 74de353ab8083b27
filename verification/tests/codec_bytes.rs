use leo_ast::codec::DecodeError;
use leo_ast::{FunctionInputVariable, Identifier, Span, Type};

fn node(name: &str, public: bool, const_: bool, mutable: bool, ty: &str) -> FunctionInputVariable {
    FunctionInputVariable {
        identifier: Identifier {
            name: name.to_string(),
            span: Span { lo: 13, hi: 13 + name.len() as u32, file: 2 },
        },
        const_,
        public,
        mutable,
        type_: Type { text: ty.to_string() },
        span: Span { lo: 6, hi: 30, file: 2 },
    }
}

#[test]
fn round_trip_preserves_every_field() {
    let n = node("result", true, false, true, "bool");
    let bytes = n.encode();
    let back = FunctionInputVariable::decode(&bytes).unwrap();
    assert!(back == n);
}

#[test]
fn round_trip_of_unicode_name() {
    let n = node("αβ\u{1F389}", false, true, false, "field");
    let back = FunctionInputVariable::decode(&n.encode()).unwrap();
    assert!(back == n);
    assert_eq!(back.identifier.name, "αβ\u{1F389}");
}

#[test]
fn round_trip_of_empty_strings_and_extreme_spans() {
    let n = FunctionInputVariable {
        identifier: Identifier {
            name: String::new(),
            span: Span { lo: u32::MAX, hi: u32::MAX, file: u32::MAX },
        },
        const_: true,
        public: true,
        mutable: true,
        type_: Type { text: String::new() },
        span: Span { lo: 0, hi: 0, file: 0 },
    };
    let back = FunctionInputVariable::decode(&n.encode()).unwrap();
    assert!(back == n);
}

#[test]
fn encoding_is_deterministic() {
    let a = node("x", true, true, false, "u32");
    let b = node("x", true, true, false, "u32");
    assert_eq!(a.encode(), b.encode());
}

#[test]
fn decode_rejects_truncated_input() {
    let n = node("a", false, false, false, "u8");
    let mut bytes = n.encode();
    bytes.truncate(10);
    assert_eq!(FunctionInputVariable::decode(&bytes), Err(DecodeError::Truncated));
    assert_eq!(FunctionInputVariable::decode(&Vec::new()), Err(DecodeError::Truncated));
}

#[test]
fn decode_rejects_a_surrogate_character_word() {
    let n = node("a", false, false, false, "u8");
    let mut bytes = n.encode();
    // The word for the one name character sits at bytes 8..16; 0xD800 is
    // a surrogate, so it is the scalar value of no character.
    bytes[8] = 0x00;
    bytes[9] = 0xD8;
    assert_eq!(FunctionInputVariable::decode(&bytes), Err(DecodeError::InvalidChar));
}

#[test]
fn decode_rejects_a_bad_flag_byte() {
    let n = node("a", false, false, false, "u8");
    let mut bytes = n.encode();
    // The first flag byte follows the name (16 bytes) and its span (24).
    bytes[40] = 2;
    assert_eq!(FunctionInputVariable::decode(&bytes), Err(DecodeError::InvalidFlag));
}

#[test]
fn decode_rejects_a_span_word_beyond_32_bits() {
    let n = node("a", false, false, false, "u8");
    let mut bytes = n.encode();
    // The final span's first word sits at bytes 67..75; setting its fifth
    // byte lifts the value above the 32-bit field range.
    bytes[71] = 1;
    assert_eq!(FunctionInputVariable::decode(&bytes), Err(DecodeError::OutOfRange));
}

#[test]
fn decode_rejects_trailing_bytes() {
    let n = node("a", false, false, false, "u8");
    let mut bytes = n.encode();
    bytes.push(0);
    assert_eq!(FunctionInputVariable::decode(&bytes), Err(DecodeError::TrailingBytes));
}
