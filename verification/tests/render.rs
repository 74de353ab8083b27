use leo_ast::{FunctionInputVariable, Identifier, Span, Type};

fn node(name: &str, public: bool, const_: bool, mutable: bool, ty: &str) -> FunctionInputVariable {
    let span = Span { lo: 2, hi: 20, file: 7 };
    FunctionInputVariable {
        identifier: Identifier {
            name: name.to_string(),
            span: Span { lo: 2, hi: 2 + name.len() as u32, file: 7 },
        },
        const_,
        public,
        mutable,
        type_: Type { text: ty.to_string() },
        span,
    }
}

#[test]
fn renders_private_plain() {
    assert_eq!(node("b", false, false, false, "field").render(), "private b: field");
}

#[test]
fn renders_private_mut() {
    assert_eq!(node("b", false, false, true, "field").render(), "private mut b: field");
}

#[test]
fn renders_private_const() {
    assert_eq!(node("b", false, true, false, "field").render(), "private const b: field");
}

#[test]
fn renders_private_const_mut() {
    assert_eq!(node("b", false, true, true, "field").render(), "private const mut b: field");
}

#[test]
fn renders_public_plain() {
    assert_eq!(node("a", true, false, false, "u8").render(), "public a: u8");
}

#[test]
fn renders_public_mut() {
    assert_eq!(node("a", true, false, true, "u8").render(), "public mut a: u8");
}

#[test]
fn renders_public_const() {
    assert_eq!(node("a", true, true, false, "u8").render(), "public const a: u8");
}

#[test]
fn renders_public_const_mut() {
    assert_eq!(node("a", true, true, true, "u8").render(), "public const mut a: u8");
}

#[test]
fn renders_public_mut_result_bool() {
    assert_eq!(node("result", true, false, true, "bool").render(), "public mut result: bool");
}

#[test]
fn rendering_is_deterministic_and_leaves_node_unchanged() {
    let n = node("result", true, false, true, "bool");
    let before = n.clone();
    let first = n.render();
    let second = n.render();
    assert_eq!(first, second);
    assert!(n == before);
}

#[test]
fn construction_keeps_the_six_fields_exactly() {
    let n = FunctionInputVariable::new(
        Identifier::new("n".to_string(), Span::new(1, 2, 0)),
        true,
        false,
        true,
        Type::new("i128".to_string()),
        Span::new(0, 8, 0),
    );
    assert_eq!(n.identifier.name, "n");
    assert_eq!(n.identifier.span, Span { lo: 1, hi: 2, file: 0 });
    assert!(n.const_);
    assert!(!n.public);
    assert!(n.mutable);
    assert_eq!(n.type_.text, "i128");
    assert_eq!(n.span, Span { lo: 0, hi: 8, file: 0 });
    assert_eq!(n.render(), "private const mut n: i128");
}

#[test]
fn renders_identifier_and_type_texts() {
    assert_eq!(
        Identifier { name: "zeta".to_string(), span: Span { lo: 0, hi: 4, file: 0 } }.render(),
        "zeta"
    );
    assert_eq!(Type { text: "group".to_string() }.render(), "group");
}
