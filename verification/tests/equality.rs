use leo_ast::{FunctionInputVariable, Identifier, Span, Type};

fn sample() -> FunctionInputVariable {
    FunctionInputVariable {
        identifier: Identifier { name: "x".to_string(), span: Span { lo: 4, hi: 5, file: 1 } },
        const_: true,
        public: false,
        mutable: true,
        type_: Type { text: "u32".to_string() },
        span: Span { lo: 0, hi: 9, file: 1 },
    }
}

#[test]
fn equality_is_reflexive() {
    let a = sample();
    assert!(a == a);
}

#[test]
fn equality_is_symmetric() {
    let a = sample();
    let b = sample();
    assert!(a == b);
    assert!(b == a);
}

#[test]
fn equality_is_transitive() {
    let a = sample();
    let b = sample();
    let c = sample();
    assert!(a == b);
    assert!(b == c);
    assert!(a == c);
}

#[test]
fn changing_only_the_span_makes_nodes_unequal() {
    let a = sample();
    let mut b = sample();
    b.span = Span { lo: 0, hi: 9, file: 2 };
    assert!(a != b);
}

#[test]
fn equality_is_sensitive_to_every_field() {
    let a = sample();

    let mut b = sample();
    b.identifier.name = "y".to_string();
    assert!(a != b);

    let mut b = sample();
    b.identifier.span = Span { lo: 5, hi: 6, file: 1 };
    assert!(a != b);

    let mut b = sample();
    b.const_ = false;
    assert!(a != b);

    let mut b = sample();
    b.public = true;
    assert!(a != b);

    let mut b = sample();
    b.mutable = false;
    assert!(a != b);

    let mut b = sample();
    b.type_ = Type { text: "u64".to_string() };
    assert!(a != b);

    let mut b = sample();
    b.span = Span { lo: 1, hi: 9, file: 1 };
    assert!(a != b);
}

#[test]
fn identifier_and_type_equality_are_structural() {
    let sp = Span { lo: 0, hi: 1, file: 0 };
    assert!(Identifier { name: "n".to_string(), span: sp } == Identifier {
        name: "n".to_string(),
        span: sp
    });
    assert!(Identifier { name: "n".to_string(), span: sp } != Identifier {
        name: "m".to_string(),
        span: sp
    });
    assert!(Type { text: "u8".to_string() } == Type { text: "u8".to_string() });
    assert!(Type { text: "u8".to_string() } != Type { text: "i8".to_string() });
}
