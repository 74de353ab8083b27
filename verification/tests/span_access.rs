use leo_ast::{FunctionInputVariable, Identifier, Node, Span, Type};

fn sample() -> FunctionInputVariable {
    FunctionInputVariable {
        identifier: Identifier { name: "arg".to_string(), span: Span { lo: 8, hi: 11, file: 3 } },
        const_: false,
        public: true,
        mutable: false,
        type_: Type { text: "address".to_string() },
        span: Span { lo: 0, hi: 20, file: 3 },
    }
}

#[test]
fn span_reads_the_current_span() {
    let n = sample();
    assert_eq!(*n.span(), Span { lo: 0, hi: 20, file: 3 });
}

#[test]
fn set_span_overwrites_regardless_of_prior_value() {
    let mut n = sample();
    n.set_span(Span { lo: 100, hi: 200, file: 9 });
    assert_eq!(*n.span(), Span { lo: 100, hi: 200, file: 9 });
    n.set_span(Span { lo: 1, hi: 2, file: 0 });
    assert_eq!(*n.span(), Span { lo: 1, hi: 2, file: 0 });
}

#[test]
fn set_span_changes_no_other_field() {
    let mut n = sample();
    n.set_span(Span { lo: 50, hi: 60, file: 4 });
    let mut expected = sample();
    expected.span = Span { lo: 50, hi: 60, file: 4 };
    assert!(n == expected);
    assert_eq!(n.identifier.name, "arg");
    assert_eq!(n.identifier.span, Span { lo: 8, hi: 11, file: 3 });
    assert!(!n.const_);
    assert!(n.public);
    assert!(!n.mutable);
    assert_eq!(n.type_.text, "address");
}
