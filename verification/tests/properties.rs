//! Behavior the library promises: determinism of scanning, spelling
//! equivalence, identifier rules, exact parses, diagnostic spans, batch
//! independence, and expected-set formatting.

use prop::ast::{Binding, Expr, Prop, Typ};
use prop::codespan::{codespan, join_expected};
use prop::error::Error;
use prop::parser::parse;
use prop::token_wrap::{tokenize, LexicalError, Token};

#[test]
fn rescan_is_deterministic() {
    let sources = [
        "id: A → A ≔ ⲗ a. a",
        r"\A := ⊤",
        "broken ≔ ₐₑ ⊤ # and a comment",
        "",
    ];
    for s in sources.iter() {
        let first = tokenize(s);
        let second = tokenize(s);
        assert_eq!(first, second);
    }
}

#[test]
fn spelling_equivalence() {
    let pairs = [
        ("id := A \\to A", "id := A → A"),
        ("f \\iff g", "f ↔ g"),
        ("x ≔ \\neg \\top", "x := ¬ ⊤"),
        ("x ≔ \\lam a. a", "x ≔ ⲗ a. a"),
        ("x ≔ A \\and B", "x ≔ A ∧ B"),
        ("x ≔ A \\or \\bot_name", "x ≔ A ∨ \\bot_name"),
    ];
    for (ascii, unicode) in pairs.iter() {
        let a = parse(ascii);
        let u = parse(unicode);
        match (a, u) {
            (Ok(left), Ok(right)) => assert_eq!(left, right),
            (Err(_), Err(_)) => (),
            _ => panic!("spellings {:?} and {:?} disagree", ascii, unicode),
        }
    }
}

#[test]
fn subscript_cannot_start_identifier() {
    // the identifier candidate must not lex as one name starting there
    assert!(parse("ₐₑₒₓ ≔ ⊤").is_err());
    let items = tokenize("ₐₑₒₓ ≔ ⊤");
    assert!(matches!(items[0], Err(LexicalError { .. })));
    // a subscript may continue a name, though
    assert!(parse("xₐₑₒₓ ≔ ⊤").is_ok());
}

#[test]
fn backslash_rules() {
    // `\A` is a valid identifier
    let bindings = parse(r"\A := ⊤").expect("escape name must parse");
    assert_eq!(
        bindings[0],
        Binding::Bind(
            String::from(r"\A"),
            Box::new(Expr::Prop(Box::new(Prop::True))),
            None
        )
    );
    // `\\A` is not
    assert!(parse(r"\\A ≔ ⊤").is_err());
    // `\to` lexes only as the arrow token
    let items = tokenize(r"\to");
    assert_eq!(items.len(), 1);
    assert_eq!(items[0], Ok((0, Token::Arrow, 3)));
    assert!(parse(r"\to ≔ ⊤").is_err());
}

#[test]
fn round_trip_on_success() {
    let bindings = parse("id: A → A ≔ ⲗ a. a").expect("must parse");
    let expected = vec![Binding::Bind(
        String::from("id"),
        Box::new(Expr::Lambda(
            Box::new(Binding::Var(String::from("a"), None)),
            Box::new(Expr::Prop(Box::new(Prop::Var(String::from("a"))))),
            None,
        )),
        Some(Typ::Typ(Prop::Imp(
            Box::new(Prop::Var(String::from("A"))),
            Box::new(Prop::Var(String::from("A"))),
        ))),
    )];
    assert_eq!(bindings, expected);
}

#[test]
fn diagnostic_span_correctness() {
    let source = "trivial := .";
    let err = parse(source).expect_err("must fail");
    let diag = codespan("foo", source, &err);
    let label = &diag.labels[0];
    assert!(source.is_char_boundary(label.start));
    assert!(source.is_char_boundary(label.end));
    // the offending dot sits at bytes 11..12
    assert_eq!((label.start, label.end), (11, 12));
    assert_eq!(diag.message, "Unrecognized token");

    // several Unicode characters into the line, the span still falls on
    // character boundaries
    let source2 = "α ≔ ⊤ ∧ .";
    let err2 = parse(source2).expect_err("must fail");
    let diag2 = codespan("foo", source2, &err2);
    let label2 = &diag2.labels[0];
    assert!(source2.is_char_boundary(label2.start));
    assert!(source2.is_char_boundary(label2.end));
}

#[test]
fn diagnostic_snaps_raw_ranges() {
    // a raw byte range that splits the two-byte α is snapped forward to
    // the next character boundary rather than handed out as-is
    let data = "αβ";
    let err = Error::User {
        error: LexicalError { start: 1, end: 3 },
    };
    let diag = codespan("foo", data, &err);
    let label = &diag.labels[0];
    assert_eq!((label.start, label.end), (2, 4));
    assert!(data.is_char_boundary(label.start));
    assert!(data.is_char_boundary(label.end));

    // a range already past the end of the text comes back unchanged
    let err2 = Error::InvalidToken { location: 99 };
    let diag2 = codespan("foo", data, &err2);
    assert_eq!((diag2.labels[0].start, diag2.labels[0].end), (99, 99));
}

#[test]
fn batch_independence() {
    let units = ["A ≔ ⊤", "A := .", "A ≔ ⊤"];
    let outcomes: Vec<bool> = units.iter().map(|u| parse(u).is_ok()).collect();
    assert_eq!(outcomes, vec![true, false, true]);
    // exactly one failure, and it does not disturb its neighbours
    let failures = outcomes.iter().filter(|ok| !**ok).count();
    assert_eq!(failures, 1);
}

#[test]
fn expected_set_formatting() {
    let three = vec![
        String::from("A"),
        String::from("B"),
        String::from("C"),
    ];
    assert_eq!(join_expected(&three), "Expected: A, B or C");

    let two = vec![String::from("A"), String::from("B")];
    assert_eq!(join_expected(&two), "Expected: A or B");

    let one = vec![String::from("A")];
    assert_eq!(join_expected(&one), "Expected: A");

    let none: Vec<String> = Vec::new();
    assert_eq!(join_expected(&none), "Didn't know what to expect?");
}

#[test]
fn unexpected_eof_reports_expectations() {
    let err = parse("id :=").expect_err("must fail");
    match &err {
        Error::UnrecognizedEOF { location, expected } => {
            assert_eq!(*location, 5);
            assert!(!expected.is_empty());
        }
        other => panic!("wrong failure shape: {:?}", other),
    }
    let diag = codespan("foo", "id :=", &err);
    assert_eq!(diag.message, "Unexpected EOF");
    assert!(diag.labels[0].message.starts_with("Expected: "));
}

#[test]
fn lexical_error_has_exact_range() {
    let source = "ok ≔ ⊤; ₐ ≔ ⊤";
    let err = parse(source).expect_err("must fail");
    match err {
        Error::User { error } => {
            // the subscript run starts right after "ok ≔ ⊤; "
            assert_eq!(error.start, 12);
            assert!(error.end > error.start);
            assert!(source.is_char_boundary(error.start));
        }
        other => panic!("wrong failure shape: {:?}", other),
    }
}

#[test]
fn comments_and_whitespace_are_trivia() {
    let with = "# heading\nA ≔ ⊤ # trailing\n";
    let without = "A ≔ ⊤";
    assert_eq!(parse(with).unwrap(), parse(without).unwrap());
    // an unterminated comment runs to the end of input
    assert_eq!(parse("A ≔ ⊤ # no newline").unwrap(), parse(without).unwrap());
}

#[test]
fn token_text_gives_canonical_spelling() {
    assert_eq!(Token::Arrow.text(), "→");
    assert_eq!(Token::Def.text(), "≔");
    assert_eq!(Token::Abs.text(), "ⲗ");
    assert_eq!(Token::Name("fooₐ").text(), "fooₐ");
    // both spellings of a fixed token collapse to the same tag
    let a = tokenize(r"\to");
    let u = tokenize("→");
    match (&a[0], &u[0]) {
        (Ok((_, ta, _)), Ok((_, tu, _))) => assert_eq!(ta, tu),
        _ => panic!("fixed tokens must lex"),
    }
}

#[test]
fn ast_rendering() {
    let bindings = parse("demorgan ≔ ¬(A ∧ B) ↔ (¬A) ∨ (¬B)").expect("must parse");
    assert_eq!(
        bindings[0].to_text(),
        "Bind(demorgan : None ≔ Prop(Iff(Neg(And(Var(A) ∧ Var(B))) ↔ Or(Neg(Var(A)) ∨ Neg(Var(B))))))"
    );
    let lambda = parse("id ≔ ⲗ a. a").expect("must parse");
    assert_eq!(
        lambda[0].to_text(),
        "Bind(id : None ≔ Lambda((ⲗ Var(a, None). Prop(Var(a))) : None))"
    );
    assert_eq!(Typ::Typ(Prop::True).to_text(), "Typ(⊤)");
}

#[test]
fn extra_token_diagnostic() {
    let data = "A ≔ ⊤";
    let err = Error::ExtraToken {
        token: (6, Token::Top, 9),
    };
    let diag = codespan("foo", data, &err);
    assert_eq!(diag.message, "Extra token");
    assert_eq!((diag.labels[0].start, diag.labels[0].end), (6, 9));
    assert_eq!(diag.labels[0].message, "");

    // raw offsets that split the multi-byte glyphs are snapped forward
    let err2 = Error::ExtraToken {
        token: (4, Token::Top, 7),
    };
    let diag2 = codespan("foo", data, &err2);
    assert_eq!((diag2.labels[0].start, diag2.labels[0].end), (5, 9));
    assert!(data.is_char_boundary(diag2.labels[0].start));
    assert!(data.is_char_boundary(diag2.labels[0].end));
}

#[test]
fn io_failure_wraps_into_main_error() {
    let io = std::io::Error::new(std::io::ErrorKind::NotFound, "gone");
    let m = prop::error::MainError::from(io);
    assert!(matches!(m, prop::error::MainError::IO(_)));
}
