//! Source units that must parse, and ones that must not.

use prop::codespan::codespan;
use prop::parser::parse;
use unindent::unindent;

fn expect_success(sources: &[&str]) {
    for s in sources.iter() {
        if let Err(e) = parse(s) {
            let d = codespan("foo", s, &e);
            panic!("unexpected failure on {:?}: {}", s, d.message);
        }
    }
}

fn expect_fail(sources: &[&str]) {
    let mut any_failed = false;
    for s in sources.iter() {
        match parse(s) {
            Ok(_) => (),
            Err(e) => {
                let d = codespan("foo", s, &e);
                println!("expected failure on {:?}: {}", s, d.message);
                any_failed = true;
            }
        }
    }
    assert!(any_failed, "did not get the failure that we expect");
}

#[test]
fn test_pretty_errors() {
    let source = [
        "trivial := .",
        &unindent(
            r#"
            x := x;
            y := y;
            lexical_error := .;
        "#,
        ),
    ];
    expect_fail(&source);
}

#[test]
fn test_stuff() {
    let source = [
        "trivial ≔ ⊤",
        "id: A → A ≔ ⲗ a. a",
        "demorgan1 ≔ ¬(A ∨ B) ↔ (¬A) ∧ (¬B)",
        "demorgan2 ≔ ¬(A ∧ B) ↔ (¬A) ∨ (¬B)",
        "const: A → B → A ≔ ⲗa. ⲗb. a",
        "flip: (A → B → C) → B → A → C ≔ ⲗf. ⲗb. ⲗa. f a b",
        &unindent(
            r##"
            # This is a comment
            A ≔ ⊤
        "##,
        ),
    ];
    expect_success(&source);
}

#[test]
fn test_unicode_vars() {
    let source = [
        r"𝓞 ≔ ⊤",
        r"α ≔ ⊤",
        r"𝕎 ≔ x",
        r"ℕ ≔ x",
        r"ℤ ≔ x",
        r"LotsOfSubscriptsₐₑₒₓₔₕₖₗₘₙₚₛₜ₀₁₂₃₄₅₆₇₈₉ ≔ x",
        r"ℤ ≔ x",
        r"Foo: ⊤ ≔ x",
        r"λ ≔ A ∨ ¬A",
    ];
    expect_success(&source);
}

#[test]
fn test_fixme() {
    let source = [
        "", // placeholder,
        r#"id ≔ (ⲗx. x) (ⲗx. x)"#,
        "modus_ponens: (A → B) → A → B ≔ ⲗf. ⲗa. f a",
        "foo ≔ ¬((A ∨ B) ↔ (A ∧ B))",
    ];
    expect_success(&source);
}

#[test]
fn test_bad_unicode() {
    let invalid_source = [
        r"ₐₑₒₓₔₕₖₗₘₙₚₛₜ₀₁₂₃₄₅₆₇₈₉ ≔ ⊤", // Subscript cannot be initial character
        r"\α ≔ ⊤", // Unicode cannot start with slash.
        r"SomeInvalidSyntaxEndingInUnicodeₐ fooₐ ≔ ⊤",
        r"ℤSomeInvalidSyntaxₐ ℤfooₐ ≔ ⊤",
    ];
    expect_fail(&invalid_source);
}

#[test]
fn test_good_ascii() {
    let source = [
        r"id := A \to A",
        r"A := \top",
        &unindent(
            r#"
            A := \top;
            B := \top
        "#,
        ),
        r"\A := ⊤",
    ];
    expect_success(&source);
}

#[test]
fn test_bad_ascii() {
    let invalid_source = [
        r"\\A ≔ ⊤",     // Slash can only be the initial character
        r"\to ≔ ⊤",     // \to is reserved for lambda
        r"x ≔ y ≔ ⊤", // y := t is not an expression.
    ];

    let mut num_fail = 0;
    for s in invalid_source.iter() {
        match parse(s) {
            Ok(v) => {
                println!("parsed but shouldn't: {}", s);
                let _ = v;
                num_fail += 1;
            }
            Err(e) => {
                println!("expected error: {:?}", e);
            }
        }
    }
    assert!(num_fail == 0, "received valid parse from supposedly invalid source");
}

#[test]
fn tests_pretty_errors() {
    let source = [
        "trivial := .",
        &unindent(
            r#"
            x := x;
            y := y;
            lexical_error := .;
        "#,
        ),
    ];
    expect_fail(&source);
}

#[test]
fn tests_stuff() {
    let source = [
        "trivial ≔ ⊤",
        "id: A → A ≔ ⲗ a. a",
        "demorgan1 ≔ ¬(A ∨ B) ↔ (¬A) ∧ (¬B)",
        "demorgan2 ≔ ¬(A ∧ B) ↔ (¬A) ∨ (¬B)",
        "const: A → B → A ≔ ⲗa. ⲗb. a",
        "flip: (A → B → C) → B → A → C ≔ ⲗf. ⲗb. ⲗa. f a b",
        &unindent(
            r##"
            # This is a comment
            A ≔ ⊤
        "##,
        ),
    ];
    expect_success(&source);
}

#[test]
fn tests_unicode_vars() {
    let source = [
        r"𝓞 ≔ ⊤",
        r"α ≔ ⊤",
        r"𝕎 ≔ x",
        r"ℕ ≔ x",
        r"ℤ ≔ x",
        r"LotsOfSubscriptsₐₑₒₓₔₕₖₗₘₙₚₛₜ₀₁₂₃₄₅₆₇₈₉ ≔ x",
        r"ℤ ≔ x",
        r"Foo: ⊤ ≔ x",
        r"λ ≔ A ∨ ¬A",
    ];
    expect_success(&source);
}

#[test]
fn tests_fixme() {
    let source = [
        "", // placeholder,
        r#"id ≔ (ⲗx. x) (ⲗx. x)"#,
        "modus_ponens: (A → B) → A → B ≔ ⲗf. ⲗa. f a",
        "foo ≔ ¬((A ∨ B) ↔ (A ∧ B))",
    ];
    expect_success(&source);
}

#[test]
fn tests_bad_unicode() {
    let invalid_source = [
        r"ₐₑₒₓₔₕₖₗₘₙₚₛₜ₀₁₂₃₄₅₆₇₈₉ ≔ ⊤", // Subscript cannot be initial character
        r"\α ≔ ⊤", // Unicode cannot start with slash.
    ];

    for s in invalid_source.iter() {
        match parse(s) {
            Ok(_) => panic!("accepted '{}'", s),
            Err(e) => println!("got an expected error: {:?}", e),
        }
    }
}

#[test]
fn tests_good_ascii() {
    let source = [
        r"id := A \to A",
        r"A := \top",
        &unindent(
            r#"
            A := \top;
            B := \top
        "#,
        ),
        r"\A := ⊤",
    ];
    expect_success(&source);
}

#[test]
fn tests_bad_ascii() {
    let invalid_source = [
        r"\\A ≔ ⊤",     // Slash can only be the initial character
        r"\to ≔ ⊤",     // \to is reserved for lambda
        r"x ≔ y ≔ ⊤", // y := t is not an expression.
    ];

    let mut num_fail = 0;
    for s in invalid_source.iter() {
        match parse(s) {
            Ok(v) => {
                println!("parsed but shouldn't: {}", s);
                let _ = v;
                num_fail += 1;
            }
            Err(e) => {
                println!("expected error: {}", codespan("foo", s, &e).message);
            }
        }
    }
    assert!(num_fail == 0, "received valid parse from supposedly invalid source");
}
