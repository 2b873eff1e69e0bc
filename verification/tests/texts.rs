use formula::text::{is_number, push_decimal, same_text};

#[test]
fn same_text_compares_characters() {
    assert!(same_text("", ""));
    assert!(same_text("Sin", "Sin"));
    assert!(!same_text("Sin", "sin"));
    assert!(!same_text("Sin", "Si"));
    assert!(!same_text("Si", "Sin"));
    assert!(same_text("π", "π"));
    assert!(!same_text("π", "p"));
}

#[test]
fn number_literals_are_digits_with_an_optional_fraction() {
    for text in ["0", "7", "42", "007", "1.5", "0.0", "123.456", "00.00"] {
        assert!(is_number(text), "{}", text);
    }
    for text in ["", ".", "1.", ".5", "1..5", "1.5.", "1.5.2", "1e5", "+1", "-1", " 1", "1 ", "a", "1a", "١"] {
        assert!(!is_number(text), "{}", text);
    }
}

#[test]
fn decimal_text_has_no_leading_zeros() {
    for (n, text) in [(0usize, "0"), (9, "9"), (10, "10"), (99, "99"), (100, "100"), (1234567890, "1234567890")] {
        let mut out = String::new();
        push_decimal(n, &mut out);
        assert_eq!(out, text);
    }
    let mut out = String::from("n = ");
    push_decimal(usize::MAX, &mut out);
    assert_eq!(out, format!("n = {}", usize::MAX));
}
