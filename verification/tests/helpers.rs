use rg::extend::{boolean_text, push_single, Case};
use rg::source::{Fixed, ThreadRandom};
use rg::{GenError, Rg};

#[test]
fn numeric() {
    let rg = Rg::with_dec("{{", "}}");
    let mut rng = ThreadRandom::new();
    let res = rg.numberic(1..=1, true, &mut rng).unwrap();
    println!("{:?}", res);
    assert!(res.starts_with("{{") && res.ends_with("}}"));
    let body = &res[2..res.len() - 2];
    let figures = body.strip_prefix('-').unwrap_or(body);
    assert_eq!(figures.len(), 1);
    assert!(figures.chars().all(|c| c.is_ascii_digit()));
}

#[test]
fn word() {
    let rg = Rg::with_dec("{{", "}}");
    let mut rng = ThreadRandom::new();
    let res = rg.word(1..=22, Case::Upper, &mut rng).unwrap();
    println!("{:?}", res);
    assert!(res.starts_with("{{") && res.ends_with("}}"));
    let body = &res[2..res.len() - 2];
    assert!(body.len() >= 1 && body.len() <= 22);
    assert!(body.chars().all(|c| c.is_ascii_uppercase()));
}

#[test]
fn float() {
    let rg = Rg::with_dec("{{", "}}");
    let mut rng = ThreadRandom::new();
    let res = rg.float(1..=5, 1..=2, true, &mut rng).unwrap();
    println!("{:?}", res);
    assert!(res.starts_with("{{") && res.ends_with("}}"));
    let body = &res[2..res.len() - 2];
    let (whole, part) = body.split_once('.').unwrap();
    let figures = whole.strip_prefix('-').unwrap_or(whole);
    assert!(figures.len() >= 1 && figures.len() <= 5);
    assert!(figures.chars().all(|c| c.is_ascii_digit()));
    assert!(part.len() >= 1 && part.len() <= 2);
    assert!(part.chars().all(|c| c.is_ascii_digit()));
    assert_eq!(res.matches("{{").count(), 1);
    assert_eq!(res.matches("}}").count(), 1);
}

#[test]
fn numeric_exact_values() {
    let rg = Rg::with_dec("{{", "}}");
    let mut rng = Fixed::new(3, true);
    assert_eq!(rg.numberic(1..=5, true, &mut rng).unwrap(), "{{-4333}}");
    assert_eq!(rg.numberic(1..=5, false, &mut rng).unwrap(), "{{4333}}");
    let mut rng = Fixed::new(0, true);
    assert_eq!(rg.numberic(2..=9, true, &mut rng).unwrap(), "{{-10}}");
    let mut rng = Fixed::new(5, true);
    assert_eq!(rg.numberic(1..=1, true, &mut rng).unwrap(), "{{-5}}");
    let mut rng = Fixed::new(5, false);
    assert_eq!(rg.numberic(1..=1, true, &mut rng).unwrap(), "{{5}}");
}

#[test]
fn zero_never_has_a_sign() {
    let rg = Rg::new();
    let mut rng = Fixed::new(0, true);
    assert_eq!(rg.numberic(1..=1, true, &mut rng).unwrap(), "0");
    let mut rng = ThreadRandom::new();
    for _ in 0..500 {
        let out = rg.numberic(1..=1, true, &mut rng).unwrap();
        assert_ne!(out, "-0");
        let out = rg.numberic(0..=3, true, &mut rng).unwrap();
        assert!(!out.starts_with("-0"));
        assert!(out.len() < 2 || !out.starts_with('0'));
    }
    let mut buf = String::from("n=");
    push_single(&mut buf, '0', true);
    assert_eq!(buf, "n=0");
    push_single(&mut buf, '7', true);
    assert_eq!(buf, "n=0-7");
    push_single(&mut buf, '3', false);
    assert_eq!(buf, "n=0-73");
}

#[test]
fn count_zero_writes_nothing() {
    let rg = Rg::with_dec("{{", "}}");
    let mut rng = Fixed::new(0, true);
    assert_eq!(rg.numberic(0..=0, true, &mut rng).unwrap(), "");
    let out = rg.numeric_with_buf(String::from("x"), 0..=4, true, true, &mut rng).unwrap();
    assert_eq!(out, "x");
}

#[test]
fn numeric_without_decorators_when_not_asked() {
    let rg = Rg::with_dec("{{", "}}");
    let mut rng = Fixed::new(1, false);
    let out = rg.numeric_with_buf(String::from("x"), 1..=4, true, false, &mut rng).unwrap();
    assert_eq!(out, "x21");
    let out = rg.numeric_with_buf(String::from("x"), 1..=4, true, true, &mut rng).unwrap();
    assert_eq!(out, "x{{21}}");
    let mut one = String::from("x");
    rg.push_one(&mut one, true, &mut rng);
    assert_eq!(one, "x-1");
    let mut long = String::from("x");
    rg.push_long(&mut long, 3, true, &mut rng);
    assert_eq!(long, "x-211");
}

#[test]
fn numbers_have_the_count_of_digits_drawn() {
    let rg = Rg::new();
    let mut rng = ThreadRandom::new();
    for _ in 0..300 {
        let out = rg.numberic(5..=5, false, &mut rng).unwrap();
        assert_eq!(out.len(), 5);
        assert!(out.chars().all(|c| c.is_ascii_digit()));
        assert!(!out.starts_with('0'));
        let out = rg.numberic(3..=4, true, &mut rng).unwrap();
        let figures = out.strip_prefix('-').unwrap_or(&out);
        assert!(figures.len() == 3 || figures.len() == 4);
    }
    let mut rng = Fixed::new(0, false);
    assert_eq!(rg.numberic(5..=5, false, &mut rng).unwrap(), "10000");
}

#[test]
fn longer_numbers_start_with_no_zero() {
    let rg = Rg::new();
    let mut rng = ThreadRandom::new();
    for _ in 0..300 {
        let out = rg.numberic(2..=6, true, &mut rng).unwrap();
        let figures = out.strip_prefix('-').unwrap_or(&out);
        assert!(figures.len() >= 2 && figures.len() <= 6);
        assert!(!figures.starts_with('0'));
        assert!(figures.chars().all(|c| c.is_ascii_digit()));
        let out = rg.numberic(2..=6, false, &mut rng).unwrap();
        assert!(!out.starts_with('-'));
    }
}

#[test]
fn word_exact_values() {
    let rg = Rg::with_dec("'", "'");
    let mut rng = Fixed::new(1, false);
    assert_eq!(rg.word(2..=4, Case::Upper, &mut rng).unwrap(), "'WWW'");
    assert_eq!(rg.word(2..=4, Case::Lower, &mut rng).unwrap(), "'www'");
    let mut rng = Fixed::new(30, false);
    assert_eq!(rg.word(1..=2, Case::Mixed, &mut rng).unwrap(), "'TT'");
    assert_eq!(rg.word_with_buf(String::from("k:"), 0..=0, Case::Lower, &mut rng).unwrap(), "k:''");
}

#[test]
fn float_exact_values() {
    let rg = Rg::new();
    let mut rng = Fixed::new(2, false);
    assert_eq!(rg.float(1..=5, 1..=2, true, &mut rng).unwrap(), "322.22");
    let braced = Rg::with_dec("{{", "}}");
    let mut rng = Fixed::new(2, true);
    assert_eq!(braced.float(1..=5, 1..=2, true, &mut rng).unwrap(), "{{-322.22}}");
    let mut rng = Fixed::new(0, true);
    assert_eq!(braced.float(0..=2, 1..=1, true, &mut rng).unwrap(), "{{.0}}");
    assert_eq!(
        braced.float_with_buf(String::from("v="), 1..=1, 3..=3, true, &mut rng).unwrap(),
        "v={{0.000}}"
    );
}

#[test]
fn boolean_is_one_of_two_literals() {
    let rg = Rg::with_dec("<", ">");
    assert_eq!(rg.boolean(&mut Fixed::new(0, false)), "<true>");
    assert_eq!(rg.boolean(&mut Fixed::new(1, false)), "<false>");
    assert_eq!(rg.boolean_with_buf(String::from("b="), &mut Fixed::new(1, false)), "b=<false>");
    assert_eq!(boolean_text(0), "true");
    assert_eq!(boolean_text(1), "false");
    let mut rng = ThreadRandom::new();
    let plain = Rg::new();
    for _ in 0..50 {
        let out = plain.boolean(&mut rng);
        assert!(out == "true" || out == "false");
    }
}

#[test]
fn bad_ranges_are_reported() {
    let rg = Rg::new();
    let mut rng = Fixed::new(0, false);
    assert_eq!(rg.numberic(3..=2, true, &mut rng), Err(GenError::InvalidRange));
    assert_eq!(rg.word(9..=1, Case::Mixed, &mut rng), Err(GenError::InvalidRange));
    assert_eq!(rg.float(2..=1, 1..=2, true, &mut rng), Err(GenError::InvalidRange));
    assert_eq!(rg.float(1..=2, 2..=1, true, &mut rng), Err(GenError::InvalidRange));
}
