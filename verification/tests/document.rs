use rg::extend::Case;
use rg::fmt::json::{category, Category, Json};
use rg::fmt::LevelPrinter;
use rg::source::{Fixed, ThreadRandom};
use rg::GenError;

#[test]
fn json_test() {
    let json = Json::new();
    let mut rng = ThreadRandom::new();
    let res = json.generate(&mut rng).unwrap();
    println!("{}", res);
    assert!(res.starts_with("{\n") && res.ends_with("\n}"));
}

#[test]
fn no_fields_give_an_empty_body() {
    let json = Json::new().field_cnt(0..=0);
    let mut rng = ThreadRandom::new();
    assert_eq!(json.generate(&mut rng).unwrap(), "{\n\n}");
}

#[test]
fn depth_zero_holds_no_nested_value() {
    let json = Json::new().max_level(0);
    let mut rng = ThreadRandom::new();
    for _ in 0..100 {
        let out = json.generate(&mut rng).unwrap();
        assert!(out.starts_with("{\n") && out.ends_with("\n}"));
        let body = &out[1..out.len() - 1];
        assert!(!body.contains('{') && !body.contains('}'));
        assert!(!body.contains('[') && !body.contains(']'));
        let lines: Vec<&str> = body.trim_matches('\n').split(",\n").collect();
        assert!(lines.len() >= 10 && lines.len() <= 20);
        for line in lines {
            assert!(line.starts_with("  \""));
            assert!(line.contains("\": "));
        }
    }
}

#[test]
fn document_exact_values() {
    let json = Json::new().field_cnt(2..=2).string_rg(1..=1).string_case(Case::Lower);
    let mut rng = Fixed::new(0, false);
    assert_eq!(json.generate(&mut rng).unwrap(), "{\n  \"q\": \"q\",\n  \"q\": \"q\"\n}");
    let json = Json::new().field_cnt(1..=1).string_rg(2..=2).string_case(Case::Upper).numeric_rg(1..=1);
    let mut rng = Fixed::new(20, true);
    assert_eq!(json.generate(&mut rng).unwrap(), "{\n  \"XX\": -9\n}");
    let json = Json::new().field_cnt(1..=1).string_rg(1..=1).array_rg(2..=2).max_level(1);
    let mut rng = Fixed::new(99, false);
    assert_eq!(
        json.generate(&mut rng).unwrap(),
        "{\n  \"M\": [\n    99999.999,\n    99999.999\n  ]\n}"
    );
}

#[test]
fn nested_objects_indent_by_level() {
    let json = Json::new().field_cnt(1..=1).string_rg(1..=1).max_level(2);
    let mut rng = Fixed::new(80, false);
    assert_eq!(
        json.generate(&mut rng).unwrap(),
        "{\n  \"M\": {\n    \"M\": {\n      \"M\": 99999.999\n    }\n  }\n}"
    );
}

#[test]
fn depth_bounds_the_nesting() {
    let mut rng = ThreadRandom::new();
    for depth in 0..3u32 {
        let json = Json::new().field_cnt(0..=3).array_rg(0..=3).max_level(depth);
        for _ in 0..50 {
            let out = json.generate(&mut rng).unwrap();
            let mut open: u32 = 0;
            let mut deepest: u32 = 0;
            for c in out.chars() {
                if c == '{' || c == '[' {
                    open += 1;
                    deepest = deepest.max(open);
                }
                if c == '}' || c == ']' {
                    open -= 1;
                }
            }
            assert_eq!(open, 0);
            assert!(deepest <= depth + 1);
        }
    }
}

#[test]
fn bad_configuration_is_reported() {
    let mut rng = Fixed::new(0, false);
    assert_eq!(Json::new().field_cnt(3..=1).generate(&mut rng), Err(GenError::InvalidRange));
    assert_eq!(Json::new().string_rg(3..=1).generate(&mut rng), Err(GenError::InvalidRange));
    let mut rng = Fixed::new(20, false);
    assert_eq!(Json::new().numeric_rg(3..=1).generate(&mut rng), Err(GenError::InvalidRange));
    let mut rng = Fixed::new(99, false);
    assert_eq!(Json::new().array_rg(3..=1).generate(&mut rng), Err(GenError::InvalidRange));
    assert!(Json::default().generate(&mut rng).is_ok());
}

#[test]
fn decimals_stand_below_the_greatest_depth() {
    let json = Json::new().field_cnt(1..=1).string_rg(1..=1);
    let mut rng = Fixed::new(60, false);
    assert_eq!(json.generate(&mut rng).unwrap(), "{\n  \"M\": 99999.999\n}");
    let mut rng = Fixed::new(79, true);
    assert_eq!(json.generate(&mut rng).unwrap(), "{\n  \"M\": -99999.999\n}");
}

#[test]
fn rolls_fall_into_bands() {
    for roll in 1..=20 {
        assert_eq!(category(roll, false), Category::Text);
    }
    for roll in 21..=40 {
        assert_eq!(category(roll, false), Category::Number);
    }
    for roll in 41..=60 {
        assert_eq!(category(roll, false), Category::Boolean);
    }
    for roll in 61..=80 {
        assert_eq!(category(roll, false), Category::Decimal);
    }
    for roll in 81..=90 {
        assert_eq!(category(roll, false), Category::Object);
    }
    for roll in 91..=100 {
        assert_eq!(category(roll, false), Category::Array);
    }
    assert_eq!(category(1, true), Category::Text);
    assert_eq!(category(2, true), Category::Number);
    assert_eq!(category(3, true), Category::Boolean);
    assert_eq!(category(4, true), Category::Decimal);
}

#[test]
fn scalars_are_appended() {
    let json = Json::new().string_rg(2..=2).numeric_rg(1..=1);
    let mut rng = Fixed::new(1, true);
    assert_eq!(json.string(String::from("k="), &mut rng).unwrap(), "k=\"ww\"");
    assert_eq!(json.numeric(String::from("k="), &mut rng).unwrap(), "k=-1");
    assert_eq!(json.boolean(String::from("k="), &mut rng), "k=false");
    assert_eq!(json.float(String::from("k="), &mut rng).unwrap(), "k=-211.11");
    let mut indented = String::from("|");
    Json::push_indent(&mut indented, 3);
    assert_eq!(indented, "|      ");
}

#[test]
fn printer_indents_by_level() {
    let mut printer = LevelPrinter::new("--");
    assert_eq!(printer.level(), 0);
    let mut buf = String::from(">");
    printer.print(&mut buf, 0);
    assert_eq!(buf, ">");
    printer.upgrade();
    printer.upgrade();
    printer.print(&mut buf, 0);
    assert_eq!(buf, ">----");
    printer.print(&mut buf, -1);
    assert_eq!(buf, ">------");
    printer.print(&mut buf, -5);
    assert_eq!(buf, ">------");
    printer.downgrade();
    assert_eq!(printer.level(), 1);
    printer.print(&mut buf, 1);
    assert_eq!(buf, ">----------");
}
