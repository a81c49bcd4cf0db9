use rg::combinator::{select, select_by, Compose, Generator, RgBindMode};
use rg::source::{Fixed, ThreadRandom};
use rg::{GenError, Lexicon, Mode, Others};

const NOUNS: [&str; 3] = ["cat", "dog", "owl"];
const VERBS: [&str; 2] = ["sees", "hears"];
const PREDS: [&str; 2] = ["calm", "awake"];
const ADJS: [&str; 2] = ["quick", "quiet"];
const ADVERBS: [&str; 2] = ["often", "rarely"];
const LINKS: [&str; 2] = ["is", "seems"];
const A: [&str; 1] = ["a"];
const B: [&str; 1] = ["b"];
const C: [&str; 1] = ["c"];
const NONE: [&str; 0] = [];

fn sample() -> Lexicon<'static> {
    Lexicon {
        nouns: &NOUNS,
        verbs: &VERBS,
        preds: &PREDS,
        adjs: &ADJS,
        adverbs: &ADVERBS,
        links: &LINKS,
    }
}

fn letter(list: &'static [&'static str]) -> RgBindMode<'static> {
    RgBindMode::new(Mode::Diy(list), sample())
}

#[test]
fn combinator_test() {
    let mut rng = ThreadRandom::new();
    let g = RgBindMode::new(Mode::Noun, sample());
    let g = g.and(RgBindMode::new(Mode::Verb, sample()));
    let g = g.or(RgBindMode::new(Mode::Others(Others::Digits(1..=3)), sample()));
    let g = g.map(|mut s: String| {
        s.push_str("~~");
        s
    });
    let g = g.tail("**");
    let g = g.repeat(3);
    let g2 = RgBindMode::new(Mode::Noun, sample());
    let arr: [&dyn Generator<ThreadRandom>; 2] = [&g, &g2];
    let g = select(&arr);

    let out = g.generate(&mut rng).unwrap();
    println!("{:?}", out);
    assert!(NOUNS.contains(&out.as_str()) || (out.ends_with("~~**") && out.matches("~~**").count() == 3));
}

#[test]
fn and_runs_one_after_the_other() {
    let mut rng = Fixed::new(0, false);
    let g = letter(&A).and(letter(&B)).and(letter(&C));
    assert_eq!(g.generate(&mut rng).unwrap(), "abc");
    let g = letter(&A).and(letter(&B).and(letter(&C)));
    assert_eq!(g.generate_by(String::from(">"), &mut rng).unwrap(), ">abc");
}

#[test]
fn repeat_is_the_same_as_applying_by_hand() {
    let words = sample();
    for times in 0..5u32 {
        let mut rng = Fixed::new(1, true);
        let repeated = RgBindMode::new(Mode::SVO, words)
            .tail(".")
            .repeat(times)
            .generate_by(String::from("b"), &mut rng)
            .unwrap();
        let mut rng = Fixed::new(1, true);
        let single = RgBindMode::new(Mode::SVO, words).tail(".");
        let mut by_hand = String::from("b");
        for _ in 0..times {
            by_hand = single.once(by_hand, &mut rng).unwrap();
        }
        assert_eq!(repeated, by_hand);
    }
    let mut rng = Fixed::new(0, false);
    let out = letter(&A).repeat(0).generate_by(String::from("b"), &mut rng).unwrap();
    assert_eq!(out, "b");
    let out = letter(&A).repeat(3).generate(&mut rng).unwrap();
    assert_eq!(out, "aaa");
}

#[test]
fn tail_ends_with_the_literal() {
    let words = sample();
    let mut rng = Fixed::new(2, false);
    let alone = RgBindMode::new(Mode::Noun, words).generate(&mut rng).unwrap();
    let tailed = RgBindMode::new(Mode::Noun, words).tail("X").generate(&mut rng).unwrap();
    assert_eq!(alone, "owl");
    assert_eq!(tailed, "owlX");
    let mut rng = ThreadRandom::new();
    for _ in 0..50 {
        let out = RgBindMode::new(Mode::Rand, words).tail("X").generate(&mut rng).unwrap();
        assert!(out.ends_with('X'));
    }
}

#[test]
fn or_by_follows_the_function() {
    let mut rng = ThreadRandom::new();
    for _ in 0..20 {
        let g = letter(&A).or_by(letter(&B), || true);
        assert_eq!(g.generate(&mut rng).unwrap(), "a");
        let g = letter(&A).or_by(letter(&B), || false);
        assert_eq!(g.generate(&mut rng).unwrap(), "b");
    }
}

#[test]
fn or_follows_the_coin() {
    let g = letter(&A).or(letter(&B));
    assert_eq!(g.once(String::new(), &mut Fixed::new(0, true)).unwrap(), "a");
    assert_eq!(g.once(String::new(), &mut Fixed::new(0, false)).unwrap(), "b");
    let mut rng = ThreadRandom::new();
    let mut first = false;
    let mut second = false;
    for _ in 0..200 {
        let out = g.once(String::new(), &mut rng).unwrap();
        first = first || out == "a";
        second = second || out == "b";
        assert!(out == "a" || out == "b");
    }
    assert!(first && second);
}

#[test]
fn map_replaces_the_whole_text() {
    let mut rng = Fixed::new(0, false);
    let g = letter(&A).and(letter(&B)).map(|s: String| s.to_uppercase());
    assert_eq!(g.generate_by(String::from("x"), &mut rng).unwrap(), "XAB");
}

#[test]
fn check_passes_the_text_through() {
    let mut rng = Fixed::new(0, false);
    let g = letter(&A).and(letter(&B)).check();
    assert_eq!(g.generate_by(String::from("seen"), &mut rng).unwrap(), "seen");
    let g = letter(&NONE).check().tail("!");
    assert_eq!(g.generate_by(String::from("x"), &mut rng).unwrap(), "x!");
}

#[test]
fn select_by_takes_the_generator_at_the_index() {
    let mut rng = Fixed::new(0, false);
    let g0 = letter(&A);
    let g1 = letter(&B).tail("1");
    let g2 = letter(&C).repeat(2);
    let all: [&dyn Generator<Fixed>; 3] = [&g0, &g1, &g2];
    let expected = ["a", "b1", "cc"];
    for i in 0..3usize {
        let out = select_by(&all, move |len: usize| {
            assert_eq!(len, 3);
            i
        })
        .generate(&mut rng)
        .unwrap();
        assert_eq!(out, expected[i]);
    }
}

#[test]
fn select_by_rejects_an_index_outside() {
    let mut rng = Fixed::new(0, false);
    let g0 = letter(&A);
    let g1 = letter(&B);
    let all: [&dyn Generator<Fixed>; 2] = [&g0, &g1];
    let res = select_by(&all, |len: usize| len).generate_by(String::from("x"), &mut rng);
    assert_eq!(res, Err(GenError::InvalidState));
    let res = select_by(&all, |_: usize| usize::MAX).generate(&mut rng);
    assert_eq!(res, Err(GenError::InvalidState));
}

#[test]
fn select_of_nothing_leaves_the_text() {
    let mut rng = Fixed::new(0, false);
    let none: [&dyn Generator<Fixed>; 0] = [];
    let out = select_by(&none, |_: usize| 5).generate_by(String::from("kept"), &mut rng).unwrap();
    assert_eq!(out, "kept");
    let out = select(&none).generate_by(String::from("kept"), &mut rng).unwrap();
    assert_eq!(out, "kept");
}

#[test]
fn select_draws_an_index() {
    let g0 = letter(&A);
    let g1 = letter(&B);
    let g2 = letter(&C);
    let all: [&dyn Generator<Fixed>; 3] = [&g0, &g1, &g2];
    assert_eq!(select(&all).generate(&mut Fixed::new(0, false)).unwrap(), "a");
    assert_eq!(select(&all).generate(&mut Fixed::new(1, false)).unwrap(), "b");
    assert_eq!(select(&all).generate(&mut Fixed::new(9, false)).unwrap(), "c");
}

#[test]
fn leaf_failures_pass_through_unchanged() {
    let mut rng = Fixed::new(0, false);
    let g = letter(&A).and(letter(&NONE)).tail("!").repeat(2).map(|s: String| s);
    assert_eq!(g.generate(&mut rng), Err(GenError::InvalidArgument));
    let bad = RgBindMode::new(Mode::Others(Others::Uppers(2..=1)), sample());
    let g = letter(&A).or_by(bad, || false);
    assert_eq!(g.generate(&mut rng), Err(GenError::InvalidRange));
    let words = Lexicon::empty();
    let g = RgBindMode::new(Mode::Rand, words);
    assert_eq!(g.generate(&mut rng), Err(GenError::InvalidArgument));
}

#[test]
fn leaf_carries_its_decorators() {
    let mut rng = Fixed::new(0, false);
    let g = RgBindMode::with_dec(Some("{"), Some("}"), Mode::Diy(&A), sample());
    assert_eq!(g.generate(&mut rng).unwrap(), "{a}");
    let g = RgBindMode::with_dec(Some("{"), None, Mode::SVO, sample()).repeat(2);
    assert_eq!(g.generate(&mut rng).unwrap(), "{catseescat{catseescat");
}
