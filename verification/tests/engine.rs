use rg::source::{Fixed, RandomSource, Script, ThreadRandom};
use rg::util::{rand_or, rand_range, rand_slice};
use rg::{GenError, Lexicon, Mode, Others, Rg};
use std::borrow::Cow;

const NOUNS: [&str; 3] = ["cat", "dog", "owl"];
const VERBS: [&str; 2] = ["sees", "hears"];
const PREDS: [&str; 2] = ["calm", "awake"];
const ADJS: [&str; 2] = ["quick", "quiet"];
const ADVERBS: [&str; 2] = ["often", "rarely"];
const LINKS: [&str; 2] = ["is", "seems"];

fn sample() -> Lexicon<'static> {
    Lexicon {
        nouns: &NOUNS,
        verbs: &VERBS,
        preds: &PREDS,
        adjs: &ADJS,
        adverbs: &ADVERBS,
        links: &LINKS,
    }
}

#[test]
fn diy_between_braces() {
    let rg = Rg::with_dec("{", "}");
    let mut rng = ThreadRandom::new();
    let list = ["X"];
    let out = rg.once(&Mode::Diy(&list), &sample(), &mut rng).unwrap();
    assert_eq!(out, "{X}");
}

#[test]
fn same_index_gives_same_digit() {
    let rg = Rg::new();
    let mut rng = Fixed::new(7, false);
    let out = rg.once(&Mode::Others(Others::Digits(3..=3)), &sample(), &mut rng).unwrap();
    assert_eq!(out, "777");
}

#[test]
fn combine_joins_first_candidates() {
    let rg = Rg::new();
    let mut rng = Fixed::new(0, false);
    let first = ["a", "b"];
    let second = ["c"];
    let out = rg
        .combine(&[Mode::Diy(&first), Mode::Diy(&second)], &[","], &sample(), &mut rng)
        .unwrap();
    assert_eq!(out, "a,c");
}

#[test]
fn combine_uses_last_separator_again() {
    let rg = Rg::with_dec("<", ">");
    let mut rng = Fixed::new(0, false);
    let a = ["a"];
    let b = ["b"];
    let c = ["c"];
    let d = ["d"];
    let modes = [Mode::Diy(&a), Mode::Diy(&b), Mode::Diy(&c), Mode::Diy(&d)];
    let out = rg.combine(&modes, &["-", "+"], &sample(), &mut rng).unwrap();
    assert_eq!(out, "<a-b+c+d>");
}

#[test]
fn combine_without_separators_or_modes() {
    let rg = Rg::with_dec("[", "]");
    let mut rng = Fixed::new(1, false);
    let out = rg
        .combine(&[Mode::Noun, Mode::Verb, Mode::Noun], &[], &sample(), &mut rng)
        .unwrap();
    assert_eq!(out, "[doghearsdog]");
    let none: [Mode; 0] = [];
    assert_eq!(rg.combine(&none, &[","], &sample(), &mut rng).unwrap(), "[]");
}

#[test]
fn combine_with_buf_keeps_what_was_there() {
    let rg = Rg::with_dec("(", ")");
    let mut rng = Fixed::new(2, false);
    let out = rg
        .combine_with_buf(String::from("id="), &[Mode::Noun, Mode::Adj], &["_"], &sample(), &mut rng)
        .unwrap();
    assert_eq!(out, "id=(owl_quiet)");
}

#[test]
fn combine_reports_the_failing_mode() {
    let rg = Rg::new();
    let mut rng = Fixed::new(0, false);
    let empty: [&str; 0] = [];
    let res = rg.combine(&[Mode::Noun, Mode::Diy(&empty)], &[","], &sample(), &mut rng);
    assert_eq!(res, Err(GenError::InvalidArgument));
    let res = rg.combine(
        &[Mode::Noun, Mode::Others(Others::Lowers(5..=3))],
        &[","],
        &sample(),
        &mut rng,
    );
    assert_eq!(res, Err(GenError::InvalidRange));
}

#[test]
fn alphabet_runs_stay_in_range_and_alphabet() {
    let rg = Rg::new();
    let mut rng = ThreadRandom::new();
    let words = sample();
    for _ in 0..200 {
        let out = rg.once(&Mode::Others(Others::Lowers(2..=5)), &words, &mut rng).unwrap();
        assert!(out.len() >= 2 && out.len() <= 5);
        assert!(out.chars().all(|c| c.is_ascii_lowercase()));
        let out = rg.once(&Mode::Others(Others::Uppers(0..=3)), &words, &mut rng).unwrap();
        assert!(out.len() <= 3);
        assert!(out.chars().all(|c| c.is_ascii_uppercase()));
        let out = rg.once(&Mode::Others(Others::LowersAndUppers(4..=4)), &words, &mut rng).unwrap();
        assert_eq!(out.len(), 4);
        assert!(out.chars().all(|c| c.is_ascii_alphabetic()));
        let out = rg.once(&Mode::Others(Others::Digits(1..=6)), &words, &mut rng).unwrap();
        assert!(out.len() >= 1 && out.len() <= 6);
        assert!(out.chars().all(|c| c.is_ascii_digit()));
        let out = rg.once(&Mode::Others(Others::DigitsNonZero(1..=6)), &words, &mut rng).unwrap();
        assert!(out.chars().all(|c| c.is_ascii_digit() && c != '0'));
    }
}

#[test]
fn empty_run_is_allowed() {
    let rg = Rg::new();
    let mut rng = ThreadRandom::new();
    let out = rg.once(&Mode::Others(Others::Digits(0..=0)), &sample(), &mut rng).unwrap();
    assert_eq!(out, "");
    let braced = Rg::with_dec("{", "}");
    let out = braced.once(&Mode::Others(Others::Lowers(0..=0)), &sample(), &mut rng).unwrap();
    assert_eq!(out, "{}");
}

#[test]
fn alphabets_are_in_keyboard_order() {
    let rg = Rg::new();
    let words = sample();
    let mut rng = Script::new(vec![3, 0, 1, 25]);
    let out = rg.once(&Mode::Others(Others::Lowers(3..=3)), &words, &mut rng).unwrap();
    assert_eq!(out, "qwm");
    let mut rng = Script::new(vec![2, 26, 51]);
    let out = rg.once(&Mode::Others(Others::LowersAndUppers(2..=2)), &words, &mut rng).unwrap();
    assert_eq!(out, "QM");
    let mut rng = Script::new(vec![1, 0]);
    let out = rg.once(&Mode::Others(Others::DigitsNonZero(1..=1)), &words, &mut rng).unwrap();
    assert_eq!(out, "1");
    let mut rng = Script::new(vec![1, 0]);
    let out = rg.once(&Mode::Others(Others::Uppers(1..=1)), &words, &mut rng).unwrap();
    assert_eq!(out, "Q");
}

#[test]
fn decorators_stand_once_round_every_mode() {
    let rg = Rg::with_dec("{", "}");
    let mut rng = ThreadRandom::new();
    let words = sample();
    let list = ["x", "y"];
    let modes = [
        Mode::Noun,
        Mode::Verb,
        Mode::Pred,
        Mode::Adj,
        Mode::Adverb,
        Mode::SVO,
        Mode::SLP,
        Mode::Diy(&list),
        Mode::Others(Others::Digits(0..=4)),
        Mode::ASVO(","),
        Mode::SVOA(","),
        Mode::ASLP(","),
        Mode::SLPA(","),
        Mode::Rand,
    ];
    for _ in 0..50 {
        for mode in modes.iter() {
            let out = rg.once(mode, &words, &mut rng).unwrap();
            assert!(out.starts_with('{') && out.ends_with('}'));
            assert_eq!(out.matches('{').count(), 1);
            assert_eq!(out.matches('}').count(), 1);
        }
        let out = rg.combine(&modes, &[" "], &words, &mut rng).unwrap();
        assert!(out.starts_with('{') && out.ends_with('}'));
        assert_eq!(out.matches('{').count(), 1);
        assert_eq!(out.matches('}').count(), 1);
    }
}

#[test]
fn sentence_shapes_follow_their_names() {
    let rg = Rg::new();
    let words = sample();
    let mut rng = Script::new(vec![0, 1, 2]);
    assert_eq!(rg.once(&Mode::SVO, &words, &mut rng).unwrap(), "cathearsowl");
    let mut rng = Script::new(vec![2, 0, 1]);
    assert_eq!(rg.once(&Mode::SLP, &words, &mut rng).unwrap(), "owlisawake");
    let mut rng = Script::new(vec![1, 0, 0, 0]);
    assert_eq!(rg.once(&Mode::ASVO(", "), &words, &mut rng).unwrap(), "rarely, catseescat");
    let mut rng = Script::new(vec![0, 0, 0, 1]);
    assert_eq!(rg.once(&Mode::SVOA(" "), &words, &mut rng).unwrap(), "catseescat rarely");
    let mut rng = Script::new(vec![0, 1, 1, 1]);
    assert_eq!(rg.once(&Mode::ASLP("; "), &words, &mut rng).unwrap(), "often; dogseemsawake");
    let mut rng = Script::new(vec![1, 1, 1, 0]);
    assert_eq!(rg.once(&Mode::SLPA("/"), &words, &mut rng).unwrap(), "dogseemsawake/often");
}

#[test]
fn rand_chooses_among_the_seven_kinds() {
    let rg = Rg::new();
    let words = sample();
    let expected = ["cat", "sees", "calm", "quick", "often", "catseescat", "catiscalm"];
    for kind in 0..7u32 {
        let mut rng = Script::new(vec![kind, 0, 0, 0]);
        let out = rg.once(&Mode::Rand, &words, &mut rng).unwrap();
        assert_eq!(out, expected[kind as usize]);
    }
}

#[test]
fn rand_writes_into_the_buffer_when_asked() {
    let rg = Rg::new();
    let words = sample();
    let mut rng = Script::new(vec![0, 1]);
    let mut buf = String::from(">");
    let res = rg.resolve(&Mode::Rand, &mut buf, true, false, &words, &mut rng);
    assert_eq!(res, Ok(None));
    assert_eq!(buf, ">dog");
}

#[test]
fn word_is_lent_without_decorators() {
    let words = sample();
    let mut rng = Fixed::new(1, false);
    let plain = Rg::new();
    assert!(matches!(plain.once(&Mode::Noun, &words, &mut rng), Ok(Cow::Borrowed("dog"))));
    assert!(matches!(plain.once(&Mode::SVO, &words, &mut rng), Ok(Cow::Owned(_))));
    let braced = Rg::with_dec("{", "}");
    let out = braced.once(&Mode::Noun, &words, &mut rng).unwrap();
    assert!(matches!(out, Cow::Owned(_)));
    assert_eq!(out, "{dog}");
}

#[test]
fn resolve_either_lends_or_writes() {
    let words = sample();
    let mut rng = Fixed::new(0, false);
    let plain = Rg::new();
    let mut buf = String::from("ab");
    let res = plain.resolve(&Mode::Verb, &mut buf, false, true, &words, &mut rng);
    assert_eq!(res, Ok(Some("sees")));
    assert_eq!(buf, "ab");
    let res = plain.resolve(&Mode::Verb, &mut buf, true, true, &words, &mut rng);
    assert_eq!(res, Ok(None));
    assert_eq!(buf, "absees");
    let left_only = Rg { left_dec: Some("<"), right_dec: None };
    let mut buf = String::new();
    let res = left_only.resolve(&Mode::Verb, &mut buf, false, false, &words, &mut rng);
    assert_eq!(res, Ok(None));
    assert_eq!(buf, "sees");
    let res = left_only.resolve(&Mode::Verb, &mut buf, false, true, &words, &mut rng);
    assert_eq!(res, Ok(None));
    assert_eq!(buf, "sees<sees");
}

#[test]
fn failures_leave_the_buffer_alone() {
    let rg = Rg::with_dec("{", "}");
    let mut rng = Fixed::new(0, false);
    let none = Lexicon::empty();
    let empty: [&str; 0] = [];
    let modes = [
        Mode::Noun,
        Mode::Verb,
        Mode::Pred,
        Mode::Adj,
        Mode::Adverb,
        Mode::SVO,
        Mode::SLP,
        Mode::Diy(&empty),
        Mode::ASVO(","),
        Mode::SVOA(","),
        Mode::ASLP(","),
        Mode::SLPA(","),
        Mode::Rand,
    ];
    for mode in modes.iter() {
        let mut buf = String::from("kept");
        let res = rg.resolve(mode, &mut buf, true, true, &none, &mut rng);
        assert_eq!(res, Err(GenError::InvalidArgument));
        assert_eq!(buf, "kept");
        assert_eq!(rg.once(mode, &none, &mut rng), Err(GenError::InvalidArgument));
    }
    let mut buf = String::from("kept");
    let res = rg.resolve(&Mode::Others(Others::Digits(4..=1)), &mut buf, true, true, &none, &mut rng);
    assert_eq!(res, Err(GenError::InvalidRange));
    assert_eq!(buf, "kept");
}

#[test]
fn a_shape_needs_each_of_its_lists() {
    let rg = Rg::new();
    let mut rng = Fixed::new(0, false);
    let mut words = sample();
    let empty: [&str; 0] = [];
    words.links = &empty;
    assert_eq!(rg.once(&Mode::SVO, &words, &mut rng).unwrap(), "catseescat");
    assert_eq!(rg.once(&Mode::SLP, &words, &mut rng), Err(GenError::InvalidArgument));
    assert_eq!(rg.once(&Mode::ASLP(","), &words, &mut rng), Err(GenError::InvalidArgument));
    assert!(!words.is_complete());
    assert!(sample().is_complete());
    let mut rng = Script::new(vec![6]);
    assert_eq!(rg.once(&Mode::Rand, &words, &mut rng), Err(GenError::InvalidArgument));
    let mut rng = Script::new(vec![5, 0, 0, 0]);
    assert_eq!(rg.once(&Mode::Rand, &words, &mut rng).unwrap(), "catseescat");
}

#[test]
fn decorators_can_be_set_and_reset() {
    let mut rg = Rg::new();
    assert!(!rg.has_dec());
    rg.left_dec("{").right_dec("}");
    assert_eq!(rg, Rg::with_dec("{", "}"));
    assert!(rg.has_dec());
    let mut buf = String::new();
    rg.push_left(&mut buf, true);
    rg.push_left(&mut buf, false);
    rg.push_right(&mut buf, true);
    assert_eq!(buf, "{}");
    rg.reset();
    assert_eq!(rg, Rg::new());
    assert_eq!(rg, Rg::default());
    rg.right_dec("!");
    assert_eq!(rg, Rg { left_dec: None, right_dec: Some("!") });
}

#[test]
fn single_picks_come_from_their_lists() {
    let rg = Rg::new();
    let words = sample();
    let mut rng = Fixed::new(1, false);
    assert_eq!(rg.get_noun(&words, &mut rng), Ok("dog"));
    assert_eq!(rg.get_verb(&words, &mut rng), Ok("hears"));
    assert_eq!(rg.get_pred(&words, &mut rng), Ok("awake"));
    assert_eq!(rg.get_adj(&words, &mut rng), Ok("quiet"));
    assert_eq!(rg.get_adverb(&words, &mut rng), Ok("rarely"));
    assert_eq!(rg.get_diy(&["p", "q", "r"], &mut rng), Ok("q"));
    assert_eq!(rg.get_diy(&[], &mut rng), Err(GenError::InvalidArgument));
    assert_eq!(rg.get_noun(&Lexicon::empty(), &mut rng), Err(GenError::InvalidArgument));
}

#[test]
fn the_sequence_never_ends() {
    let rg = Rg::with_dec("{", "}");
    let words = sample();
    let mode = Mode::Adj;
    let mut it = rg.iter(&mode, &words);
    let mut rng = Script::new(vec![0, 1]);
    let mut seen = Vec::new();
    for _ in 0..4 {
        seen.push(it.next(&mut rng).unwrap().unwrap().into_owned());
    }
    assert_eq!(seen, vec!["{quick}", "{quiet}", "{quick}", "{quiet}"]);
}

#[test]
fn thread_source_keeps_to_what_is_asked() {
    let mut rng = ThreadRandom::new();
    let mut low = false;
    let mut high = false;
    let mut heads = false;
    let mut tails = false;
    for _ in 0..400 {
        assert!(rng.index(3) < 3);
        assert_eq!(rng.index(1), 0);
        let r = rng.range(5, 9);
        assert!(r >= 5 && r <= 9);
        assert_eq!(rng.range(u32::MAX, u32::MAX), u32::MAX);
        let wide = rng.range(0, 1000);
        low = low || wide < 1000;
        high = high || wide > 0;
        if rand_or(&mut rng) {
            heads = true;
        } else {
            tails = true;
        }
    }
    assert!(low && high && heads && tails);
}

#[test]
fn fixed_source_steps_from_the_bottom() {
    let mut rng = Fixed::new(4, true);
    assert_eq!(rng.index(10), 4);
    assert_eq!(rng.index(3), 2);
    assert_eq!(rng.range(10, 20), 14);
    assert_eq!(rng.range(10, 12), 12);
    assert_eq!(rng.range(u32::MAX - 1, u32::MAX), u32::MAX);
    assert!(rng.coin());
    assert!(!Fixed::new(0, false).coin());
}

#[test]
fn scripted_source_reads_its_list() {
    let mut rng = Script::new(vec![7, 12, 3]);
    assert_eq!(rng.index(10), 7);
    assert_eq!(rng.index(10), 2);
    assert!(rng.coin());
    assert_eq!(rng.range(5, 9), 7);
    assert_eq!(rng.range(0, u32::MAX), 12);
    assert_eq!(rng.range(4, 4), 4);
    assert!(!Script::new(vec![2]).coin());
    let mut none = Script::new(Vec::new());
    assert_eq!(none.index(5), 0);
    assert_eq!(none.range(3, 8), 3);
    assert!(!none.coin());
}

#[test]
fn checked_draws_report_bad_requests() {
    let mut rng = Fixed::new(1, false);
    let empty: [u8; 0] = [];
    assert_eq!(rand_slice(&empty, &mut rng), Err(GenError::InvalidArgument));
    assert_eq!(rand_slice(&[7u8, 8, 9], &mut rng), Ok(&8));
    assert_eq!(rand_range(&(3..=2), &mut rng), Err(GenError::InvalidRange));
    assert_eq!(rand_range(&(3..=8), &mut rng), Ok(4));
    assert_eq!(rand_range(&(3..=3), &mut rng), Ok(3));
    assert!(rand_or(&mut Fixed::new(0, true)));
    assert!(!rand_or(&mut Fixed::new(0, false)));
    assert!(rand_or(&mut Script::new(vec![5])));
}

#[test]
fn errors_describe_themselves() {
    assert_eq!(GenError::InvalidArgument.describe(), "empty candidate list");
    assert_eq!(GenError::InvalidRange.describe(), "range with lower bound above upper bound");
    assert_eq!(GenError::InvalidState.describe(), "selection index out of bounds");
}
