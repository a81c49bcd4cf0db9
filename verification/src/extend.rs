//! Value literals built on the engine: numbers, words, booleans and
//! fixed-point decimals.

use crate::engine::Rg;
use crate::error::GenError;
use crate::mode::{
    digits, digits_are, digits_non_zero, digits_non_zero_are, is_run, lowers, lowers_and_uppers,
    run_told, uppers, Others,
};
use crate::source::{drew, grew, grew_by_one, grew_not, grew_twice, Draw, RandomSource};
use crate::util::rand_range;
use std::ops::RangeInclusive;
use vstd::prelude::*;

verus! {

/// The case of the letters of a word.
#[derive(Debug, Clone, Copy, PartialEq, Eq)]
pub enum Case {
    Lower,
    Upper,
    /// Each letter is of either case.
    Mixed,
}

impl Case {
    /// The alphabet that a word of this case is written in.
    pub open spec fn alphabet(&self) -> Seq<char> {
        match self {
            Case::Lower => lowers(),
            Case::Upper => uppers(),
            Case::Mixed => lowers_and_uppers(),
        }
    }

    /// The run of letters of this case with lengths in `rg`.
    pub fn letters(&self, rg: RangeInclusive<u32>) -> (kind: Others)
        ensures
            kind.alphabet() == self.alphabet(),
            kind.lo() == rg@.start,
            kind.hi() == rg@.end,
    {
        match self {
            Case::Lower => Others::Lowers(rg),
            Case::Upper => Others::Uppers(rg),
            Case::Mixed => Others::LowersAndUppers(rg),
        }
    }
}

/// The sign as text: a minus where the number is signed, nothing else.
pub open spec fn sign_text(signed: bool) -> Seq<char> {
    if signed {
        seq!['-']
    } else {
        Seq::empty()
    }
}

/// What stands for a number of one digit: a zero never has a sign.
pub open spec fn single_text(digit: char, signed: bool) -> Seq<char> {
    if digit == '0' {
        seq!['0']
    } else {
        sign_text(signed).push(digit)
    }
}

/// `figures` are the digits of a number whose count of digits lies from
/// `lo` to `hi`, and `signed` says whether a minus stands before them. A
/// number of two digits or more has no zero in front. A minus stands only
/// where `negative` allows it, and never before a lone zero.
pub open spec fn is_number(lo: int, hi: int, negative: bool, signed: bool, figures: Seq<char>) -> bool {
    &&& figures.len() >= 1
    &&& lo <= figures.len() <= hi
    &&& forall|i: int| 0 <= i < figures.len() ==> '0' <= #[trigger] figures[i] <= '9'
    &&& signed ==> negative
    &&& if figures.len() == 1 {
        signed ==> figures[0] != '0'
    } else {
        figures[0] != '0'
    }
}

/// `text` is a number as `numeric_with_buf` writes it: empty where the count
/// of digits 0 was drawn, else an optional minus and the digits.
pub open spec fn is_numeric(lo: int, hi: int, negative: bool, text: Seq<char>) -> bool {
    if text.len() == 0 {
        lo == 0 && lo <= hi
    } else if text[0] == '-' {
        is_number(lo, hi, negative, true, text.skip(1))
    } else {
        is_number(lo, hi, negative, false, text)
    }
}

/// The sign and the digits of a number, written one after the other, are a
/// number as text.
pub proof fn number_is_numeric(lo: int, hi: int, negative: bool, signed: bool, figures: Seq<char>)
    requires
        is_number(lo, hi, negative, signed, figures),
    ensures
        is_numeric(lo, hi, negative, sign_text(signed) + figures),
{
    let text = sign_text(signed) + figures;
    if signed {
        assert(text[0] == '-');
        assert(text.skip(1) =~= figures);
    } else {
        assert(text =~= figures);
        assert(text[0] == figures[0]);
    }
}

/// A number written for the count of digits `cnt` is a number of every
/// range of counts that holds `cnt`, with every leave to sign that covers
/// the sign it was written with.
pub proof fn numeric_widens(lo: int, hi: int, negative: bool, cnt: int, signed: bool, text: Seq<char>)
    requires
        lo <= cnt <= hi,
        signed ==> negative,
        text.len() > 0,
        is_numeric(cnt, cnt, signed, text),
    ensures
        is_numeric(lo, hi, negative, text),
{
}

/// `text` is the number of one digit that the draws tell: the one draw gave
/// the index of the digit, and a minus stands before it where `signed` asks
/// for one and the digit is not zero.
pub open spec fn one_told(signed: bool, draws: Seq<Draw>, text: Seq<char>) -> bool {
    draws.len() == 1 && (draws[0] matches Draw::Index { len, got } && len == digits().len() && got
        < len && text == single_text(digits()[got as int], signed))
}

/// `text` is the number of `cnt` digits, two or more, that the draws tell:
/// a minus where `signed` asks for one, then a run of one digit that is not
/// zero, told by the first two draws, and a run of `cnt - 1` digits, told
/// by the draws after them.
pub open spec fn long_told(cnt: u32, signed: bool, draws: Seq<Draw>, text: Seq<char>) -> bool {
    let s = sign_text(signed).len() as int;
    &&& cnt >= 2
    &&& draws.len() == cnt + 2
    &&& text.len() == s + cnt
    &&& text.take(s) == sign_text(signed)
    &&& run_told(digits_non_zero(), 1, 1, draws.take(2), text.subrange(s, s + 1))
    &&& run_told(
        digits(),
        (cnt - 1) as u32,
        (cnt - 1) as u32,
        draws.skip(2),
        text.skip(s + 1),
    )
}

/// `text` is the number that the draws tell, after the count of digits
/// `cnt` was drawn and the sign was settled: nothing for the count 0, and
/// else the digits as `one_told` and `long_told` say.
pub open spec fn digits_told(cnt: u32, signed: bool, draws: Seq<Draw>, text: Seq<char>) -> bool {
    if cnt == 0 {
        draws.len() == 0 && text.len() == 0
    } else if cnt == 1 {
        one_told(signed, draws, text)
    } else {
        long_told(cnt, signed, draws, text)
    }
}

/// `text` is the number that the draws tell: the first draw gave the count
/// of digits out of the range from `lo` to `hi`; with `negative` the second
/// is the coin that decides the sign, heads for a minus; the draws after
/// these tell the digits.
pub open spec fn numeric_told(lo: u32, hi: u32, negative: bool, draws: Seq<Draw>, text: Seq<char>) -> bool {
    if negative {
        draws.len() >= 2 && (draws[0] matches Draw::Range { lo: from, hi: to, number } && from
            == lo && to == hi && (draws[1] matches Draw::Coin { heads } && digits_told(
            number,
            heads,
            draws.skip(2),
            text,
        )))
    } else {
        draws.len() >= 1 && (draws[0] matches Draw::Range { lo: from, hi: to, number } && from
            == lo && to == hi && digits_told(number, false, draws.skip(1), text))
    }
}

/// The literal for a draw among two: `true` for the first, `false` for the
/// second.
pub open spec fn boolean_of(idx: usize) -> Seq<char> {
    if idx == 0 {
        "true"@
    } else {
        "false"@
    }
}

/// `whole` and `part` are the two parts of the decimal that the draws
/// tell: the first `cut` draws tell the number before the point, and the
/// draws after them the run of digits behind it.
pub open spec fn decimal_told(
    lo: u32,
    hi: u32,
    part_lo: u32,
    part_hi: u32,
    negative: bool,
    draws: Seq<Draw>,
    cut: int,
    whole: Seq<char>,
    part: Seq<char>,
) -> bool {
    &&& 0 <= cut <= draws.len()
    &&& is_decimal(lo as int, hi as int, part_lo as int, part_hi as int, negative, whole, part)
    &&& numeric_told(lo, hi, negative, draws.take(cut), whole)
    &&& run_told(digits(), part_lo, part_hi, draws.skip(cut), part)
}

/// The draw of the count, the coin where the sign is open, and the draws
/// that tell the digits make up the draws that tell the number.
pub proof fn numeric_told_from(
    lo: u32,
    hi: u32,
    negative: bool,
    cnt: u32,
    heads: bool,
    rest: Seq<Draw>,
    text: Seq<char>,
)
    requires
        digits_told(cnt, negative && heads, rest, text),
    ensures
        negative ==> numeric_told(
            lo,
            hi,
            negative,
            seq![Draw::Range { lo, hi, number: cnt }, Draw::Coin { heads }] + rest,
            text,
        ),
        !negative ==> numeric_told(
            lo,
            hi,
            negative,
            seq![Draw::Range { lo, hi, number: cnt }] + rest,
            text,
        ),
{
    if negative {
        let all = seq![Draw::Range { lo, hi, number: cnt }, Draw::Coin { heads }] + rest;
        assert(all.skip(2) =~= rest);
    } else {
        let all = seq![Draw::Range { lo, hi, number: cnt }] + rest;
        assert(all.skip(1) =~= rest);
    }
}

/// A number never reads `-0`.
pub proof fn no_signed_zero(lo: int, hi: int, negative: bool, text: Seq<char>)
    requires
        is_numeric(lo, hi, negative, text),
    ensures
        text != seq!['-', '0'],
{
    if text == seq!['-', '0'] {
        assert(text.len() == 2);
        assert(text[0] == '-');
        let figures = text.skip(1);
        assert(figures.len() == 1);
        assert(figures[0] == text[1]);
    }
}

/// Appends a number of the one digit `digit`, with a minus before it where
/// `signed` asks for one and the digit is not zero.
pub fn push_single(buf: &mut String, digit: char, signed: bool)
    ensures
        final(buf)@ == old(buf)@ + single_text(digit, signed),
{
    if digit == '0' {
        buf.push('0');
        proof {
            assert(buf@ =~= old(buf)@ + single_text(digit, signed));
        }
    } else {
        if signed {
            buf.push('-');
        }
        buf.push(digit);
        proof {
            assert(buf@ =~= old(buf)@ + single_text(digit, signed));
        }
    }
}

impl<'a> Rg<'a> {
    /// What is written for the text of a number: nothing for the empty
    /// text, which has no decorators either; else the text between the
    /// decorators that `push_dec` asks for.
    pub open spec fn around(&self, push_dec: bool, text: Seq<char>) -> Seq<char> {
        if text.len() == 0 {
            Seq::empty()
        } else {
            self.wrap(push_dec, text)
        }
    }

    /// A number with a count of digits drawn from `rg`, between the
    /// decorators: see `numeric_with_buf`.
    pub fn numberic<R: RandomSource>(&self, rg: RangeInclusive<u32>, negative: bool, rng: &mut R) -> (res:
        Result<String, GenError>)
        ensures
            res is Err <==> rg@.start > rg@.end,
            res matches Err(e) ==> e == GenError::InvalidRange && final(rng).drawn() == old(
                rng,
            ).drawn(),
            res is Ok ==> grew(*old(rng), *final(rng)),
            res matches Ok(out) ==> exists|text: Seq<char>| #[trigger]
                is_numeric(rg@.start as int, rg@.end as int, negative, text) && numeric_told(
                    rg@.start,
                    rg@.end,
                    negative,
                    drew(*old(rng), *final(rng)),
                    text,
                ) && out@ == self.around(true, text),
    {
        let ghost lo = rg@.start;
        let ghost hi = rg@.end;
        let res = self.numeric_with_buf(String::new(), rg, negative, true, rng);
        proof {
            if res is Ok {
                let out = res->Ok_0@;
                let text = choose|text: Seq<char>| #[trigger]
                    is_numeric(lo as int, hi as int, negative, text) && numeric_told(
                        lo,
                        hi,
                        negative,
                        drew(*old(rng), *rng),
                        text,
                    ) && out == Seq::<char>::empty() + self.around(true, text);
                assert(out =~= self.around(true, text));
            }
        }
        res
    }

    /// Appends a number to `buf`.
    ///
    /// A count of digits is drawn from `rg`, and the number has that many
    /// digits. With the count 0 nothing is appended, not even a decorator.
    /// With the count 1 one digit is appended; with a greater count, a
    /// digit that is not zero and then the digits that are left. With
    /// `negative` a coin decides whether a minus stands in front; a lone
    /// zero never has one. The decorators go round the number where
    /// `push_dec` asks for them.
    pub fn numeric_with_buf<R: RandomSource>(
        &self,
        buf: String,
        rg: RangeInclusive<u32>,
        negative: bool,
        push_dec: bool,
        rng: &mut R,
    ) -> (res: Result<String, GenError>)
        ensures
            res is Err <==> rg@.start > rg@.end,
            res matches Err(e) ==> e == GenError::InvalidRange && final(rng).drawn() == old(
                rng,
            ).drawn(),
            res is Ok ==> grew(*old(rng), *final(rng)),
            res matches Ok(out) ==> exists|text: Seq<char>| #[trigger]
                is_numeric(rg@.start as int, rg@.end as int, negative, text) && numeric_told(
                    rg@.start,
                    rg@.end,
                    negative,
                    drew(*old(rng), *final(rng)),
                    text,
                ) && out@ == buf@ + self.around(push_dec, text),
    {
        let mut buf = buf;
        let ghost before = buf@;
        let ghost lo = rg@.start;
        let ghost hi = rg@.end;
        let cnt: u32 = match rand_range(&rg, rng) {
            Ok(cnt) => cnt,
            Err(e) => {
                return Err(e);
            },
        };
        let ghost counted = *rng;
        let mut signed: bool = false;
        if negative {
            signed = rng.coin();
        }
        let ghost settled = *rng;
        proof {
            grew_by_one(*old(rng), counted, Draw::Range { lo, hi, number: cnt });
            if negative {
                grew_by_one(counted, settled, Draw::Coin { heads: signed });
            } else {
                grew_not(counted, settled);
            }
            grew_twice(*old(rng), counted, settled);
        }
        if cnt == 0 {
            proof {
                let text = Seq::<char>::empty();
                grew_not(settled, *rng);
                numeric_told_from(lo, hi, negative, cnt, signed, drew(settled, *rng), text);
                assert(drew(*old(rng), *rng) =~= drew(*old(rng), settled) + drew(settled, *rng));
                assert(is_numeric(lo as int, hi as int, negative, text));
                assert(buf@ =~= before + self.around(push_dec, text));
            }
            return Ok(buf);
        }
        self.push_left(&mut buf, push_dec);
        let ghost mid = buf@;
        if cnt == 1 {
            self.push_one(&mut buf, signed, rng);
        } else {
            self.push_long(&mut buf, cnt, signed, rng);
        }
        let ghost text = buf@.skip(mid.len() as int);
        self.push_right(&mut buf, push_dec);
        proof {
            numeric_widens(lo as int, hi as int, negative, cnt as int, signed, text);
            assert(buf@ =~= before + self.wrap(push_dec, text));
            grew_twice(*old(rng), settled, *rng);
            numeric_told_from(lo, hi, negative, cnt, signed, drew(settled, *rng), text);
            assert(drew(*old(rng), settled) =~= if negative {
                seq![Draw::Range { lo, hi, number: cnt }, Draw::Coin { heads: signed }]
            } else {
                seq![Draw::Range { lo, hi, number: cnt }]
            });
        }
        Ok(buf)
    }

    /// Appends a number of one digit, with a minus before it where `signed`
    /// asks for one and the digit drawn is not zero.
    pub fn push_one<R: RandomSource>(&self, buf: &mut String, signed: bool, rng: &mut R)
        ensures
            final(buf)@ == old(buf)@ + final(buf)@.skip(old(buf)@.len() as int),
            final(buf)@.len() > old(buf)@.len(),
            is_numeric(1, 1, signed, final(buf)@.skip(old(buf)@.len() as int)),
            grew(*old(rng), *final(rng)),
            one_told(
                signed,
                drew(*old(rng), *final(rng)),
                final(buf)@.skip(old(buf)@.len() as int),
            ),
    {
        let kind = Others::Digits(RangeInclusive::new(1, 1));
        let (_, size) = kind.letters();
        let idx: usize = rng.index(size);
        let digit: char = kind.letter(idx);
        push_single(buf, digit, signed);
        proof {
            grew_by_one(*old(rng), *rng, Draw::Index { len: size, got: idx });
            digits_are(digit);
            let text = buf@.skip(old(buf)@.len() as int);
            assert(text =~= single_text(digit, signed));
            assert(buf@ =~= old(buf)@ + text);
            let sign = signed && digit != '0';
            assert(single_text(digit, signed) =~= sign_text(sign) + seq![digit]);
            assert(is_number(1, 1, signed, sign, seq![digit]));
            number_is_numeric(1, 1, signed, sign, seq![digit]);
        }
    }

    /// Appends a number of `cnt` digits, two or more: a minus where `signed`
    /// asks for one, a digit that is not zero, and `cnt - 1` digits.
    pub fn push_long<R: RandomSource>(&self, buf: &mut String, cnt: u32, signed: bool, rng: &mut R)
        requires
            cnt >= 2,
        ensures
            final(buf)@ == old(buf)@ + final(buf)@.skip(old(buf)@.len() as int),
            final(buf)@.len() > old(buf)@.len(),
            is_numeric(cnt as int, cnt as int, signed, final(buf)@.skip(old(buf)@.len() as int)),
            grew(*old(rng), *final(rng)),
            long_told(
                cnt,
                signed,
                drew(*old(rng), *final(rng)),
                final(buf)@.skip(old(buf)@.len() as int),
            ),
    {
        if signed {
            buf.push('-');
        }
        let ghost signed_mid = buf@;
        let first = Others::DigitsNonZero(RangeInclusive::new(1, 1));
        let rest = Others::Digits(RangeInclusive::new(cnt - 1, cnt - 1));
        let one = self.push_others(buf, &first, rng);
        let ghost first_mid = buf@;
        let ghost between = *rng;
        let more = self.push_others(buf, &rest, rng);
        proof {
            assert(one is Ok && more is Ok);
            let head = first_mid.skip(signed_mid.len() as int);
            let tail = buf@.skip(first_mid.len() as int);
            let figures = head + tail;
            let text = buf@.skip(old(buf)@.len() as int);
            assert(signed_mid =~= old(buf)@ + sign_text(signed));
            assert(text =~= sign_text(signed) + figures);
            assert(buf@ =~= old(buf)@ + text);
            digits_non_zero_are(head[0]);
            assert(figures[0] == head[0]);
            assert forall|i: int| 0 <= i < figures.len() implies '0' <= #[trigger] figures[i]
                <= '9' by {
                if i >= 1 {
                    assert(figures[i] == tail[i - 1]);
                    digits_are(tail[i - 1]);
                }
            }
            assert(is_number(cnt as int, cnt as int, signed, signed, figures));
            number_is_numeric(cnt as int, cnt as int, signed, signed, figures);
            grew_twice(*old(rng), between, *rng);
            let draws = drew(*old(rng), *rng);
            let s = sign_text(signed).len() as int;
            assert(draws.take(2) =~= drew(*old(rng), between));
            assert(draws.skip(2) =~= drew(between, *rng));
            assert(text.take(s) =~= sign_text(signed));
            assert(text.subrange(s, s + 1) =~= head);
            assert(text.skip(s + 1) =~= tail);
        }
    }

    /// A word of letters of the given case, of a length drawn from `rg`,
    /// between the decorators.
    pub fn word<R: RandomSource>(&self, rg: RangeInclusive<u32>, case: Case, rng: &mut R) -> (res:
        Result<String, GenError>)
        ensures
            res is Err <==> rg@.start > rg@.end,
            res matches Err(e) ==> e == GenError::InvalidRange && final(rng).drawn() == old(
                rng,
            ).drawn(),
            res is Ok ==> grew(*old(rng), *final(rng)),
            res matches Ok(out) ==> exists|run: Seq<char>| #[trigger]
                is_run(case.alphabet(), rg@.start as int, rg@.end as int, run) && run_told(
                    case.alphabet(),
                    rg@.start,
                    rg@.end,
                    drew(*old(rng), *final(rng)),
                    run,
                ) && out@ == self.wrap(true, run),
    {
        let ghost lo = rg@.start;
        let ghost hi = rg@.end;
        let res = self.word_with_buf(String::new(), rg, case, rng);
        proof {
            if res is Ok {
                let out = res->Ok_0@;
                let run = choose|run: Seq<char>| #[trigger]
                    is_run(case.alphabet(), lo as int, hi as int, run) && run_told(
                        case.alphabet(),
                        lo,
                        hi,
                        drew(*old(rng), *rng),
                        run,
                    ) && out == Seq::<char>::empty() + self.wrap(true, run);
                assert(out =~= self.wrap(true, run));
            }
        }
        res
    }

    /// Appends to `buf` a word of letters of the given case, of a length
    /// drawn from `rg`, between the decorators. `Case::Upper` gives capital
    /// letters.
    pub fn word_with_buf<R: RandomSource>(
        &self,
        buf: String,
        rg: RangeInclusive<u32>,
        case: Case,
        rng: &mut R,
    ) -> (res: Result<String, GenError>)
        ensures
            res is Err <==> rg@.start > rg@.end,
            res matches Err(e) ==> e == GenError::InvalidRange && final(rng).drawn() == old(
                rng,
            ).drawn(),
            res is Ok ==> grew(*old(rng), *final(rng)),
            res matches Ok(out) ==> exists|run: Seq<char>| #[trigger]
                is_run(case.alphabet(), rg@.start as int, rg@.end as int, run) && run_told(
                    case.alphabet(),
                    rg@.start,
                    rg@.end,
                    drew(*old(rng), *final(rng)),
                    run,
                ) && out@ == buf@ + self.wrap(true, run),
    {
        let mut buf = buf;
        let ghost before = buf@;
        let kind = case.letters(rg);
        match kind.check_lengths() {
            Err(e) => {
                return Err(e);
            },
            Ok(()) => {},
        }
        self.push_left(&mut buf, true);
        let ghost mid = buf@;
        match self.push_others(&mut buf, &kind, rng) {
            Err(e) => {
                return Err(e);
            },
            Ok(()) => {},
        }
        let ghost run = buf@.skip(mid.len() as int);
        self.push_right(&mut buf, true);
        proof {
            assert(buf@ =~= before + self.wrap(true, run));
            assert(is_run(case.alphabet(), kind.lo() as int, kind.hi() as int, run));
        }
        Ok(buf)
    }

    /// One of the two literals `true` and `false`, between the decorators:
    /// see `boolean_with_buf`.
    pub fn boolean<R: RandomSource>(&self, rng: &mut R) -> (out: String)
        ensures
            out@ == self.wrap(true, "true"@) || out@ == self.wrap(true, "false"@),
            grew(*old(rng), *final(rng)),
            drew(*old(rng), *final(rng)).len() == 1,
            drew(*old(rng), *final(rng))[0] matches Draw::Index { len, got } && len == 2 && out@
                == self.wrap(true, boolean_of(got)),
    {
        let out = self.boolean_with_buf(String::new(), rng);
        proof {
            assert(Seq::<char>::empty() + self.wrap(true, "true"@) =~= self.wrap(true, "true"@));
            assert(Seq::<char>::empty() + self.wrap(true, "false"@) =~= self.wrap(true, "false"@));
        }
        out
    }

    /// Appends to `buf` one of the two literals `true` and `false`, between
    /// the decorators: `true` where the source gives the first of two,
    /// `false` where it gives the second.
    pub fn boolean_with_buf<R: RandomSource>(&self, buf: String, rng: &mut R) -> (out: String)
        ensures
            out@ == buf@ + self.wrap(true, "true"@) || out@ == buf@ + self.wrap(true, "false"@),
            grew(*old(rng), *final(rng)),
            drew(*old(rng), *final(rng)).len() == 1,
            drew(*old(rng), *final(rng))[0] matches Draw::Index { len, got } && len == 2 && out@
                == buf@ + self.wrap(true, boolean_of(got)),
    {
        let mut buf = buf;
        let ghost before = buf@;
        let idx: usize = rng.index(2);
        let word: &str = boolean_text(idx);
        self.push_left(&mut buf, true);
        buf.push_str(word);
        self.push_right(&mut buf, true);
        proof {
            grew_by_one(*old(rng), *rng, Draw::Index { len: 2, got: idx });
            assert(buf@ =~= before + self.wrap(true, word@));
        }
        buf
    }

    /// Appends to `buf` a fixed-point decimal, between the decorators: a
    /// number as `numeric_with_buf` writes it with a count of digits from
    /// `int_rg` and without decorators of its own, a point, and a run of
    /// digits of a length from `float_rg`.
    pub fn float_with_buf<R: RandomSource>(
        &self,
        buf: String,
        int_rg: RangeInclusive<u32>,
        float_rg: RangeInclusive<u32>,
        negative: bool,
        rng: &mut R,
    ) -> (res: Result<String, GenError>)
        ensures
            res is Err <==> int_rg@.start > int_rg@.end || float_rg@.start > float_rg@.end,
            res matches Err(e) ==> e == GenError::InvalidRange && final(rng).drawn() == old(
                rng,
            ).drawn(),
            res is Ok ==> grew(*old(rng), *final(rng)),
            res matches Ok(out) ==> exists|whole: Seq<char>, part: Seq<char>, cut: int|
                #![trigger decimal_told(int_rg@.start, int_rg@.end, float_rg@.start, float_rg@.end, negative, drew(*old(rng), *final(rng)), cut, whole, part)]
                decimal_told(
                    int_rg@.start,
                    int_rg@.end,
                    float_rg@.start,
                    float_rg@.end,
                    negative,
                    drew(*old(rng), *final(rng)),
                    cut,
                    whole,
                    part,
                ) && out@ == buf@ + self.wrap(true, decimal_text(whole, part)),
    {
        let mut buf = buf;
        let ghost before = buf@;
        let ghost lo = int_rg@.start;
        let ghost hi = int_rg@.end;
        let part_kind = Others::Digits(float_rg);
        match part_kind.check_lengths() {
            Err(e) => {
                return Err(e);
            },
            Ok(()) => {},
        }
        self.push_left(&mut buf, true);
        let ghost mid = buf@;
        buf = match self.numeric_with_buf(buf, int_rg, negative, false, rng) {
            Ok(buf) => buf,
            Err(e) => {
                return Err(e);
            },
        };
        let ghost between = *rng;
        let ghost whole_mid = buf@;
        buf.push('.');
        let ghost point_mid = buf@;
        match self.push_others(&mut buf, &part_kind, rng) {
            Err(e) => {
                return Err(e);
            },
            Ok(()) => {},
        }
        let ghost full = buf@;
        let ghost body = buf@.skip(mid.len() as int);
        self.push_right(&mut buf, true);
        proof {
            let whole = choose|text: Seq<char>| #[trigger]
                is_numeric(lo as int, hi as int, negative, text) && numeric_told(
                    lo,
                    hi,
                    negative,
                    drew(*old(rng), between),
                    text,
                ) && whole_mid == mid + self.around(false, text);
            let part = full.skip(point_mid.len() as int);
            assert(self.around(false, whole) =~= whole);
            assert(whole_mid =~= mid + whole);
            assert(point_mid =~= mid + whole.push('.'));
            assert(full =~= mid + decimal_text(whole, part));
            assert(body =~= decimal_text(whole, part));
            assert(buf@ =~= before + self.wrap(true, body));
            grew_twice(*old(rng), between, *rng);
            let draws = drew(*old(rng), *rng);
            let cut = drew(*old(rng), between).len() as int;
            assert(draws.take(cut) =~= drew(*old(rng), between));
            assert(draws.skip(cut) =~= drew(between, *rng));
            assert(decimal_told(
                lo,
                hi,
                part_kind.lo(),
                part_kind.hi(),
                negative,
                draws,
                cut,
                whole,
                part,
            ));
        }
        Ok(buf)
    }

    /// A fixed-point decimal between the decorators: see `float_with_buf`.
    pub fn float<R: RandomSource>(
        &self,
        int_rg: RangeInclusive<u32>,
        float_rg: RangeInclusive<u32>,
        negative: bool,
        rng: &mut R,
    ) -> (res: Result<String, GenError>)
        ensures
            res is Err <==> int_rg@.start > int_rg@.end || float_rg@.start > float_rg@.end,
            res matches Err(e) ==> e == GenError::InvalidRange && final(rng).drawn() == old(
                rng,
            ).drawn(),
            res is Ok ==> grew(*old(rng), *final(rng)),
            res matches Ok(out) ==> exists|whole: Seq<char>, part: Seq<char>, cut: int|
                #![trigger decimal_told(int_rg@.start, int_rg@.end, float_rg@.start, float_rg@.end, negative, drew(*old(rng), *final(rng)), cut, whole, part)]
                decimal_told(
                    int_rg@.start,
                    int_rg@.end,
                    float_rg@.start,
                    float_rg@.end,
                    negative,
                    drew(*old(rng), *final(rng)),
                    cut,
                    whole,
                    part,
                ) && out@ == self.wrap(true, decimal_text(whole, part)),
    {
        let ghost lo = int_rg@.start;
        let ghost hi = int_rg@.end;
        let ghost flo = float_rg@.start;
        let ghost fhi = float_rg@.end;
        let res = self.float_with_buf(String::new(), int_rg, float_rg, negative, rng);
        proof {
            if res is Ok {
                let out = res->Ok_0@;
                let draws = drew(*old(rng), *rng);
                let (whole, part, cut) = choose|whole: Seq<char>, part: Seq<char>, cut: int|
                    #![trigger decimal_told(lo, hi, flo, fhi, negative, draws, cut, whole, part)]
                    decimal_told(lo, hi, flo, fhi, negative, draws, cut, whole, part) && out
                        == Seq::<char>::empty() + self.wrap(true, decimal_text(whole, part));
                assert(out =~= self.wrap(true, decimal_text(whole, part)));
            }
        }
        res
    }
}

/// The literal for a draw among two: `true` for the first, `false` for the
/// second.
pub fn boolean_text(idx: usize) -> (word: &'static str)
    ensures
        word@ == boolean_of(idx),
{
    if idx == 0 {
        "true"
    } else {
        "false"
    }
}

/// `whole` is the part before the point and `part` the part after it of a
/// fixed-point decimal: a number with a count of digits from `lo` to `hi`,
/// and a run of digits of a length from `part_lo` to `part_hi`.
pub open spec fn is_decimal(
    lo: int,
    hi: int,
    part_lo: int,
    part_hi: int,
    negative: bool,
    whole: Seq<char>,
    part: Seq<char>,
) -> bool {
    is_numeric(lo, hi, negative, whole) && is_run(digits(), part_lo, part_hi, part)
}

/// The two parts of a fixed-point decimal with the point between them.
pub open spec fn decimal_text(whole: Seq<char>, part: Seq<char>) -> Seq<char> {
    whole.push('.') + part
}

} // verus!
