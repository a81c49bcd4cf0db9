//! What to generate: the vocabulary of modes, and the texts that each may
//! stand for.

use crate::data::{holds, Lexicon};
use crate::error::GenError;
use crate::source::Draw;
use std::ops::RangeInclusive;
use vstd::prelude::*;

verus! {

/// A run of characters of one fixed alphabet. The range gives the least and
/// the greatest length of the run, both inclusive.
#[derive(Debug, PartialEq, Eq)]
pub enum Others {
    Lowers(RangeInclusive<u32>),
    Uppers(RangeInclusive<u32>),
    LowersAndUppers(RangeInclusive<u32>),
    Digits(RangeInclusive<u32>),
    DigitsNonZero(RangeInclusive<u32>),
}

/// What to generate.
#[derive(Debug, PartialEq, Eq)]
pub enum Mode<'a> {
    Noun,
    Verb,
    Pred,
    Adj,
    Adverb,
    /// Subject, verb, object.
    SVO,
    /// Subject, link verb, predicative.
    SLP,
    /// One of the caller's own candidates.
    Diy(&'a [&'a str]),
    Others(Others),
    /// An adverb, the separator, then subject, verb, object.
    ASVO(&'a str),
    /// Subject, verb, object, the separator, then an adverb.
    SVOA(&'a str),
    /// An adverb, the separator, then subject, link verb, predicative.
    ASLP(&'a str),
    /// Subject, link verb, predicative, the separator, then an adverb.
    SLPA(&'a str),
    /// One of the kinds that `leaf_kind` lists, chosen at random.
    Rand,
}

pub open spec fn lowers() -> Seq<char> {
    "qwertyuiopasdfghjklzxcvbnm"@
}

pub open spec fn uppers() -> Seq<char> {
    "QWERTYUIOPASDFGHJKLZXCVBNM"@
}

pub open spec fn lowers_and_uppers() -> Seq<char> {
    "qwertyuiopasdfghjklzxcvbnmQWERTYUIOPASDFGHJKLZXCVBNM"@
}

pub open spec fn digits() -> Seq<char> {
    "0123456789"@
}

pub open spec fn digits_non_zero() -> Seq<char> {
    "123456789"@
}

/// `text` is a run over `alphabet` of a length from `lo` to `hi`.
pub open spec fn is_run(alphabet: Seq<char>, lo: int, hi: int, text: Seq<char>) -> bool {
    &&& lo <= text.len() <= hi
    &&& forall|i: int| 0 <= i < text.len() ==> alphabet.contains(#[trigger] text[i])
}

/// The digits are the characters from `0` to `9`.
pub proof fn digits_are(c: char)
    ensures
        digits().contains(c) <==> '0' <= c <= '9',
{
    reveal_strlit("0123456789");
    let s = digits();
    if s.contains(c) {
        let i = choose|i: int| 0 <= i < s.len() && s[i] == c;
        assert(s[i] == c);
    }
    if '0' <= c <= '9' {
        let i = c as int - '0' as int;
        assert(s[i] == c);
    }
}

/// The digits without zero are the characters from `1` to `9`.
pub proof fn digits_non_zero_are(c: char)
    ensures
        digits_non_zero().contains(c) <==> '1' <= c <= '9',
{
    reveal_strlit("123456789");
    let s = digits_non_zero();
    if s.contains(c) {
        let i = choose|i: int| 0 <= i < s.len() && s[i] == c;
        assert(s[i] == c);
    }
    if '1' <= c <= '9' {
        let i = c as int - '1' as int;
        assert(s[i] == c);
    }
}

/// Every character of the three alphabets of letters is a letter of the
/// Latin alphabet, in the case that the alphabet is named after.
pub proof fn letters_are(c: char)
    ensures
        lowers().contains(c) ==> 'a' <= c <= 'z',
        uppers().contains(c) ==> 'A' <= c <= 'Z',
        lowers_and_uppers().contains(c) ==> 'a' <= c <= 'z' || 'A' <= c <= 'Z',
{
    reveal_strlit("qwertyuiopasdfghjklzxcvbnm");
    reveal_strlit("QWERTYUIOPASDFGHJKLZXCVBNM");
    reveal_strlit("qwertyuiopasdfghjklzxcvbnmQWERTYUIOPASDFGHJKLZXCVBNM");
    if lowers().contains(c) {
        let i = choose|i: int| 0 <= i < lowers().len() && lowers()[i] == c;
        assert(lowers()[i] == c);
    }
    if uppers().contains(c) {
        let i = choose|i: int| 0 <= i < uppers().len() && uppers()[i] == c;
        assert(uppers()[i] == c);
    }
    if lowers_and_uppers().contains(c) {
        let i = choose|i: int|
            0 <= i < lowers_and_uppers().len() && lowers_and_uppers()[i] == c;
        assert(lowers_and_uppers()[i] == c);
    }
}

impl Clone for Others {
    fn clone(&self) -> (copy: Self)
        ensures
            copy.same(*self),
    {
        match self {
            Others::Lowers(r) => Others::Lowers(RangeInclusive::new(*r.start(), *r.end())),
            Others::Uppers(r) => Others::Uppers(RangeInclusive::new(*r.start(), *r.end())),
            Others::LowersAndUppers(r) => Others::LowersAndUppers(
                RangeInclusive::new(*r.start(), *r.end()),
            ),
            Others::Digits(r) => Others::Digits(RangeInclusive::new(*r.start(), *r.end())),
            Others::DigitsNonZero(r) => Others::DigitsNonZero(
                RangeInclusive::new(*r.start(), *r.end()),
            ),
        }
    }
}

impl<'a> Clone for Mode<'a> {
    fn clone(&self) -> (copy: Self)
        ensures
            copy.same(*self),
    {
        match self {
            Mode::Noun => Mode::Noun,
            Mode::Verb => Mode::Verb,
            Mode::Pred => Mode::Pred,
            Mode::Adj => Mode::Adj,
            Mode::Adverb => Mode::Adverb,
            Mode::SVO => Mode::SVO,
            Mode::SLP => Mode::SLP,
            Mode::Diy(list) => Mode::Diy(list),
            Mode::Others(o) => Mode::Others(o.clone()),
            Mode::ASVO(sep) => Mode::ASVO(sep),
            Mode::SVOA(sep) => Mode::SVOA(sep),
            Mode::ASLP(sep) => Mode::ASLP(sep),
            Mode::SLPA(sep) => Mode::SLPA(sep),
            Mode::Rand => Mode::Rand,
        }
    }
}

/// The draw `d` is an index into `list`.
pub open spec fn fits(list: Seq<&str>, d: Draw) -> bool {
    d matches Draw::Index { len, got } && len == list.len() && got < list.len()
}

/// The entry of `list` at the index that the draw `d` gave.
pub open spec fn word_at(list: Seq<&str>, d: Draw) -> Seq<char> {
    match d {
        Draw::Index { got, .. } => list[got as int]@,
        _ => Seq::empty(),
    }
}

/// `draws` is one draw, of an index into `list`, and `text` is the entry
/// there.
pub open spec fn picked(list: Seq<&str>, draws: Seq<Draw>, text: Seq<char>) -> bool {
    draws.len() == 1 && fits(list, draws[0]) && text == word_at(list, draws[0])
}

/// The draw `d` is an index into `alphabet`, and `c` is the character
/// there.
pub open spec fn letter_at(alphabet: Seq<char>, d: Draw, c: char) -> bool {
    d matches Draw::Index { len, got } && len == alphabet.len() && got < alphabet.len() && c
        == alphabet[got as int]
}

/// `text` is the run over `alphabet` that the draws tell: the first draw
/// gave its length out of the range from `lo` to `hi`, and each draw after
/// it the index of one character, in order.
pub open spec fn run_told(alphabet: Seq<char>, lo: u32, hi: u32, draws: Seq<Draw>, text: Seq<char>) -> bool {
    &&& draws.len() == text.len() + 1
    &&& draws[0] == (Draw::Range { lo, hi, number: text.len() as u32 })
    &&& forall|k: int|
        0 <= k < text.len() ==> letter_at(alphabet, draws[k + 1], #[trigger] text[k])
}

/// The three draws from place `from` on are indices of a noun, a verb and
/// a noun.
pub open spec fn svo_fits(words: Lexicon, draws: Seq<Draw>, from: int) -> bool {
    &&& 0 <= from && from + 3 <= draws.len()
    &&& fits(words.nouns@, draws[from])
    &&& fits(words.verbs@, draws[from + 1])
    &&& fits(words.nouns@, draws[from + 2])
}

/// The noun, the verb and the noun at the indices that the three draws
/// from place `from` on gave.
pub open spec fn svo_text(words: Lexicon, draws: Seq<Draw>, from: int) -> Seq<char> {
    word_at(words.nouns@, draws[from]) + word_at(words.verbs@, draws[from + 1]) + word_at(
        words.nouns@,
        draws[from + 2],
    )
}

/// The three draws from place `from` on are indices of a noun, a link verb
/// and a predicative.
pub open spec fn slp_fits(words: Lexicon, draws: Seq<Draw>, from: int) -> bool {
    &&& 0 <= from && from + 3 <= draws.len()
    &&& fits(words.nouns@, draws[from])
    &&& fits(words.links@, draws[from + 1])
    &&& fits(words.preds@, draws[from + 2])
}

/// The noun, the link verb and the predicative at the indices that the
/// three draws from place `from` on gave.
pub open spec fn slp_text(words: Lexicon, draws: Seq<Draw>, from: int) -> Seq<char> {
    word_at(words.nouns@, draws[from]) + word_at(words.links@, draws[from + 1]) + word_at(
        words.preds@,
        draws[from + 2],
    )
}

impl Others {
    /// `text` is the run that the draws tell: the first draw gave its
    /// length, and each draw after it the index of one character, in
    /// order.
    pub open spec fn told(&self, draws: Seq<Draw>, text: Seq<char>) -> bool {
        run_told(self.alphabet(), self.lo(), self.hi(), draws, text)
    }

    /// The two are runs over the same alphabet with the same bounds.
    pub open spec fn same(&self, other: Others) -> bool {
        self.alphabet() == other.alphabet() && self.lo() == other.lo() && self.hi() == other.hi()
    }

    /// The characters that a run of this kind is made of.
    pub open spec fn alphabet(&self) -> Seq<char> {
        match self {
            Others::Lowers(_) => lowers(),
            Others::Uppers(_) => uppers(),
            Others::LowersAndUppers(_) => lowers_and_uppers(),
            Others::Digits(_) => digits(),
            Others::DigitsNonZero(_) => digits_non_zero(),
        }
    }

    /// The least length of a run.
    pub open spec fn lo(&self) -> u32 {
        match self {
            Others::Lowers(r) => r@.start,
            Others::Uppers(r) => r@.start,
            Others::LowersAndUppers(r) => r@.start,
            Others::Digits(r) => r@.start,
            Others::DigitsNonZero(r) => r@.start,
        }
    }

    /// The greatest length of a run.
    pub open spec fn hi(&self) -> u32 {
        match self {
            Others::Lowers(r) => r@.end,
            Others::Uppers(r) => r@.end,
            Others::LowersAndUppers(r) => r@.end,
            Others::Digits(r) => r@.end,
            Others::DigitsNonZero(r) => r@.end,
        }
    }

    /// The range of lengths.
    pub fn lengths(&self) -> (r: &RangeInclusive<u32>)
        ensures
            r@.start == self.lo(),
            r@.end == self.hi(),
    {
        match self {
            Others::Lowers(r) => r,
            Others::Uppers(r) => r,
            Others::LowersAndUppers(r) => r,
            Others::Digits(r) => r,
            Others::DigitsNonZero(r) => r,
        }
    }

    /// `InvalidRange` where the least length lies above the greatest.
    pub fn check_lengths(&self) -> (res: Result<(), GenError>)
        ensures
            res is Err <==> self.lo() > self.hi(),
            res matches Err(e) ==> e == GenError::InvalidRange,
    {
        let r = self.lengths();
        if *r.start() > *r.end() {
            Err(GenError::InvalidRange)
        } else {
            Ok(())
        }
    }

    /// The alphabet as text, with its size. No alphabet is empty.
    pub fn letters(&self) -> (res: (&'static str, usize))
        ensures
            res.0@ == self.alphabet(),
            res.1 == self.alphabet().len(),
            res.1 > 0,
    {
        proof {
            reveal_strlit("qwertyuiopasdfghjklzxcvbnm");
            reveal_strlit("QWERTYUIOPASDFGHJKLZXCVBNM");
            reveal_strlit("qwertyuiopasdfghjklzxcvbnmQWERTYUIOPASDFGHJKLZXCVBNM");
            reveal_strlit("0123456789");
            reveal_strlit("123456789");
        }
        match self {
            Others::Lowers(_) => ("qwertyuiopasdfghjklzxcvbnm", 26),
            Others::Uppers(_) => ("QWERTYUIOPASDFGHJKLZXCVBNM", 26),
            Others::LowersAndUppers(_) => (
                "qwertyuiopasdfghjklzxcvbnmQWERTYUIOPASDFGHJKLZXCVBNM",
                52,
            ),
            Others::Digits(_) => ("0123456789", 10),
            Others::DigitsNonZero(_) => ("123456789", 9),
        }
    }

    /// The character at place `idx` of the alphabet.
    pub fn letter(&self, idx: usize) -> (c: char)
        requires
            idx < self.alphabet().len(),
        ensures
            c == self.alphabet()[idx as int],
    {
        let (text, _) = self.letters();
        text.get_char(idx)
    }

    /// `text` is a run that this kind may give.
    pub open spec fn speaks(&self, text: Seq<char>) -> bool {
        is_run(self.alphabet(), self.lo() as int, self.hi() as int, text)
    }
}

/// How many kinds `Mode::Rand` chooses among.
pub const LEAF_KINDS: usize = 7;

/// The kinds that `Mode::Rand` chooses among, in order. The list stands by
/// itself: it holds no kind that takes an argument, nor `Rand`.
pub open spec fn eligible<'a>(idx: int) -> Mode<'a> {
    if idx == 0 {
        Mode::Noun
    } else if idx == 1 {
        Mode::Verb
    } else if idx == 2 {
        Mode::Pred
    } else if idx == 3 {
        Mode::Adj
    } else if idx == 4 {
        Mode::Adverb
    } else if idx == 5 {
        Mode::SVO
    } else {
        Mode::SLP
    }
}

/// The kind at place `idx` of the list that `Mode::Rand` chooses from.
pub fn leaf_kind<'a>(idx: usize) -> (kind: Mode<'a>)
    requires
        idx < LEAF_KINDS,
    ensures
        kind == eligible::<'a>(idx as int),
        kind.is_plain(),
{
    if idx == 0 {
        Mode::Noun
    } else if idx == 1 {
        Mode::Verb
    } else if idx == 2 {
        Mode::Pred
    } else if idx == 3 {
        Mode::Adj
    } else if idx == 4 {
        Mode::Adverb
    } else if idx == 5 {
        Mode::SVO
    } else {
        Mode::SLP
    }
}

/// `text` is a noun, a verb and a noun of the vocabulary, in this order.
pub open spec fn is_svo(words: Lexicon, text: Seq<char>) -> bool {
    exists|a: Seq<char>, b: Seq<char>, c: Seq<char>|
        #![trigger holds(words.nouns@, a), holds(words.verbs@, b), holds(words.nouns@, c)]
        holds(words.nouns@, a) && holds(words.verbs@, b) && holds(words.nouns@, c) && text == a + b
            + c
}

/// `text` is a noun, a link verb and a predicative of the vocabulary, in
/// this order.
pub open spec fn is_slp(words: Lexicon, text: Seq<char>) -> bool {
    exists|a: Seq<char>, b: Seq<char>, c: Seq<char>|
        #![trigger holds(words.nouns@, a), holds(words.links@, b), holds(words.preds@, c)]
        holds(words.nouns@, a) && holds(words.links@, b) && holds(words.preds@, c) && text == a + b
            + c
}

/// `text` is an adverb of the vocabulary, then `sep`, then `tail`.
pub open spec fn adverb_first(words: Lexicon, sep: Seq<char>, tail: Seq<char>, text: Seq<char>) -> bool {
    exists|a: Seq<char>| #[trigger] holds(words.adverbs@, a) && text == a + sep + tail
}

/// `text` is `head`, then `sep`, then an adverb of the vocabulary.
pub open spec fn adverb_last(words: Lexicon, head: Seq<char>, sep: Seq<char>, text: Seq<char>) -> bool {
    exists|a: Seq<char>| #[trigger] holds(words.adverbs@, a) && text == head + sep + a
}

impl<'a> Mode<'a> {
    /// The two are the same mode: runs are the same where their alphabets
    /// and bounds are.
    pub open spec fn same(&self, other: Mode<'a>) -> bool {
        match (*self, other) {
            (Mode::Others(a), Mode::Others(b)) => a.same(b),
            _ => *self == other,
        }
    }

    /// Every mode but `Rand`.
    pub open spec fn is_plain(&self) -> bool {
        !(self is Rand)
    }

    /// The modes that stand for one entry of a list.
    pub open spec fn is_word(&self) -> bool {
        self is Noun || self is Verb || self is Pred || self is Adj || self is Adverb || self is Diy
    }

    /// The list that a word mode picks from.
    pub open spec fn list(&self, words: Lexicon) -> Seq<&str> {
        match self {
            Mode::Noun => words.nouns@,
            Mode::Verb => words.verbs@,
            Mode::Pred => words.preds@,
            Mode::Adj => words.adjs@,
            Mode::Adverb => words.adverbs@,
            Mode::Diy(list) => list@,
            _ => Seq::empty(),
        }
    }

    /// The list that a word mode picks from; none for the other modes.
    pub fn word_list<'b>(&'b self, words: &Lexicon<'a>) -> (res: Option<&'a [&'a str]>)
        ensures
            res is Some <==> self.is_word(),
            res matches Some(list) ==> list@ == self.list(*words),
    {
        match self {
            Mode::Noun => Some(words.nouns),
            Mode::Verb => Some(words.verbs),
            Mode::Pred => Some(words.preds),
            Mode::Adj => Some(words.adjs),
            Mode::Adverb => Some(words.adverbs),
            Mode::Diy(list) => Some(list),
            _ => None,
        }
    }

    /// Why a plain mode cannot be resolved against `words`, if it cannot.
    pub open spec fn fault(&self, words: Lexicon) -> Option<GenError> {
        match self {
            Mode::Others(o) => if o.lo() > o.hi() {
                Some(GenError::InvalidRange)
            } else {
                None
            },
            Mode::SVO => if words.nouns@.len() == 0 || words.verbs@.len() == 0 {
                Some(GenError::InvalidArgument)
            } else {
                None
            },
            Mode::SLP => if words.nouns@.len() == 0 || words.links@.len() == 0 || words.preds@.len()
                == 0 {
                Some(GenError::InvalidArgument)
            } else {
                None
            },
            Mode::ASVO(_) | Mode::SVOA(_) => if words.adverbs@.len() == 0 || words.nouns@.len() == 0
                || words.verbs@.len() == 0 {
                Some(GenError::InvalidArgument)
            } else {
                None
            },
            Mode::ASLP(_) | Mode::SLPA(_) => if words.adverbs@.len() == 0 || words.nouns@.len() == 0
                || words.links@.len() == 0 || words.preds@.len() == 0 {
                Some(GenError::InvalidArgument)
            } else {
                None
            },
            Mode::Rand => None,
            _ => if self.list(words).len() == 0 {
                Some(GenError::InvalidArgument)
            } else {
                None
            },
        }
    }

    /// `text` is one of the texts that a plain mode stands for.
    pub open spec fn plain_speaks(&self, words: Lexicon, text: Seq<char>) -> bool {
        match self {
            Mode::Others(o) => o.speaks(text),
            Mode::SVO => is_svo(words, text),
            Mode::SLP => is_slp(words, text),
            Mode::ASVO(sep) => exists|tail: Seq<char>| #[trigger]
                is_svo(words, tail) && adverb_first(words, sep@, tail, text),
            Mode::SVOA(sep) => exists|head: Seq<char>| #[trigger]
                is_svo(words, head) && adverb_last(words, head, sep@, text),
            Mode::ASLP(sep) => exists|tail: Seq<char>| #[trigger]
                is_slp(words, tail) && adverb_first(words, sep@, tail, text),
            Mode::SLPA(sep) => exists|head: Seq<char>| #[trigger]
                is_slp(words, head) && adverb_last(words, head, sep@, text),
            Mode::Rand => false,
            _ => holds(self.list(words), text),
        }
    }

    /// `text` is the text of a plain mode that the draws tell: each word is
    /// the entry at the index drawn for it, in the order of the shape.
    pub open spec fn plain_told(&self, words: Lexicon, draws: Seq<Draw>, text: Seq<char>) -> bool {
        match self {
            Mode::Others(o) => o.told(draws, text),
            Mode::SVO => draws.len() == 3 && svo_fits(words, draws, 0) && text == svo_text(
                words,
                draws,
                0,
            ),
            Mode::SLP => draws.len() == 3 && slp_fits(words, draws, 0) && text == slp_text(
                words,
                draws,
                0,
            ),
            Mode::ASVO(sep) => draws.len() == 4 && fits(words.adverbs@, draws[0]) && svo_fits(
                words,
                draws,
                1,
            ) && text == word_at(words.adverbs@, draws[0]) + sep@ + svo_text(words, draws, 1),
            Mode::SVOA(sep) => draws.len() == 4 && svo_fits(words, draws, 0) && fits(
                words.adverbs@,
                draws[3],
            ) && text == svo_text(words, draws, 0) + sep@ + word_at(words.adverbs@, draws[3]),
            Mode::ASLP(sep) => draws.len() == 4 && fits(words.adverbs@, draws[0]) && slp_fits(
                words,
                draws,
                1,
            ) && text == word_at(words.adverbs@, draws[0]) + sep@ + slp_text(words, draws, 1),
            Mode::SLPA(sep) => draws.len() == 4 && slp_fits(words, draws, 0) && fits(
                words.adverbs@,
                draws[3],
            ) && text == slp_text(words, draws, 0) + sep@ + word_at(words.adverbs@, draws[3]),
            Mode::Rand => false,
            _ => picked(self.list(words), draws, text),
        }
    }

    /// `text` is the text of the mode that the draws tell: for `Rand` the
    /// first draw gave the place of a kind in the list of `leaf_kind`, and
    /// the draws after it tell the text of that kind.
    pub open spec fn told(&self, words: Lexicon, draws: Seq<Draw>, text: Seq<char>) -> bool {
        if self is Rand {
            draws.len() >= 1 && (draws[0] matches Draw::Index { len, got } && len == LEAF_KINDS
                && got < LEAF_KINDS && eligible::<'a>(got as int).plain_told(
                words,
                draws.skip(1),
                text,
            ))
        } else {
            self.plain_told(words, draws, text)
        }
    }

    /// `text` is one of the texts that the mode stands for: for `Rand`, one
    /// of the texts of a kind that it chooses among.
    pub open spec fn speaks(&self, words: Lexicon, text: Seq<char>) -> bool {
        if self is Rand {
            exists|k: int|
                0 <= k < LEAF_KINDS && (#[trigger] eligible::<'a>(k)).fault(words) is None
                    && eligible::<'a>(k).plain_speaks(words, text)
        } else {
            self.fault(words) is None && self.plain_speaks(words, text)
        }
    }

    /// The mode can fail with `e`: for `Rand`, one of the kinds that it
    /// chooses among does.
    pub open spec fn may_fail(&self, words: Lexicon, e: GenError) -> bool {
        if self is Rand {
            exists|k: int|
                0 <= k < LEAF_KINDS && (#[trigger] eligible::<'a>(k)).fault(words) == Some(e)
        } else {
            self.fault(words) == Some(e)
        }
    }

    /// No draw makes the mode fail.
    pub open spec fn ready(&self, words: Lexicon) -> bool {
        if self is Rand {
            forall|k: int|
                0 <= k < LEAF_KINDS ==> (#[trigger] eligible::<'a>(k)).fault(words) is None
        } else {
            self.fault(words) is None
        }
    }

    /// Every draw makes the mode fail.
    pub open spec fn doomed(&self, words: Lexicon) -> bool {
        if self is Rand {
            forall|k: int|
                0 <= k < LEAF_KINDS ==> (#[trigger] eligible::<'a>(k)).fault(words) is Some
        } else {
            self.fault(words) is Some
        }
    }

    /// Tells whether a plain mode can be resolved against `words`, before
    /// anything is drawn or written.
    pub fn check(&self, words: &Lexicon) -> (res: Result<(), GenError>)
        requires
            self.is_plain(),
        ensures
            res is Ok <==> self.fault(*words) is None,
            res matches Err(e) ==> self.fault(*words) == Some(e),
    {
        match self {
            Mode::Noun => need(words.nouns),
            Mode::Verb => need(words.verbs),
            Mode::Pred => need(words.preds),
            Mode::Adj => need(words.adjs),
            Mode::Adverb => need(words.adverbs),
            Mode::Diy(list) => need(list),
            Mode::Others(o) => o.check_lengths(),
            Mode::SVO => {
                if words.nouns.len() == 0 || words.verbs.len() == 0 {
                    Err(GenError::InvalidArgument)
                } else {
                    Ok(())
                }
            },
            Mode::SLP => {
                if words.nouns.len() == 0 || words.links.len() == 0 || words.preds.len() == 0 {
                    Err(GenError::InvalidArgument)
                } else {
                    Ok(())
                }
            },
            Mode::ASVO(_) | Mode::SVOA(_) => {
                if words.adverbs.len() == 0 || words.nouns.len() == 0 || words.verbs.len() == 0 {
                    Err(GenError::InvalidArgument)
                } else {
                    Ok(())
                }
            },
            Mode::ASLP(_) | Mode::SLPA(_) => {
                if words.adverbs.len() == 0 || words.nouns.len() == 0 || words.links.len() == 0
                    || words.preds.len() == 0 {
                    Err(GenError::InvalidArgument)
                } else {
                    Ok(())
                }
            },
            Mode::Rand => Ok(()),
        }
    }
}

/// `Ok` where the list holds an entry, `InvalidArgument` where it holds none.
pub fn need(list: &[&str]) -> (res: Result<(), GenError>)
    ensures
        res is Ok <==> list@.len() > 0,
        res matches Err(e) ==> e == GenError::InvalidArgument,
{
    if list.len() == 0 {
        Err(GenError::InvalidArgument)
    } else {
        Ok(())
    }
}

} // verus!
