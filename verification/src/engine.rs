//! The engine that turns a mode into text, with the decorators round it.

use crate::data::{holds, Lexicon};
use crate::error::GenError;
use crate::mode::{
    adverb_first, adverb_last, eligible, is_slp, is_svo, leaf_kind, letter_at, picked, slp_text,
    svo_text, Mode, Others, LEAF_KINDS,
};
use crate::source::{drew, grew, grew_by_one, grew_not, grew_twice, Draw, RandomSource};
use crate::util::rand_range;
use std::borrow::Cow;
use vstd::prelude::*;

verus! {

/// The decorators: a text to put before a result and one to put after it.
/// Either may be absent.
#[derive(Debug, Clone, Copy, PartialEq, Eq)]
pub struct Rg<'a> {
    pub left_dec: Option<&'a str>,
    pub right_dec: Option<&'a str>,
}

impl<'a> Default for Rg<'a> {
    fn default() -> (rg: Self)
        ensures
            rg.left_dec is None,
            rg.right_dec is None,
    {
        Rg { left_dec: None, right_dec: None }
    }
}

impl<'a> Rg<'a> {
    /// The left decorator as text: empty where there is none.
    pub open spec fn left(&self) -> Seq<char> {
        match self.left_dec {
            Some(d) => d@,
            None => Seq::empty(),
        }
    }

    /// The right decorator as text: empty where there is none.
    pub open spec fn right(&self) -> Seq<char> {
        match self.right_dec {
            Some(d) => d@,
            None => Seq::empty(),
        }
    }

    /// What is written before a body: the left decorator where decorators
    /// are asked for.
    pub open spec fn opening(&self, push_dec: bool) -> Seq<char> {
        if push_dec {
            self.left()
        } else {
            Seq::empty()
        }
    }

    /// What is written after a body: the right decorator where decorators
    /// are asked for.
    pub open spec fn closing(&self, push_dec: bool) -> Seq<char> {
        if push_dec {
            self.right()
        } else {
            Seq::empty()
        }
    }

    /// `body` between the two decorators, where they are asked for.
    pub open spec fn wrap(&self, push_dec: bool, body: Seq<char>) -> Seq<char> {
        self.opening(push_dec) + body + self.closing(push_dec)
    }

    /// The decorators stand once each round a body: the text begins with
    /// the left one, ends with the right one, and has the body between.
    pub proof fn wrap_shape(&self, body: Seq<char>)
        ensures
            self.wrap(true, body).len() == self.left().len() + body.len() + self.right().len(),
            self.wrap(true, body).take(self.left().len() as int) == self.left(),
            self.wrap(true, body).skip((self.left().len() + body.len()) as int) == self.right(),
            self.wrap(true, body).subrange(
                self.left().len() as int,
                (self.left().len() + body.len()) as int,
            ) == body,
    {
        let text = self.wrap(true, body);
        assert(text.take(self.left().len() as int) =~= self.left());
        assert(text.skip((self.left().len() + body.len()) as int) =~= self.right());
        assert(text.subrange(self.left().len() as int, (self.left().len() + body.len()) as int)
            =~= body);
    }

    /// A decorator is set.
    pub open spec fn decorated(&self) -> bool {
        self.left_dec is Some || self.right_dec is Some
    }

    /// A context without decorators.
    pub fn new() -> (rg: Self)
        ensures
            rg.left_dec is None,
            rg.right_dec is None,
    {
        Rg { left_dec: None, right_dec: None }
    }

    /// A context with both decorators.
    pub fn with_dec(l: &'a str, r: &'a str) -> (rg: Self)
        ensures
            rg.left_dec == Some(l),
            rg.right_dec == Some(r),
    {
        Rg { left_dec: Some(l), right_dec: Some(r) }
    }

    /// Takes both decorators away.
    pub fn reset(&mut self)
        ensures
            final(self).left_dec is None,
            final(self).right_dec is None,
    {
        self.left_dec = None;
        self.right_dec = None;
    }

    /// Sets the left decorator and leaves the right one. The context comes
    /// back, for the next setting.
    pub fn left_dec(&mut self, d: &'a str) -> (me: &mut Self)
        ensures
            me.left_dec == Some(d),
            me.right_dec == old(self).right_dec,
            *final(self) == *final(me),
    {
        self.left_dec = Some(d);
        self
    }

    /// Sets the right decorator and leaves the left one. The context comes
    /// back, for the next setting.
    pub fn right_dec(&mut self, d: &'a str) -> (me: &mut Self)
        ensures
            me.right_dec == Some(d),
            me.left_dec == old(self).left_dec,
            *final(self) == *final(me),
    {
        self.right_dec = Some(d);
        self
    }

    /// Whether a decorator is set.
    pub fn has_dec(&self) -> (yes: bool)
        ensures
            yes == self.decorated(),
    {
        self.left_dec.is_some() || self.right_dec.is_some()
    }

    /// Appends the left decorator, where `push_dec` asks for it and one is
    /// set.
    pub fn push_left(&self, buf: &mut String, push_dec: bool)
        ensures
            final(buf)@ == old(buf)@ + self.opening(push_dec),
    {
        if push_dec {
            if let Some(l) = self.left_dec {
                buf.push_str(l);
            }
        }
    }

    /// Appends the right decorator, where `push_dec` asks for it and one is
    /// set.
    pub fn push_right(&self, buf: &mut String, push_dec: bool)
        ensures
            final(buf)@ == old(buf)@ + self.closing(push_dec),
    {
        if push_dec {
            if let Some(r) = self.right_dec {
                buf.push_str(r);
            }
        }
    }

    /// The entry of a list that holds at least one, at the index that the
    /// source gives for its size.
    fn entry<'b, R: RandomSource>(list: &'b [&'b str], rng: &mut R) -> (word: &'b str)
        requires
            list@.len() > 0,
        ensures
            holds(list@, word@),
            grew(*old(rng), *final(rng)),
            picked(list@, drew(*old(rng), *final(rng)), word@),
    {
        let idx: usize = rng.index(list.len());
        proof {
            grew_by_one(*old(rng), *rng, Draw::Index { len: list@.len() as usize, got: idx });
        }
        list[idx]
    }

    /// One entry of `list`, or `InvalidArgument` where it holds none.
    pub fn get_diy<'b, R: RandomSource>(&self, list: &'b [&'b str], rng: &mut R) -> (res: Result<
        &'b str,
        GenError,
    >)
        ensures
            res is Err <==> list@.len() == 0,
            res matches Err(e) ==> e == GenError::InvalidArgument && final(rng).drawn() == old(
                rng,
            ).drawn(),
            res matches Ok(word) ==> holds(list@, word@),
            res matches Ok(word) ==> grew(*old(rng), *final(rng)) && picked(
                list@,
                drew(*old(rng), *final(rng)),
                word@,
            ),
    {
        if list.len() == 0 {
            return Err(GenError::InvalidArgument);
        }
        Ok(Self::entry(list, rng))
    }

    /// One predicative of the vocabulary.
    pub fn get_pred<'b, R: RandomSource>(&self, words: &Lexicon<'b>, rng: &mut R) -> (res: Result<
        &'b str,
        GenError,
    >)
        ensures
            res is Err <==> words.preds@.len() == 0,
            res matches Err(e) ==> e == GenError::InvalidArgument && final(rng).drawn() == old(
                rng,
            ).drawn(),
            res matches Ok(word) ==> holds(words.preds@, word@),
            res matches Ok(word) ==> grew(*old(rng), *final(rng)) && picked(
                words.preds@,
                drew(*old(rng), *final(rng)),
                word@,
            ),
    {
        self.get_diy(words.preds, rng)
    }

    /// One adverb of the vocabulary.
    pub fn get_adverb<'b, R: RandomSource>(&self, words: &Lexicon<'b>, rng: &mut R) -> (res: Result<
        &'b str,
        GenError,
    >)
        ensures
            res is Err <==> words.adverbs@.len() == 0,
            res matches Err(e) ==> e == GenError::InvalidArgument && final(rng).drawn() == old(
                rng,
            ).drawn(),
            res matches Ok(word) ==> holds(words.adverbs@, word@),
            res matches Ok(word) ==> grew(*old(rng), *final(rng)) && picked(
                words.adverbs@,
                drew(*old(rng), *final(rng)),
                word@,
            ),
    {
        self.get_diy(words.adverbs, rng)
    }

    /// One adjective of the vocabulary.
    pub fn get_adj<'b, R: RandomSource>(&self, words: &Lexicon<'b>, rng: &mut R) -> (res: Result<
        &'b str,
        GenError,
    >)
        ensures
            res is Err <==> words.adjs@.len() == 0,
            res matches Err(e) ==> e == GenError::InvalidArgument && final(rng).drawn() == old(
                rng,
            ).drawn(),
            res matches Ok(word) ==> holds(words.adjs@, word@),
            res matches Ok(word) ==> grew(*old(rng), *final(rng)) && picked(
                words.adjs@,
                drew(*old(rng), *final(rng)),
                word@,
            ),
    {
        self.get_diy(words.adjs, rng)
    }

    /// One noun of the vocabulary.
    pub fn get_noun<'b, R: RandomSource>(&self, words: &Lexicon<'b>, rng: &mut R) -> (res: Result<
        &'b str,
        GenError,
    >)
        ensures
            res is Err <==> words.nouns@.len() == 0,
            res matches Err(e) ==> e == GenError::InvalidArgument && final(rng).drawn() == old(
                rng,
            ).drawn(),
            res matches Ok(word) ==> holds(words.nouns@, word@),
            res matches Ok(word) ==> grew(*old(rng), *final(rng)) && picked(
                words.nouns@,
                drew(*old(rng), *final(rng)),
                word@,
            ),
    {
        self.get_diy(words.nouns, rng)
    }

    /// One verb of the vocabulary.
    pub fn get_verb<'b, R: RandomSource>(&self, words: &Lexicon<'b>, rng: &mut R) -> (res: Result<
        &'b str,
        GenError,
    >)
        ensures
            res is Err <==> words.verbs@.len() == 0,
            res matches Err(e) ==> e == GenError::InvalidArgument && final(rng).drawn() == old(
                rng,
            ).drawn(),
            res matches Ok(word) ==> holds(words.verbs@, word@),
            res matches Ok(word) ==> grew(*old(rng), *final(rng)) && picked(
                words.verbs@,
                drew(*old(rng), *final(rng)),
                word@,
            ),
    {
        self.get_diy(words.verbs, rng)
    }

    /// Appends a noun, a verb and a noun. Where a list that it needs is
    /// empty, nothing is appended.
    pub fn push_svo<R: RandomSource>(&self, buf: &mut String, words: &Lexicon, rng: &mut R) -> (res:
        Result<(), GenError>)
        ensures
            res is Err <==> words.nouns@.len() == 0 || words.verbs@.len() == 0,
            res matches Err(e) ==> e == GenError::InvalidArgument && final(buf)@ == old(buf)@
                && final(rng).drawn() == old(rng).drawn(),
            res is Ok ==> final(buf)@ == old(buf)@ + final(buf)@.skip(old(buf)@.len() as int),
            res is Ok ==> is_svo(*words, final(buf)@.skip(old(buf)@.len() as int)),
            res is Ok ==> grew(*old(rng), *final(rng)) && Mode::SVO.plain_told(
                *words,
                drew(*old(rng), *final(rng)),
                final(buf)@.skip(old(buf)@.len() as int),
            ),
    {
        if words.nouns.len() == 0 || words.verbs.len() == 0 || words.nouns.len() == 0 {
            return Err(GenError::InvalidArgument);
        }
        let a = Self::entry(words.nouns, rng);
        let ghost first = *rng;
        let b = Self::entry(words.verbs, rng);
        let ghost second = *rng;
        let c = Self::entry(words.nouns, rng);
        buf.push_str(a);
        buf.push_str(b);
        buf.push_str(c);
        proof {
            assert(buf@ =~= old(buf)@ + (a@ + b@ + c@));
            assert(buf@.skip(old(buf)@.len() as int) =~= a@ + b@ + c@);
            grew_twice(*old(rng), first, second);
            grew_twice(*old(rng), second, *rng);
            let draws = drew(*old(rng), *rng);
            assert(draws =~= drew(*old(rng), first) + drew(first, second) + drew(second, *rng));
            assert(draws[0] == drew(*old(rng), first)[0]);
            assert(draws[1] == drew(first, second)[0]);
            assert(draws[2] == drew(second, *rng)[0]);
        }
        Ok(())
    }

    /// Appends a noun, a link verb and a predicative. Where a list that it
    /// needs is empty, nothing is appended.
    pub fn push_slp<R: RandomSource>(&self, buf: &mut String, words: &Lexicon, rng: &mut R) -> (res:
        Result<(), GenError>)
        ensures
            res is Err <==> words.nouns@.len() == 0 || words.links@.len() == 0 || words.preds@.len()
                == 0,
            res matches Err(e) ==> e == GenError::InvalidArgument && final(buf)@ == old(buf)@
                && final(rng).drawn() == old(rng).drawn(),
            res is Ok ==> final(buf)@ == old(buf)@ + final(buf)@.skip(old(buf)@.len() as int),
            res is Ok ==> is_slp(*words, final(buf)@.skip(old(buf)@.len() as int)),
            res is Ok ==> grew(*old(rng), *final(rng)) && Mode::SLP.plain_told(
                *words,
                drew(*old(rng), *final(rng)),
                final(buf)@.skip(old(buf)@.len() as int),
            ),
    {
        if words.nouns.len() == 0 || words.links.len() == 0 || words.preds.len() == 0 {
            return Err(GenError::InvalidArgument);
        }
        let a = Self::entry(words.nouns, rng);
        let ghost first = *rng;
        let b = Self::entry(words.links, rng);
        let ghost second = *rng;
        let c = Self::entry(words.preds, rng);
        buf.push_str(a);
        buf.push_str(b);
        buf.push_str(c);
        proof {
            assert(buf@ =~= old(buf)@ + (a@ + b@ + c@));
            assert(buf@.skip(old(buf)@.len() as int) =~= a@ + b@ + c@);
            grew_twice(*old(rng), first, second);
            grew_twice(*old(rng), second, *rng);
            let draws = drew(*old(rng), *rng);
            assert(draws =~= drew(*old(rng), first) + drew(first, second) + drew(second, *rng));
            assert(draws[0] == drew(*old(rng), first)[0]);
            assert(draws[1] == drew(first, second)[0]);
            assert(draws[2] == drew(second, *rng)[0]);
        }
        Ok(())
    }

    /// Appends a run of characters of the alphabet of `others`, of a length
    /// drawn from its range. Where the range is empty, nothing is appended.
    pub fn push_others<R: RandomSource>(&self, buf: &mut String, others: &Others, rng: &mut R) -> (res:
        Result<(), GenError>)
        ensures
            res is Err <==> others.lo() > others.hi(),
            res matches Err(e) ==> e == GenError::InvalidRange && final(buf)@ == old(buf)@
                && final(rng).drawn() == old(rng).drawn(),
            res is Ok ==> final(buf)@ == old(buf)@ + final(buf)@.skip(old(buf)@.len() as int),
            res is Ok ==> others.speaks(final(buf)@.skip(old(buf)@.len() as int)),
            res is Ok ==> grew(*old(rng), *final(rng)) && others.told(
                drew(*old(rng), *final(rng)),
                final(buf)@.skip(old(buf)@.len() as int),
            ),
    {
        let cnt: u32 = match rand_range(others.lengths(), rng) {
            Ok(cnt) => cnt,
            Err(e) => {
                return Err(e);
            },
        };
        let (_, size) = others.letters();
        let ghost start = buf@;
        let ghost head = rng.drawn();
        let mut i: u32 = 0;
        while i < cnt
            invariant
                i <= cnt,
                size == others.alphabet().len(),
                size > 0,
                buf@.len() == start.len() + i,
                buf@.subrange(0, start.len() as int) == start,
                forall|j: int|
                    start.len() <= j < buf@.len() ==> others.alphabet().contains(#[trigger] buf@[j]),
                rng.drawn().len() == head.len() + i,
                rng.drawn().subrange(0, head.len() as int) == head,
                head.len() == old(rng).drawn().len() + 1,
                forall|d: Draw| #[trigger] rng.gives(d) == old(rng).gives(d),
                forall|j: int|
                    old(rng).drawn().len() <= j < rng.drawn().len() ==> old(rng).gives(
                        #[trigger] rng.drawn()[j],
                    ),
                forall|j: int|
                    start.len() <= j < buf@.len() ==> letter_at(
                        others.alphabet(),
                        rng.drawn()[j - start.len() + head.len()],
                        #[trigger] buf@[j],
                    ),
            decreases cnt - i,
        {
            let ghost drawn_before = rng.drawn();
            let idx: usize = rng.index(size);
            let c: char = others.letter(idx);
            let ghost before = buf@;
            buf.push(c);
            proof {
                assert(buf@.subrange(0, start.len() as int) =~= before.subrange(
                    0,
                    start.len() as int,
                ));
                assert(others.alphabet()[idx as int] == c);
                assert(rng.drawn().subrange(0, head.len() as int) =~= drawn_before.subrange(
                    0,
                    head.len() as int,
                ));
                assert forall|j: int| start.len() <= j < buf@.len() implies letter_at(
                    others.alphabet(),
                    rng.drawn()[j - start.len() + head.len()],
                    #[trigger] buf@[j],
                ) by {
                    if j < before.len() {
                        assert(buf@[j] == before[j]);
                        assert(rng.drawn()[j - start.len() + head.len()] == drawn_before[j
                            - start.len() + head.len()]);
                    }
                }
            }
            i += 1;
        }
        proof {
            let run = buf@.skip(start.len() as int);
            assert(buf@ =~= start + run);
            assert forall|j: int| 0 <= j < run.len() implies others.alphabet().contains(
                #[trigger] run[j],
            ) by {
                assert(run[j] == buf@[start.len() + j]);
            }
            let draws = drew(*old(rng), *rng);
            assert(head == old(rng).drawn().push(
                Draw::Range { lo: others.lo(), hi: others.hi(), number: cnt },
            ));
            assert forall|j: int| 0 <= j < head.len() implies rng.drawn()[j] == head[j] by {
                assert(rng.drawn().subrange(0, head.len() as int)[j] == head[j]);
            }
            let now = rng.drawn();
            let then = old(rng).drawn();
            assert(head.len() == then.len() + 1);
            assert(now.len() == head.len() + i);
            assert(draws.len() == now.len() - then.len());
            assert forall|j: int| 0 <= j < then.len() implies now[j] == then[j] by {
                assert(now[j] == head[j]);
            }
            assert forall|j: int| then.len() <= j < now.len() implies now[j] == draws[j
                - then.len()] by {}
            assert(now =~= then + draws);
            assert(draws[0] == head[head.len() - 1]);
            assert forall|k: int| 0 <= k < draws.len() implies old(rng).gives(
                #[trigger] draws[k],
            ) by {
                assert(draws[k] == now[then.len() + k]);
            }
            assert forall|k: int| 0 <= k < run.len() implies letter_at(
                others.alphabet(),
                draws[k + 1],
                #[trigger] run[k],
            ) by {
                assert(run[k] == buf@[start.len() + k]);
                assert(draws[k + 1] == rng.drawn()[(start.len() + k) - start.len() + head.len()]);
            }
        }
        Ok(())
    }

    /// Appends an adverb, the separator, then a noun, a verb and a noun.
    /// Where a list that it needs is empty, nothing is appended.
    pub fn push_asvo<R: RandomSource>(
        &self,
        buf: &mut String,
        sep: &str,
        words: &Lexicon,
        rng: &mut R,
    ) -> (res: Result<(), GenError>)
        ensures
            res is Err <==> Mode::ASVO(sep).fault(*words) is Some,
            res matches Err(e) ==> e == GenError::InvalidArgument && final(buf)@ == old(buf)@
                && final(rng).drawn() == old(rng).drawn(),
            res is Ok ==> final(buf)@ == old(buf)@ + final(buf)@.skip(old(buf)@.len() as int),
            res is Ok ==> Mode::ASVO(sep).plain_speaks(
                *words,
                final(buf)@.skip(old(buf)@.len() as int),
            ),
            res is Ok ==> grew(*old(rng), *final(rng)) && Mode::ASVO(sep).plain_told(
                *words,
                drew(*old(rng), *final(rng)),
                final(buf)@.skip(old(buf)@.len() as int),
            ),
    {
        if words.adverbs.len() == 0 || words.nouns.len() == 0 || words.verbs.len() == 0 {
            return Err(GenError::InvalidArgument);
        }
        let a = Self::entry(words.adverbs, rng);
        let ghost between = *rng;
        buf.push_str(a);
        buf.push_str(sep);
        let ghost mid = buf@;
        let done = self.push_svo(buf, words, rng);
        proof {
            let tail = buf@.skip(mid.len() as int);
            let text = buf@.skip(old(buf)@.len() as int);
            assert(text =~= a@ + sep@ + tail);
            assert(buf@ =~= old(buf)@ + text);
            assert(is_svo(*words, tail) && adverb_first(*words, sep@, tail, text));
            grew_twice(*old(rng), between, *rng);
            let draws = drew(*old(rng), *rng);
            let later = drew(between, *rng);
            assert(draws[0] == drew(*old(rng), between)[0]);
            assert(draws[1] == later[0] && draws[2] == later[1] && draws[3] == later[2]);
            assert(svo_text(*words, draws, 1) == svo_text(*words, later, 0));
        }
        done
    }

    /// Appends a noun, a verb and a noun, then the separator and an adverb.
    /// Where a list that it needs is empty, nothing is appended.
    pub fn push_svoa<R: RandomSource>(
        &self,
        buf: &mut String,
        sep: &str,
        words: &Lexicon,
        rng: &mut R,
    ) -> (res: Result<(), GenError>)
        ensures
            res is Err <==> Mode::SVOA(sep).fault(*words) is Some,
            res matches Err(e) ==> e == GenError::InvalidArgument && final(buf)@ == old(buf)@
                && final(rng).drawn() == old(rng).drawn(),
            res is Ok ==> final(buf)@ == old(buf)@ + final(buf)@.skip(old(buf)@.len() as int),
            res is Ok ==> Mode::SVOA(sep).plain_speaks(
                *words,
                final(buf)@.skip(old(buf)@.len() as int),
            ),
            res is Ok ==> grew(*old(rng), *final(rng)) && Mode::SVOA(sep).plain_told(
                *words,
                drew(*old(rng), *final(rng)),
                final(buf)@.skip(old(buf)@.len() as int),
            ),
    {
        if words.adverbs.len() == 0 || words.nouns.len() == 0 || words.verbs.len() == 0 {
            return Err(GenError::InvalidArgument);
        }
        let done = self.push_svo(buf, words, rng);
        let ghost between = *rng;
        let ghost mid = buf@;
        buf.push_str(sep);
        let a = Self::entry(words.adverbs, rng);
        buf.push_str(a);
        proof {
            let head = mid.skip(old(buf)@.len() as int);
            let text = buf@.skip(old(buf)@.len() as int);
            assert(text =~= head + sep@ + a@);
            assert(buf@ =~= old(buf)@ + text);
            assert(is_svo(*words, head) && adverb_last(*words, head, sep@, text));
            grew_twice(*old(rng), between, *rng);
            let draws = drew(*old(rng), *rng);
            let earlier = drew(*old(rng), between);
            assert(draws[0] == earlier[0] && draws[1] == earlier[1] && draws[2] == earlier[2]);
            assert(draws[3] == drew(between, *rng)[0]);
            assert(svo_text(*words, draws, 0) == svo_text(*words, earlier, 0));
        }
        done
    }

    /// Appends an adverb, the separator, then a noun, a link verb and a
    /// predicative. Where a list that it needs is empty, nothing is
    /// appended.
    pub fn push_aslp<R: RandomSource>(
        &self,
        buf: &mut String,
        sep: &str,
        words: &Lexicon,
        rng: &mut R,
    ) -> (res: Result<(), GenError>)
        ensures
            res is Err <==> Mode::ASLP(sep).fault(*words) is Some,
            res matches Err(e) ==> e == GenError::InvalidArgument && final(buf)@ == old(buf)@
                && final(rng).drawn() == old(rng).drawn(),
            res is Ok ==> final(buf)@ == old(buf)@ + final(buf)@.skip(old(buf)@.len() as int),
            res is Ok ==> Mode::ASLP(sep).plain_speaks(
                *words,
                final(buf)@.skip(old(buf)@.len() as int),
            ),
            res is Ok ==> grew(*old(rng), *final(rng)) && Mode::ASLP(sep).plain_told(
                *words,
                drew(*old(rng), *final(rng)),
                final(buf)@.skip(old(buf)@.len() as int),
            ),
    {
        if words.adverbs.len() == 0 || words.nouns.len() == 0 || words.links.len() == 0
            || words.preds.len() == 0 {
            return Err(GenError::InvalidArgument);
        }
        let a = Self::entry(words.adverbs, rng);
        let ghost between = *rng;
        buf.push_str(a);
        buf.push_str(sep);
        let ghost mid = buf@;
        let done = self.push_slp(buf, words, rng);
        proof {
            let tail = buf@.skip(mid.len() as int);
            let text = buf@.skip(old(buf)@.len() as int);
            assert(text =~= a@ + sep@ + tail);
            assert(buf@ =~= old(buf)@ + text);
            assert(is_slp(*words, tail) && adverb_first(*words, sep@, tail, text));
            grew_twice(*old(rng), between, *rng);
            let draws = drew(*old(rng), *rng);
            let later = drew(between, *rng);
            assert(draws[0] == drew(*old(rng), between)[0]);
            assert(draws[1] == later[0] && draws[2] == later[1] && draws[3] == later[2]);
            assert(slp_text(*words, draws, 1) == slp_text(*words, later, 0));
        }
        done
    }

    /// Appends a noun, a link verb and a predicative, then the separator and
    /// an adverb. Where a list that it needs is empty, nothing is appended.
    pub fn push_slpa<R: RandomSource>(
        &self,
        buf: &mut String,
        sep: &str,
        words: &Lexicon,
        rng: &mut R,
    ) -> (res: Result<(), GenError>)
        ensures
            res is Err <==> Mode::SLPA(sep).fault(*words) is Some,
            res matches Err(e) ==> e == GenError::InvalidArgument && final(buf)@ == old(buf)@
                && final(rng).drawn() == old(rng).drawn(),
            res is Ok ==> final(buf)@ == old(buf)@ + final(buf)@.skip(old(buf)@.len() as int),
            res is Ok ==> Mode::SLPA(sep).plain_speaks(
                *words,
                final(buf)@.skip(old(buf)@.len() as int),
            ),
            res is Ok ==> grew(*old(rng), *final(rng)) && Mode::SLPA(sep).plain_told(
                *words,
                drew(*old(rng), *final(rng)),
                final(buf)@.skip(old(buf)@.len() as int),
            ),
    {
        if words.adverbs.len() == 0 || words.nouns.len() == 0 || words.links.len() == 0
            || words.preds.len() == 0 {
            return Err(GenError::InvalidArgument);
        }
        let done = self.push_slp(buf, words, rng);
        let ghost between = *rng;
        let ghost mid = buf@;
        buf.push_str(sep);
        let a = Self::entry(words.adverbs, rng);
        buf.push_str(a);
        proof {
            let head = mid.skip(old(buf)@.len() as int);
            let text = buf@.skip(old(buf)@.len() as int);
            assert(text =~= head + sep@ + a@);
            assert(buf@ =~= old(buf)@ + text);
            assert(is_slp(*words, head) && adverb_last(*words, head, sep@, text));
            grew_twice(*old(rng), between, *rng);
            let draws = drew(*old(rng), *rng);
            let earlier = drew(*old(rng), between);
            assert(draws[0] == earlier[0] && draws[1] == earlier[1] && draws[2] == earlier[2]);
            assert(draws[3] == drew(between, *rng)[0]);
            assert(slp_text(*words, draws, 0) == slp_text(*words, earlier, 0));
        }
        done
    }

    /// The word is handed back, and nothing is written: so it goes for a
    /// word mode where no decorator is set and the caller did not ask for
    /// the text in the buffer.
    pub open spec fn lends(&self, mode: Mode, push_buf: bool) -> bool {
        mode.is_word() && !self.decorated() && !push_buf
    }

    /// What resolving a plain mode comes to. Where the mode cannot be
    /// resolved, the error comes back, the buffer stays as it was and
    /// nothing is drawn. Else the text is the one that the draws tell, and
    /// either it is a word that is handed back while the buffer stays, or
    /// it is appended between the decorators that `push_dec` asks for.
    pub open spec fn plain_resolved(
        &self,
        mode: Mode,
        words: Lexicon,
        push_buf: bool,
        push_dec: bool,
        before: Seq<char>,
        after: Seq<char>,
        draws: Seq<Draw>,
        res: Result<Option<&str>, GenError>,
    ) -> bool {
        match mode.fault(words) {
            Some(e) => res == Err::<Option<&str>, GenError>(e) && after == before && draws.len()
                == 0,
            None => if self.lends(mode, push_buf) {
                res matches Ok(Some(word)) && mode.plain_speaks(words, word@) && mode.plain_told(
                    words,
                    draws,
                    word@,
                ) && after == before
            } else {
                res == Ok::<Option<&str>, GenError>(None) && exists|body: Seq<char>| #[trigger]
                    mode.plain_speaks(words, body) && mode.plain_told(words, draws, body) && after
                        == before + self.wrap(push_dec, body)
            },
        }
    }

    /// What resolving a mode comes to: for `Rand`, the first draw gives the
    /// place of a kind in the list of `leaf_kind`, and the draws after it
    /// are those of resolving that kind.
    pub open spec fn resolved(
        &self,
        mode: Mode,
        words: Lexicon,
        push_buf: bool,
        push_dec: bool,
        before: Seq<char>,
        after: Seq<char>,
        draws: Seq<Draw>,
        res: Result<Option<&str>, GenError>,
    ) -> bool {
        if mode is Rand {
            exists|k: int|
                0 <= k < LEAF_KINDS && draws.len() >= 1 && draws[0] == (Draw::Index {
                    len: LEAF_KINDS,
                    got: k as usize,
                }) && #[trigger] self.plain_resolved(
                    eligible(k),
                    words,
                    push_buf,
                    push_dec,
                    before,
                    after,
                    draws.skip(1),
                    res,
                )
        } else {
            self.plain_resolved(mode, words, push_buf, push_dec, before, after, draws, res)
        }
    }

    /// Hands the word back where it may, and else appends it between the
    /// decorators that `push_dec` asks for.
    fn give<'b>(&self, word: &'b str, buf: &mut String, push_buf: bool, push_dec: bool) -> (res:
        Option<&'b str>)
        ensures
            res is Some <==> !self.decorated() && !push_buf,
            res matches Some(w) ==> w@ == word@ && final(buf)@ == old(buf)@,
            res is None ==> final(buf)@ == old(buf)@ + self.wrap(push_dec, word@),
    {
        if self.has_dec() || push_buf {
            self.push_left(buf, push_dec);
            buf.push_str(word);
            self.push_right(buf, push_dec);
            proof {
                assert(buf@ =~= old(buf)@ + self.wrap(push_dec, word@));
            }
            None
        } else {
            Some(word)
        }
    }

    /// Resolves a mode other than `Rand`.
    pub fn plain<'b, R: RandomSource>(
        &self,
        mode: &Mode<'b>,
        buf: &mut String,
        push_buf: bool,
        push_dec: bool,
        words: &Lexicon<'b>,
        rng: &mut R,
    ) -> (res: Result<Option<&'b str>, GenError>)
        requires
            mode.is_plain(),
        ensures
            grew(*old(rng), *final(rng)),
            self.plain_resolved(
                *mode,
                *words,
                push_buf,
                push_dec,
                old(buf)@,
                final(buf)@,
                drew(*old(rng), *final(rng)),
                res,
            ),
    {
        match mode.check(words) {
            Err(e) => {
                proof {
                    grew_not(*old(rng), *rng);
                }
                return Err(e);
            },
            Ok(()) => {},
        }
        if let Some(list) = mode.word_list(words) {
            let word = Self::entry(list, rng);
            let res = self.give(word, buf, push_buf, push_dec);
            proof {
                assert(mode.plain_speaks(*words, word@));
            }
            return Ok(res);
        }
        self.push_left(buf, push_dec);
        let ghost mid = buf@;
        let done = match mode {
            Mode::Others(o) => self.push_others(buf, o, rng),
            Mode::SVO => self.push_svo(buf, words, rng),
            Mode::SLP => self.push_slp(buf, words, rng),
            Mode::ASVO(sep) => self.push_asvo(buf, sep, words, rng),
            Mode::SVOA(sep) => self.push_svoa(buf, sep, words, rng),
            Mode::ASLP(sep) => self.push_aslp(buf, sep, words, rng),
            Mode::SLPA(sep) => self.push_slpa(buf, sep, words, rng),
            _ => Ok(()),
        };
        let ghost body = buf@.skip(mid.len() as int);
        self.push_right(buf, push_dec);
        proof {
            assert(done is Ok);
            assert(mode.plain_speaks(*words, body));
            assert(mode.plain_told(*words, drew(*old(rng), *rng), body));
            assert(buf@ =~= old(buf)@ + self.wrap(push_dec, body));
        }
        Ok(None)
    }

    /// Resolves `Mode::Rand`: draws one of the kinds of `leaf_kind` and
    /// resolves it.
    pub fn rand_mode<'b, R: RandomSource>(
        &self,
        buf: &mut String,
        push_buf: bool,
        push_dec: bool,
        words: &Lexicon<'b>,
        rng: &mut R,
    ) -> (res: Result<Option<&'b str>, GenError>)
        ensures
            grew(*old(rng), *final(rng)),
            self.resolved(
                Mode::Rand,
                *words,
                push_buf,
                push_dec,
                old(buf)@,
                final(buf)@,
                drew(*old(rng), *final(rng)),
                res,
            ),
    {
        let idx: usize = rng.index(LEAF_KINDS);
        let ghost between = *rng;
        let kind: Mode<'b> = leaf_kind(idx);
        let res = self.plain(&kind, buf, push_buf, push_dec, words, rng);
        proof {
            let first = Draw::Index { len: LEAF_KINDS, got: idx };
            grew_by_one(*old(rng), between, first);
            grew_twice(*old(rng), between, *rng);
            let draws = drew(*old(rng), *rng);
            assert(draws[0] == first);
            assert(draws.skip(1) =~= drew(between, *rng));
            assert(self.plain_resolved(
                eligible(idx as int),
                *words,
                push_buf,
                push_dec,
                old(buf)@,
                buf@,
                draws.skip(1),
                res,
            ));
        }
        res
    }

    /// Resolves `mode` against `words`.
    ///
    /// With `push_dec`, the decorators that are set go round the text: the
    /// left one first, the right one last, each once. A word mode hands its
    /// word back without writing where no decorator is set and `push_buf`
    /// does not ask for the text in the buffer; every other call appends to
    /// `buf` and hands nothing back. On an error `buf` is as it was.
    pub fn resolve<'b, R: RandomSource>(
        &self,
        mode: &Mode<'b>,
        buf: &mut String,
        push_buf: bool,
        push_dec: bool,
        words: &Lexicon<'b>,
        rng: &mut R,
    ) -> (res: Result<Option<&'b str>, GenError>)
        ensures
            grew(*old(rng), *final(rng)),
            self.resolved(
                *mode,
                *words,
                push_buf,
                push_dec,
                old(buf)@,
                final(buf)@,
                drew(*old(rng), *final(rng)),
                res,
            ),
            mode.ready(*words) ==> res is Ok,
            mode.doomed(*words) ==> res is Err,
            res matches Err(e) ==> mode.may_fail(*words, e) && final(buf)@ == old(buf)@,
            res matches Ok(Some(word)) ==> mode.speaks(*words, word@) && mode.told(
                *words,
                drew(*old(rng), *final(rng)),
                word@,
            ) && final(buf)@ == old(buf)@,
            res matches Ok(None) ==> exists|body: Seq<char>| #[trigger]
                mode.speaks(*words, body) && mode.told(*words, drew(*old(rng), *final(rng)), body)
                    && final(buf)@ == old(buf)@ + self.wrap(push_dec, body),
    {
        let res = match mode {
            Mode::Rand => self.rand_mode(buf, push_buf, push_dec, words, rng),
            _ => self.plain(mode, buf, push_buf, push_dec, words, rng),
        };
        proof {
            let draws = drew(*old(rng), *rng);
            if mode is Rand {
                let k = choose|k: int|
                    0 <= k < LEAF_KINDS && draws.len() >= 1 && draws[0] == (Draw::Index {
                        len: LEAF_KINDS,
                        got: k as usize,
                    }) && #[trigger] self.plain_resolved(
                        eligible(k),
                        *words,
                        push_buf,
                        push_dec,
                        old(buf)@,
                        buf@,
                        draws.skip(1),
                        res,
                    );
                let kind: Mode = eligible(k);
                if res == Ok::<Option<&str>, GenError>(None) {
                    let body = choose|body: Seq<char>| #[trigger]
                        kind.plain_speaks(*words, body) && kind.plain_told(
                            *words,
                            draws.skip(1),
                            body,
                        ) && buf@ == old(buf)@ + self.wrap(push_dec, body);
                    assert(mode.speaks(*words, body) && mode.told(*words, draws, body));
                }
            } else {
                if res == Ok::<Option<&str>, GenError>(None) {
                    let body = choose|body: Seq<char>| #[trigger]
                        mode.plain_speaks(*words, body) && mode.plain_told(*words, draws, body)
                            && buf@ == old(buf)@ + self.wrap(push_dec, body);
                    assert(mode.speaks(*words, body) && mode.told(*words, draws, body));
                }
            }
        }
        res
    }

    /// What `once` comes to: on success the text is the text of the mode
    /// that the draws tell, between the decorators, and it is borrowed only
    /// where no decorator is set.
    pub open spec fn once_done(
        &self,
        mode: Mode,
        words: Lexicon,
        draws: Seq<Draw>,
        res: Result<Cow<str>, GenError>,
    ) -> bool {
        &&& mode.ready(words) ==> res is Ok
        &&& mode.doomed(words) ==> res is Err
        &&& res matches Err(e) ==> mode.may_fail(words, e)
        &&& res matches Ok(text) ==> exists|body: Seq<char>| #[trigger]
            mode.speaks(words, body) && mode.told(words, draws, body) && text@ == self.wrap(
                true,
                body,
            )
        &&& res matches Ok(Cow::Borrowed(_)) ==> !self.decorated()
        &&& mode.is_plain() && res is Ok ==> (res matches Ok(Cow::Borrowed(_)) <==> mode.is_word()
            && !self.decorated())
    }

    /// Resolves `mode` once, with the decorators round the text. A word of a
    /// list is handed out as it stands there where no decorator is set;
    /// every other text is built anew.
    pub fn once<'b, R: RandomSource>(&self, mode: &Mode<'b>, words: &Lexicon<'b>, rng: &mut R) -> (res:
        Result<Cow<'b, str>, GenError>)
        ensures
            grew(*old(rng), *final(rng)),
            self.once_done(*mode, *words, drew(*old(rng), *final(rng)), res),
    {
        let mut buf = String::new();
        match self.resolve(mode, &mut buf, false, true, words, rng) {
            Err(e) => Err(e),
            Ok(Some(word)) => {
                proof {
                    assert(self.wrap(true, word@) =~= word@);
                }
                Ok(Cow::Borrowed(word))
            },
            Ok(None) => {
                proof {
                    let body = choose|body: Seq<char>| #[trigger]
                        mode.speaks(*words, body) && mode.told(
                            *words,
                            drew(*old(rng), *rng),
                            body,
                        ) && buf@ == Seq::<char>::empty() + self.wrap(true, body);
                    assert(buf@ =~= self.wrap(true, body));
                }
                Ok(Cow::Owned(buf))
            },
        }
    }

    /// Resolves the modes in order into `buf`, with separators between them
    /// and the decorators round the whole.
    ///
    /// The separator between one mode and the next is taken from `seps` by
    /// position; where `seps` is the shorter, its last entry is used again,
    /// and where it is empty, nothing stands between the texts.
    pub fn combine_with_buf<'b, R: RandomSource>(
        &self,
        buf: String,
        modes: &[Mode<'b>],
        seps: &[&str],
        words: &Lexicon<'b>,
        rng: &mut R,
    ) -> (res: Result<String, GenError>)
        ensures
            (forall|i: int| 0 <= i < modes@.len() ==> (#[trigger] modes@[i]).ready(*words))
                ==> res is Ok,
            (exists|i: int| 0 <= i < modes@.len() && (#[trigger] modes@[i]).doomed(*words))
                ==> res is Err,
            res matches Err(e) ==> fails_at(modes@, *words, e),
            res is Ok ==> grew(*old(rng), *final(rng)),
            res matches Ok(out) ==> exists|text: Seq<char>| #[trigger]
                joined(
                    modes@,
                    seps@,
                    *words,
                    modes@.len() as int,
                    drew(*old(rng), *final(rng)),
                    text,
                ) && out@ == buf@ + self.wrap(true, text),
    {
        let mut buf = buf;
        let ghost given = buf@;
        self.push_left(&mut buf, true);
        let ghost start = buf@;
        let mut i: usize = 0;
        proof {
            grew_not(*old(rng), *rng);
        }
        while i < modes.len()
            invariant
                i <= modes@.len(),
                start == given + self.left(),
                buf@ == start + buf@.skip(start.len() as int),
                grew(*old(rng), *rng),
                joined(
                    modes@,
                    seps@,
                    *words,
                    i as int,
                    drew(*old(rng), *rng),
                    buf@.skip(start.len() as int),
                ),
                forall|j: int| 0 <= j < i ==> !(#[trigger] modes@[j]).doomed(*words),
            decreases modes@.len() - i,
        {
            let ghost head = buf@.skip(start.len() as int);
            let ghost between = *rng;
            if i > 0 && seps.len() > 0 {
                let at: usize = if i - 1 < seps.len() {
                    i - 1
                } else {
                    seps.len() - 1
                };
                buf.push_str(seps[at]);
            }
            let ghost mid = buf@;
            match self.resolve(&modes[i], &mut buf, true, false, words, rng) {
                Err(e) => {
                    proof {
                        assert(modes@[i as int].may_fail(*words, e));
                    }
                    return Err(e);
                },
                Ok(_) => {},
            }
            proof {
                let mode = modes@[i as int];
                let body = choose|body: Seq<char>| #[trigger]
                    mode.speaks(*words, body) && mode.told(*words, drew(between, *rng), body)
                        && buf@ == mid + self.wrap(false, body);
                let text = buf@.skip(start.len() as int);
                assert(mid =~= start + head + sep_before(seps@, i as int));
                assert(text =~= head + sep_before(seps@, i as int) + body);
                assert(buf@ =~= start + text);
                grew_twice(*old(rng), between, *rng);
                joined_step(
                    modes@,
                    seps@,
                    *words,
                    i as int + 1,
                    drew(*old(rng), between),
                    drew(between, *rng),
                    head,
                    body,
                );
            }
            i += 1;
        }
        let ghost text = buf@.skip(start.len() as int);
        self.push_right(&mut buf, true);
        proof {
            assert(buf@ =~= given + self.wrap(true, text));
        }
        Ok(buf)
    }

    /// Resolves the modes in order into a new text: see `combine_with_buf`.
    pub fn combine<'b, R: RandomSource>(
        &self,
        modes: &[Mode<'b>],
        seps: &[&str],
        words: &Lexicon<'b>,
        rng: &mut R,
    ) -> (res: Result<String, GenError>)
        ensures
            (forall|i: int| 0 <= i < modes@.len() ==> (#[trigger] modes@[i]).ready(*words))
                ==> res is Ok,
            (exists|i: int| 0 <= i < modes@.len() && (#[trigger] modes@[i]).doomed(*words))
                ==> res is Err,
            res matches Err(e) ==> fails_at(modes@, *words, e),
            res is Ok ==> grew(*old(rng), *final(rng)),
            res matches Ok(out) ==> exists|text: Seq<char>| #[trigger]
                joined(
                    modes@,
                    seps@,
                    *words,
                    modes@.len() as int,
                    drew(*old(rng), *final(rng)),
                    text,
                ) && out@ == self.wrap(true, text),
    {
        let res = self.combine_with_buf(String::new(), modes, seps, words, rng);
        proof {
            if res is Ok {
                let out = res->Ok_0@;
                let text = choose|text: Seq<char>| #[trigger]
                    joined(
                        modes@,
                        seps@,
                        *words,
                        modes@.len() as int,
                        drew(*old(rng), *rng),
                        text,
                    ) && out == Seq::<char>::empty() + self.wrap(true, text);
                assert(out =~= self.wrap(true, text));
            }
        }
        res
    }

    /// The unending sequence of resolutions of one mode.
    pub fn iter(&'a self, mode: &'a Mode<'a>, words: &'a Lexicon<'a>) -> (it: Iter<'a>)
        ensures
            *it.rg == *self,
            *it.mode == *mode,
            *it.words == *words,
    {
        Iter::new(self, mode, words)
    }
}

/// The separator that stands before the text of the mode at place `i`: none
/// before the first mode, nor where there are no separators; else the one
/// at place `i - 1`, or the last where there are fewer.
pub open spec fn sep_before(seps: Seq<&str>, i: int) -> Seq<char> {
    if i <= 0 || seps.len() == 0 {
        Seq::empty()
    } else if i - 1 < seps.len() {
        seps[i - 1]@
    } else {
        seps[seps.len() - 1]@
    }
}

/// `text` is the text that the draws tell of the first `n` modes in order,
/// with the separators between them: the draws fall into those of the
/// first `n - 1` modes and, behind them, those of the mode that follows.
pub open spec fn joined(
    modes: Seq<Mode>,
    seps: Seq<&str>,
    words: Lexicon,
    n: int,
    draws: Seq<Draw>,
    text: Seq<char>,
) -> bool
    decreases n,
{
    if n <= 0 {
        text.len() == 0 && draws.len() == 0
    } else {
        exists|head: Seq<char>, body: Seq<char>, cut: int|
            #![trigger splits(text, head, sep_before(seps, n - 1), body), draws.take(cut)]
            0 <= cut <= draws.len() && splits(text, head, sep_before(seps, n - 1), body) && joined(
                modes,
                seps,
                words,
                n - 1,
                draws.take(cut),
                head,
            ) && modes[n - 1].speaks(words, body) && modes[n - 1].told(
                words,
                draws.skip(cut),
                body,
            )
    }
}

/// `text` is `head`, then `sep`, then `body`.
pub open spec fn splits(text: Seq<char>, head: Seq<char>, sep: Seq<char>, body: Seq<char>) -> bool {
    text == head + sep + body
}

/// The text of the first `n - 1` modes, then the separator and the text of
/// the next mode, is the text of the first `n` modes, told by the draws of
/// the first and then those of the second.
pub proof fn joined_step(
    modes: Seq<Mode>,
    seps: Seq<&str>,
    words: Lexicon,
    n: int,
    earlier: Seq<Draw>,
    later: Seq<Draw>,
    head: Seq<char>,
    body: Seq<char>,
)
    requires
        0 < n <= modes.len(),
        joined(modes, seps, words, n - 1, earlier, head),
        modes[n - 1].speaks(words, body),
        modes[n - 1].told(words, later, body),
    ensures
        joined(modes, seps, words, n, earlier + later, head + sep_before(seps, n - 1) + body),
{
    let draws = earlier + later;
    let cut = earlier.len() as int;
    assert(draws.take(cut) =~= earlier);
    assert(draws.skip(cut) =~= later);
    assert(splits(head + sep_before(seps, n - 1) + body, head, sep_before(seps, n - 1), body));
}

/// One of the modes can fail with `e`, and none before it fails on every
/// draw.
pub open spec fn fails_at(modes: Seq<Mode>, words: Lexicon, e: GenError) -> bool {
    exists|i: int|
        0 <= i < modes.len() && (#[trigger] modes[i]).may_fail(words, e) && forall|j: int|
            0 <= j < i ==> !(#[trigger] modes[j]).doomed(words)
}

/// The unending sequence of resolutions of one mode with one set of
/// decorators: every pull resolves the mode anew.
pub struct Iter<'a> {
    pub rg: &'a Rg<'a>,
    pub mode: &'a Mode<'a>,
    pub words: &'a Lexicon<'a>,
}

impl<'a> Iter<'a> {
    pub fn new(rg: &'a Rg<'a>, mode: &'a Mode<'a>, words: &'a Lexicon<'a>) -> (it: Self)
        ensures
            *it.rg == *rg,
            *it.mode == *mode,
            *it.words == *words,
    {
        Iter { rg, mode, words }
    }

    /// The next resolution. The sequence never ends, and a pull leaves it as
    /// it was.
    pub fn next<R: RandomSource>(&mut self, rng: &mut R) -> (item: Option<
        Result<Cow<'a, str>, GenError>,
    >)
        ensures
            *final(self) == *old(self),
            grew(*old(rng), *final(rng)),
            item matches Some(res) && old(self).rg.once_done(
                *old(self).mode,
                *old(self).words,
                drew(*old(rng), *final(rng)),
                res,
            ),
    {
        Some(self.rg.once(self.mode, self.words, rng))
    }
}

} // verus!
