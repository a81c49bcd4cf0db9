//! Generators and the operators that compose them.
//!
//! A generator takes a text, appends to it and hands it back. What it may
//! hand back, for the draws that it made from the random source, is given by
//! `yields`; the operators are defined over that relation alone, so they
//! compose whatever a generator does inside.

use crate::data::Lexicon;
use crate::engine::Rg;
use crate::error::GenError;
use crate::mode::Mode;
use crate::source::{drew, grew, grew_by_one, grew_not, grew_twice, Draw, RandomSource};
use vstd::prelude::*;

verus! {

/// The result of a generator as plain values.
pub open spec fn outcome(res: Result<String, GenError>) -> Result<Seq<char>, GenError> {
    match res {
        Ok(text) => Ok(text@),
        Err(e) => Err(e),
    }
}

/// `res` is what comes of handing `prev` on to `g`, which makes the draws
/// `draws`: an error stays as it is and nothing is drawn, and a text goes
/// through `g`.
pub open spec fn follows<G: Generator<R>, R: RandomSource>(
    g: &G,
    prev: Result<Seq<char>, GenError>,
    draws: Seq<Draw>,
    res: Result<Seq<char>, GenError>,
) -> bool {
    match prev {
        Ok(mid) => g.yields(mid, draws, res),
        Err(e) => res == Err::<Seq<char>, GenError>(e) && draws.len() == 0,
    }
}

/// `res` is what `n` applications of `g` in a row, the first of them to
/// `before`, may come to when they make the draws `draws` between them.
pub open spec fn chain<G: Generator<R>, R: RandomSource>(
    g: &G,
    n: nat,
    before: Seq<char>,
    draws: Seq<Draw>,
    res: Result<Seq<char>, GenError>,
) -> bool
    decreases n,
{
    if n == 0 {
        res == Ok::<Seq<char>, GenError>(before) && draws.len() == 0
    } else {
        exists|prev: Result<Seq<char>, GenError>, cut: int|
            #![trigger follows(g, prev, draws.skip(cut), res)]
            0 <= cut <= draws.len() && follows(g, prev, draws.skip(cut), res) && chain(
                g,
                (n - 1) as nat,
                before,
                draws.take(cut),
                prev,
            )
    }
}

/// Something that extends a text.
pub trait Generator<R: RandomSource> {
    /// The generator can be called: the functions that it holds accept
    /// what it will hand them.
    spec fn ready(&self) -> bool;

    /// `res` is one of the results that the generator may give for the
    /// text `before` when it makes the draws `draws`.
    spec fn yields(
        &self,
        before: Seq<char>,
        draws: Seq<Draw>,
        res: Result<Seq<char>, GenError>,
    ) -> bool;

    /// Extends `buf` and hands it back. The draws that it makes are added
    /// to the account of the source.
    fn once(&self, buf: String, rng: &mut R) -> (res: Result<String, GenError>)
        requires
            self.ready(),
        ensures
            grew(*old(rng), *final(rng)),
            self.yields(buf@, drew(*old(rng), *final(rng)), outcome(res)),
    ;

    /// Generates a text from nothing.
    fn generate(self, rng: &mut R) -> (res: Result<String, GenError>) where Self: Sized
        requires
            self.ready(),
        ensures
            grew(*old(rng), *final(rng)),
            self.yields(Seq::empty(), drew(*old(rng), *final(rng)), outcome(res)),
    {
        self.once(String::new(), rng)
    }

    /// Extends `buf`.
    fn generate_by(self, buf: String, rng: &mut R) -> (res: Result<String, GenError>) where
        Self: Sized,

        requires
            self.ready(),
        ensures
            grew(*old(rng), *final(rng)),
            self.yields(buf@, drew(*old(rng), *final(rng)), outcome(res)),
    {
        self.once(buf, rng)
    }
}

/// The operators that compose generators. Every generator of this library
/// has them; a generator of another kind gets them by an empty impl.
pub trait Compose: Sized {
    /// This generator, then `g`.
    fn and<G>(self, g: G) -> (both: And<Self, G>)
        ensures
            both.me == self,
            both.another == g,
    {
        And { me: self, another: g }
    }

    /// This generator or `g`, as a coin of the random source falls.
    fn or<G>(self, g: G) -> (either: Or<Self, G>)
        ensures
            either.me == self,
            either.another == g,
    {
        Or { me: self, another: g }
    }

    /// This generator where `f` says `true`, `g` where it says `false`.
    fn or_by<G, F>(self, g: G, f: F) -> (either: OrBy<
        Self,
        G,
        F,
    >)
        ensures
            either.me == self,
            either.another == g,
            either.f == f,
    {
        OrBy { me: self, another: g, f }
    }

    /// This generator, `times` times in a row.
    fn repeat(self, times: u32) -> (again: Repeat<Self>)
        ensures
            again.g == self,
            again.times == times,
    {
        Repeat { g: self, times }
    }

    /// This generator, then the literal `tail`.
    fn tail(self, tail: &str) -> (tailed: Tail<'_, Self>)
        ensures
            tailed.g == self,
            tailed.tail@ == tail@,
    {
        Tail { g: self, tail }
    }

    /// This generator, then `f` on the whole text.
    fn map<F>(self, f: F) -> (mapped: Mapped<Self, F>)
        ensures
            mapped.g == self,
            mapped.f == f,
    {
        Mapped { g: self, f }
    }

    /// A place to look at the text from: the text passes through as it is,
    /// and this generator is not run.
    fn check(self) -> (held: Check<Self>)
        ensures
            held.g == self,
    {
        Check { g: self }
    }
}

impl<G, G2> Compose for And<G, G2> {

}

impl<G, G2> Compose for Or<G, G2> {

}

impl<G, G2, F> Compose for OrBy<G, G2, F> {

}

impl<G, F> Compose for Mapped<G, F> {

}

impl<G> Compose for Repeat<G> {

}

impl<'a, G> Compose for Tail<'a, G> {

}

impl<G> Compose for Check<G> {

}

impl<'a> Compose for RgBindMode<'a> {

}

impl<'a, R, F> Compose for SelectBy<'a, R, F> {

}

impl<'a, R> Compose for Select<'a, R> {

}

/// The draws `earlier` and then `later` fall apart again at the length of
/// `earlier`.
pub proof fn parts_of(earlier: Seq<Draw>, later: Seq<Draw>)
    ensures
        (earlier + later).take(earlier.len() as int) == earlier,
        (earlier + later).skip(earlier.len() as int) == later,
{
    assert((earlier + later).take(earlier.len() as int) =~= earlier);
    assert((earlier + later).skip(earlier.len() as int) =~= later);
}

/// One generator after another.
pub struct And<G, G2> {
    pub me: G,
    pub another: G2,
}

impl<R: RandomSource, G: Generator<R>, G2: Generator<R>> Generator<R> for And<G, G2> {
    open spec fn ready(&self) -> bool {
        self.me.ready() && self.another.ready()
    }

    open spec fn yields(
        &self,
        before: Seq<char>,
        draws: Seq<Draw>,
        res: Result<Seq<char>, GenError>,
    ) -> bool {
        exists|prev: Result<Seq<char>, GenError>, cut: int|
            #![trigger follows(&self.another, prev, draws.skip(cut), res)]
            0 <= cut <= draws.len() && follows(&self.another, prev, draws.skip(cut), res)
                && self.me.yields(before, draws.take(cut), prev)
    }

    fn once(&self, buf: String, rng: &mut R) -> (res: Result<String, GenError>) {
        let first = self.me.once(buf, rng);
        let ghost between = *rng;
        let ghost prev = outcome(first);
        match first {
            Ok(mid) => {
                let res = self.another.once(mid, rng);
                proof {
                    grew_twice(*old(rng), between, *rng);
                    parts_of(drew(*old(rng), between), drew(between, *rng));
                    let cut = drew(*old(rng), between).len() as int;
                    assert(follows(
                        &self.another,
                        prev,
                        drew(*old(rng), *rng).skip(cut),
                        outcome(res),
                    ));
                }
                res
            },
            Err(e) => {
                proof {
                    let draws = drew(*old(rng), *rng);
                    let cut = draws.len() as int;
                    assert(draws.take(cut) =~= draws);
                    assert(follows(&self.another, prev, draws.skip(cut), prev));
                }
                Err(e)
            },
        }
    }
}

/// One of two generators, as a coin of the random source falls: the first
/// for heads, the second for tails.
pub struct Or<G, G2> {
    pub me: G,
    pub another: G2,
}

impl<R: RandomSource, G: Generator<R>, G2: Generator<R>> Generator<R> for Or<G, G2> {
    open spec fn ready(&self) -> bool {
        self.me.ready() && self.another.ready()
    }

    open spec fn yields(
        &self,
        before: Seq<char>,
        draws: Seq<Draw>,
        res: Result<Seq<char>, GenError>,
    ) -> bool {
        draws.len() >= 1 && (draws[0] matches Draw::Coin { heads } && if heads {
            self.me.yields(before, draws.skip(1), res)
        } else {
            self.another.yields(before, draws.skip(1), res)
        })
    }

    fn once(&self, buf: String, rng: &mut R) -> (res: Result<String, GenError>) {
        let heads: bool = rng.coin();
        let ghost between = *rng;
        let res = if heads {
            self.me.once(buf, rng)
        } else {
            self.another.once(buf, rng)
        };
        proof {
            let first = Draw::Coin { heads };
            grew_by_one(*old(rng), between, first);
            grew_twice(*old(rng), between, *rng);
            let draws = drew(*old(rng), *rng);
            assert(draws[0] == first);
            assert(draws.skip(1) =~= drew(between, *rng));
        }
        res
    }
}

/// One of two generators, as a function of the caller decides.
pub struct OrBy<G, G2, F> {
    pub me: G,
    pub another: G2,
    pub f: F,
}

impl<R: RandomSource, G: Generator<R>, G2: Generator<R>, F: Fn() -> bool> Generator<R> for OrBy<
    G,
    G2,
    F,
> {
    open spec fn ready(&self) -> bool {
        self.me.ready() && self.another.ready() && call_requires(self.f, ())
    }

    open spec fn yields(
        &self,
        before: Seq<char>,
        draws: Seq<Draw>,
        res: Result<Seq<char>, GenError>,
    ) -> bool {
        exists|first: bool| #[trigger]
            call_ensures(self.f, (), first) && if first {
                self.me.yields(before, draws, res)
            } else {
                self.another.yields(before, draws, res)
            }
    }

    fn once(&self, buf: String, rng: &mut R) -> (res: Result<String, GenError>) {
        let first: bool = (self.f)();
        if first {
            self.me.once(buf, rng)
        } else {
            self.another.once(buf, rng)
        }
    }
}

/// A generator, then a function on the whole text.
pub struct Mapped<G, F> {
    pub g: G,
    pub f: F,
}

/// `res` is what the function `f` may make of the result `prev`: an error
/// stays as it is, and a text goes through `f`.
pub open spec fn mapped_by<F: Fn(String) -> String>(
    f: &F,
    prev: Result<Seq<char>, GenError>,
    res: Result<Seq<char>, GenError>,
) -> bool {
    match prev {
        Ok(mid) => exists|given: String, made: String| #[trigger]
            call_ensures(*f, (given,), made) && given@ == mid && res == Ok::<
                Seq<char>,
                GenError,
            >(made@),
        Err(e) => res == Err::<Seq<char>, GenError>(e),
    }
}

impl<R: RandomSource, G: Generator<R>, F: Fn(String) -> String> Generator<R> for Mapped<G, F> {
    open spec fn ready(&self) -> bool {
        self.g.ready() && forall|given: String| #[trigger] call_requires(self.f, (given,))
    }

    open spec fn yields(
        &self,
        before: Seq<char>,
        draws: Seq<Draw>,
        res: Result<Seq<char>, GenError>,
    ) -> bool {
        exists|prev: Result<Seq<char>, GenError>| #[trigger]
            mapped_by(&self.f, prev, res) && self.g.yields(before, draws, prev)
    }

    fn once(&self, buf: String, rng: &mut R) -> (res: Result<String, GenError>) {
        match self.g.once(buf, rng) {
            Ok(mid) => {
                let ghost given = mid;
                let made = (self.f)(mid);
                proof {
                    assert(call_ensures(self.f, (given,), made));
                    assert(mapped_by(
                        &self.f,
                        Ok::<Seq<char>, GenError>(given@),
                        Ok::<Seq<char>, GenError>(made@),
                    ));
                }
                Ok(made)
            },
            Err(e) => {
                proof {
                    let prev = Err::<Seq<char>, GenError>(e);
                    assert(mapped_by(&self.f, prev, prev));
                }
                Err(e)
            },
        }
    }
}

/// A generator, a number of times in a row.
pub struct Repeat<G> {
    pub g: G,
    pub times: u32,
}

impl<R: RandomSource, G: Generator<R>> Generator<R> for Repeat<G> {
    open spec fn ready(&self) -> bool {
        self.g.ready()
    }

    open spec fn yields(
        &self,
        before: Seq<char>,
        draws: Seq<Draw>,
        res: Result<Seq<char>, GenError>,
    ) -> bool {
        chain(&self.g, self.times as nat, before, draws, res)
    }

    fn once(&self, buf: String, rng: &mut R) -> (res: Result<String, GenError>) {
        let mut text = buf;
        let mut i: u32 = 0;
        proof {
            grew_not(*old(rng), *rng);
        }
        while i < self.times
            invariant
                i <= self.times,
                self.g.ready(),
                grew(*old(rng), *rng),
                chain(
                    &self.g,
                    i as nat,
                    buf@,
                    drew(*old(rng), *rng),
                    Ok::<Seq<char>, GenError>(text@),
                ),
            decreases self.times - i,
        {
            let ghost prev = Ok::<Seq<char>, GenError>(text@);
            let ghost between = *rng;
            let step = self.g.once(text, rng);
            proof {
                grew_twice(*old(rng), between, *rng);
                parts_of(drew(*old(rng), between), drew(between, *rng));
                let cut = drew(*old(rng), between).len() as int;
                assert(follows(&self.g, prev, drew(*old(rng), *rng).skip(cut), outcome(step)));
                assert(chain(
                    &self.g,
                    (i + 1) as nat,
                    buf@,
                    drew(*old(rng), *rng),
                    outcome(step),
                ));
            }
            match step {
                Ok(next) => {
                    text = next;
                },
                Err(e) => {
                    proof {
                        chain_fails(
                            &self.g,
                            (i + 1) as nat,
                            self.times as nat,
                            buf@,
                            drew(*old(rng), *rng),
                            e,
                        );
                    }
                    return Err(e);
                },
            }
            i += 1;
        }
        Ok(text)
    }
}

/// Once an application has failed, every further one hands the error on
/// and draws nothing.
pub proof fn chain_fails<G: Generator<R>, R: RandomSource>(
    g: &G,
    n: nat,
    m: nat,
    before: Seq<char>,
    draws: Seq<Draw>,
    e: GenError,
)
    requires
        n <= m,
        chain(g, n, before, draws, Err::<Seq<char>, GenError>(e)),
    ensures
        chain(g, m, before, draws, Err::<Seq<char>, GenError>(e)),
    decreases m - n,
{
    if n < m {
        let prev = Err::<Seq<char>, GenError>(e);
        let cut = draws.len() as int;
        assert(draws.take(cut) =~= draws);
        assert(follows(g, prev, draws.skip(cut), prev));
        assert(chain(g, n + 1, before, draws, prev));
        chain_fails(g, n + 1, m, before, draws, e);
    }
}

/// A generator, then a literal.
pub struct Tail<'a, G> {
    pub g: G,
    pub tail: &'a str,
}

/// `res` is the result `prev` with `tail` appended: an error stays as it is.
pub open spec fn tailed(tail: Seq<char>, prev: Result<Seq<char>, GenError>) -> Result<
    Seq<char>,
    GenError,
> {
    match prev {
        Ok(mid) => Ok(mid + tail),
        Err(e) => Err(e),
    }
}

impl<'a, R: RandomSource, G: Generator<R>> Generator<R> for Tail<'a, G> {
    open spec fn ready(&self) -> bool {
        self.g.ready()
    }

    open spec fn yields(
        &self,
        before: Seq<char>,
        draws: Seq<Draw>,
        res: Result<Seq<char>, GenError>,
    ) -> bool {
        exists|prev: Result<Seq<char>, GenError>| #[trigger]
            self.g.yields(before, draws, prev) && res == tailed(self.tail@, prev)
    }

    fn once(&self, buf: String, rng: &mut R) -> (res: Result<String, GenError>) {
        let step = self.g.once(buf, rng);
        let ghost prev = outcome(step);
        match step {
            Ok(mid) => {
                let mut out = mid;
                out.push_str(self.tail);
                proof {
                    assert(self.g.yields(buf@, drew(*old(rng), *rng), prev));
                }
                Ok(out)
            },
            Err(e) => {
                proof {
                    assert(self.g.yields(buf@, drew(*old(rng), *rng), prev));
                }
                Err(e)
            },
        }
    }
}

/// A place to look at the text from. The text passes through as it is; the
/// generator that it holds is kept for the one who looks, and is not run.
pub struct Check<G> {
    pub g: G,
}

impl<R: RandomSource, G: Generator<R>> Generator<R> for Check<G> {
    open spec fn ready(&self) -> bool {
        true
    }

    open spec fn yields(
        &self,
        before: Seq<char>,
        draws: Seq<Draw>,
        res: Result<Seq<char>, GenError>,
    ) -> bool {
        res == Ok::<Seq<char>, GenError>(before) && draws.len() == 0
    }

    fn once(&self, buf: String, rng: &mut R) -> (res: Result<String, GenError>) {
        proof {
            grew_not(*old(rng), *rng);
        }
        Ok(buf)
    }
}

/// A mode bound to its decorators and its vocabulary: the leaf of a tree of
/// generators.
pub struct RgBindMode<'a> {
    pub rg: Rg<'a>,
    pub mode: Mode<'a>,
    pub words: Lexicon<'a>,
}

impl<'a> RgBindMode<'a> {
    /// The mode without decorators.
    pub fn new(mode: Mode<'a>, words: Lexicon<'a>) -> (leaf: Self)
        ensures
            leaf.rg.left_dec is None,
            leaf.rg.right_dec is None,
            leaf.mode == mode,
            leaf.words == words,
    {
        RgBindMode { rg: Rg::new(), mode, words }
    }

    /// The mode with the decorators given.
    pub fn with_dec(
        left_dec: Option<&'a str>,
        right_dec: Option<&'a str>,
        mode: Mode<'a>,
        words: Lexicon<'a>,
    ) -> (leaf: Self)
        ensures
            leaf.rg.left_dec == left_dec,
            leaf.rg.right_dec == right_dec,
            leaf.mode == mode,
            leaf.words == words,
    {
        RgBindMode { rg: Rg { left_dec, right_dec }, mode, words }
    }
}

impl<'a, R: RandomSource> Generator<R> for RgBindMode<'a> {
    open spec fn ready(&self) -> bool {
        true
    }

    open spec fn yields(
        &self,
        before: Seq<char>,
        draws: Seq<Draw>,
        res: Result<Seq<char>, GenError>,
    ) -> bool {
        match res {
            Ok(after) => exists|body: Seq<char>| #[trigger]
                self.mode.speaks(self.words, body) && self.mode.told(self.words, draws, body)
                    && after == before + self.rg.wrap(true, body),
            Err(e) => self.mode.may_fail(self.words, e),
        }
    }

    fn once(&self, buf: String, rng: &mut R) -> (res: Result<String, GenError>) {
        let mut buf = buf;
        match self.rg.resolve(&self.mode, &mut buf, true, true, &self.words, rng) {
            Ok(_) => Ok(buf),
            Err(e) => Err(e),
        }
    }
}

/// One generator of a collection, at the index that a function of the
/// caller gives for the size of the collection.
#[verifier::reject_recursive_types(R)]
pub struct SelectBy<'a, R, F> {
    pub generators: &'a [&'a dyn Generator<R>],
    pub f: F,
}

/// One generator of a collection, at the index that the random source gives
/// for the size of the collection.
#[verifier::reject_recursive_types(R)]
pub struct Select<'a, R> {
    pub generators: &'a [&'a dyn Generator<R>],
}

/// Every generator of the collection can be called.
pub open spec fn all_ready<R: RandomSource>(generators: Seq<&dyn Generator<R>>) -> bool {
    forall|i: int| 0 <= i < generators.len() ==> (#[trigger] generators[i]).ready()
}

/// `res` is what choosing the index `idx` for the text `before` comes to:
/// the result of the generator at that index, with the draws that it
/// makes, or `InvalidState` and no draw where the collection has no such
/// index.
pub open spec fn selected<R: RandomSource>(
    generators: Seq<&dyn Generator<R>>,
    idx: int,
    before: Seq<char>,
    draws: Seq<Draw>,
    res: Result<Seq<char>, GenError>,
) -> bool {
    if 0 <= idx < generators.len() {
        generators[idx].yields(before, draws, res)
    } else {
        res == Err::<Seq<char>, GenError>(GenError::InvalidState) && draws.len() == 0
    }
}

/// Applies the generator at `idx`, or fails with `InvalidState` where the
/// collection has no such index.
pub fn apply_at<R: RandomSource>(
    generators: &[&dyn Generator<R>],
    idx: usize,
    buf: String,
    rng: &mut R,
) -> (res: Result<String, GenError>)
    requires
        all_ready(generators@),
    ensures
        grew(*old(rng), *final(rng)),
        selected(generators@, idx as int, buf@, drew(*old(rng), *final(rng)), outcome(res)),
        idx >= generators@.len() ==> res is Err,
{
    if idx < generators.len() {
        generators[idx].once(buf, rng)
    } else {
        proof {
            grew_not(*old(rng), *rng);
        }
        Err(GenError::InvalidState)
    }
}

impl<'a, R: RandomSource, F: Fn(usize) -> usize> Generator<R> for SelectBy<'a, R, F> {
    open spec fn ready(&self) -> bool {
        all_ready(self.generators@) && call_requires(self.f, (self.generators@.len() as usize,))
    }

    open spec fn yields(
        &self,
        before: Seq<char>,
        draws: Seq<Draw>,
        res: Result<Seq<char>, GenError>,
    ) -> bool {
        if self.generators@.len() == 0 {
            res == Ok::<Seq<char>, GenError>(before) && draws.len() == 0
        } else {
            exists|idx: usize| #[trigger]
                call_ensures(self.f, (self.generators@.len() as usize,), idx) && selected(
                    self.generators@,
                    idx as int,
                    before,
                    draws,
                    res,
                )
        }
    }

    fn once(&self, buf: String, rng: &mut R) -> (res: Result<String, GenError>) {
        if self.generators.len() == 0 {
            proof {
                grew_not(*old(rng), *rng);
            }
            return Ok(buf);
        }
        let idx: usize = (self.f)(self.generators.len());
        apply_at(self.generators, idx, buf, rng)
    }
}

impl<'a, R: RandomSource> Generator<R> for Select<'a, R> {
    open spec fn ready(&self) -> bool {
        all_ready(self.generators@)
    }

    open spec fn yields(
        &self,
        before: Seq<char>,
        draws: Seq<Draw>,
        res: Result<Seq<char>, GenError>,
    ) -> bool {
        if self.generators@.len() == 0 {
            res == Ok::<Seq<char>, GenError>(before) && draws.len() == 0
        } else {
            draws.len() >= 1 && (draws[0] matches Draw::Index { len, got } && len
                == self.generators@.len() && got < len && self.generators@[got as int].yields(
                before,
                draws.skip(1),
                res,
            ))
        }
    }

    fn once(&self, buf: String, rng: &mut R) -> (res: Result<String, GenError>) {
        if self.generators.len() == 0 {
            proof {
                grew_not(*old(rng), *rng);
            }
            return Ok(buf);
        }
        let idx: usize = rng.index(self.generators.len());
        let ghost between = *rng;
        let res = apply_at(self.generators, idx, buf, rng);
        proof {
            let first = Draw::Index { len: self.generators@.len() as usize, got: idx };
            grew_by_one(*old(rng), between, first);
            grew_twice(*old(rng), between, *rng);
            let draws = drew(*old(rng), *rng);
            assert(draws[0] == first);
            assert(draws.skip(1) =~= drew(between, *rng));
        }
        res
    }
}

/// One of `generators`, at the index that `f` gives for their number. An
/// empty collection leaves the text as it is, and `f` is not asked.
pub fn select_by<'a, R: RandomSource, F: Fn(usize) -> usize>(
    generators: &'a [&'a dyn Generator<R>],
    f: F,
) -> (chosen: SelectBy<'a, R, F>)
    ensures
        chosen.generators@ == generators@,
        chosen.f == f,
{
    SelectBy { generators, f }
}

/// One of `generators`, at an index drawn from the random source. An empty
/// collection leaves the text as it is.
pub fn select<'a, R: RandomSource>(generators: &'a [&'a dyn Generator<R>]) -> (chosen: Select<
    'a,
    R,
>)
    ensures
        chosen.generators@ == generators@,
{
    Select { generators }
}

/// Repeating a generator no time at all leaves the text as it is and draws
/// nothing.
pub proof fn repeat_none<G: Generator<R>, R: RandomSource>(
    again: Repeat<G>,
    before: Seq<char>,
    draws: Seq<Draw>,
    res: Result<Seq<char>, GenError>,
)
    requires
        again.times == 0,
    ensures
        again.yields(before, draws, res) <==> res == Ok::<Seq<char>, GenError>(before)
            && draws.len() == 0,
{
}

/// Repeating a generator `n + 1` times is repeating it `n` times and then
/// applying it once more to what that gave; the draws of the one come
/// behind those of the other.
pub proof fn repeat_more<G: Generator<R>, R: RandomSource>(
    again: Repeat<G>,
    fewer: Repeat<G>,
    before: Seq<char>,
    draws: Seq<Draw>,
    res: Result<Seq<char>, GenError>,
)
    requires
        fewer.g == again.g,
        again.times == fewer.times + 1,
    ensures
        again.yields(before, draws, res) <==> exists|prev: Result<Seq<char>, GenError>, cut: int|
            #![trigger follows(&again.g, prev, draws.skip(cut), res)]
            0 <= cut <= draws.len() && follows(&again.g, prev, draws.skip(cut), res)
                && fewer.yields(before, draws.take(cut), prev),
{
    assert((again.times as nat - 1) as nat == fewer.times as nat);
}

/// A text that a generator with a tail gives ends with the tail, and what
/// stands before the tail is the text that the generator alone gives for
/// the same draws.
pub proof fn tail_last<G: Generator<R>, R: RandomSource>(
    tailed_gen: Tail<'_, G>,
    before: Seq<char>,
    draws: Seq<Draw>,
    after: Seq<char>,
)
    requires
        tailed_gen.yields(before, draws, Ok::<Seq<char>, GenError>(after)),
    ensures
        after.len() >= tailed_gen.tail@.len(),
        after.skip(after.len() - tailed_gen.tail@.len()) == tailed_gen.tail@,
        tailed_gen.g.yields(
            before,
            draws,
            Ok::<Seq<char>, GenError>(after.take(after.len() - tailed_gen.tail@.len())),
        ),
{
    let prev = choose|prev: Result<Seq<char>, GenError>| #[trigger]
        tailed_gen.g.yields(before, draws, prev) && Ok::<Seq<char>, GenError>(after) == tailed(
            tailed_gen.tail@,
            prev,
        );
    let mid = prev->Ok_0;
    assert(after == mid + tailed_gen.tail@);
    assert(after.skip(after.len() - tailed_gen.tail@.len()) =~= tailed_gen.tail@);
    assert(after.take(after.len() - tailed_gen.tail@.len()) =~= mid);
}

/// Where the deciding function only ever says `first`, the choice between
/// two generators gives what the one so named gives, and where the function
/// can say so, it gives all of it.
pub proof fn or_by_fixed<G: Generator<R>, G2: Generator<R>, F: Fn() -> bool, R: RandomSource>(
    either: OrBy<G, G2, F>,
    first: bool,
    before: Seq<char>,
    draws: Seq<Draw>,
    res: Result<Seq<char>, GenError>,
)
    requires
        forall|said: bool| #[trigger] call_ensures(either.f, (), said) ==> said == first,
    ensures
        either.yields(before, draws, res) ==> if first {
            either.me.yields(before, draws, res)
        } else {
            either.another.yields(before, draws, res)
        },
        call_ensures(either.f, (), first) ==> (either.yields(before, draws, res) <==> if first {
            either.me.yields(before, draws, res)
        } else {
            either.another.yields(before, draws, res)
        }),
{
}

/// The choice by a coin gives what the first generator gives where the
/// coin that was drawn shows heads, and what the second gives where it
/// shows tails.
pub proof fn or_by_coin<G: Generator<R>, G2: Generator<R>, R: RandomSource>(
    either: Or<G, G2>,
    heads: bool,
    before: Seq<char>,
    draws: Seq<Draw>,
    res: Result<Seq<char>, GenError>,
)
    requires
        draws.len() >= 1,
        draws[0] == (Draw::Coin { heads }),
    ensures
        either.yields(before, draws, res) <==> if heads {
            either.me.yields(before, draws.skip(1), res)
        } else {
            either.another.yields(before, draws.skip(1), res)
        },
{
}

/// Where the index function only ever gives `idx`, a place of the
/// collection, the selection gives what the generator at `idx` gives, and
/// where the function can give `idx`, it gives all of it.
pub proof fn select_by_fixed<F: Fn(usize) -> usize, R: RandomSource>(
    chosen: SelectBy<'_, R, F>,
    idx: usize,
    before: Seq<char>,
    draws: Seq<Draw>,
    res: Result<Seq<char>, GenError>,
)
    requires
        idx < chosen.generators@.len(),
        forall|given: usize| #[trigger]
            call_ensures(chosen.f, (chosen.generators@.len() as usize,), given) ==> given == idx,
    ensures
        chosen.yields(before, draws, res) ==> chosen.generators@[idx as int].yields(
            before,
            draws,
            res,
        ),
        call_ensures(chosen.f, (chosen.generators@.len() as usize,), idx) ==> (chosen.yields(
            before,
            draws,
            res,
        ) <==> chosen.generators@[idx as int].yields(before, draws, res)),
{
    if call_ensures(chosen.f, (chosen.generators@.len() as usize,), idx)
        && chosen.generators@[idx as int].yields(before, draws, res) {
        assert(selected(chosen.generators@, idx as int, before, draws, res));
    }
}

/// Where the index function can give an index outside the collection, the
/// selection can fail with `InvalidState`, without a draw.
pub proof fn select_by_outside<F: Fn(usize) -> usize, R: RandomSource>(
    chosen: SelectBy<'_, R, F>,
    idx: usize,
    before: Seq<char>,
)
    requires
        0 < chosen.generators@.len() <= idx,
        call_ensures(chosen.f, (chosen.generators@.len() as usize,), idx),
    ensures
        chosen.yields(
            before,
            Seq::<Draw>::empty(),
            Err::<Seq<char>, GenError>(GenError::InvalidState),
        ),
{
    assert(selected(
        chosen.generators@,
        idx as int,
        before,
        Seq::<Draw>::empty(),
        Err::<Seq<char>, GenError>(GenError::InvalidState),
    ));
}

/// Sequencing is associative: three generators in a row give the same for
/// the same draws, whichever two are paired first.
pub proof fn and_associates<A: Generator<R>, B: Generator<R>, C: Generator<R>, R: RandomSource>(
    left: And<And<A, B>, C>,
    right: And<A, And<B, C>>,
    before: Seq<char>,
    draws: Seq<Draw>,
    res: Result<Seq<char>, GenError>,
)
    requires
        left.me.me == right.me,
        left.me.another == right.another.me,
        left.another == right.another.another,
    ensures
        left.yields(before, draws, res) <==> right.yields(before, draws, res),
{
    let a = right.me;
    let b = right.another.me;
    let c = right.another.another;
    if left.yields(before, draws, res) {
        let (ab, far) = choose|prev: Result<Seq<char>, GenError>, cut: int|
            #![trigger follows(&c, prev, draws.skip(cut), res)]
            0 <= cut <= draws.len() && follows(&c, prev, draws.skip(cut), res) && left.me.yields(
                before,
                draws.take(cut),
                prev,
            );
        let early = draws.take(far);
        let (first, near) = choose|prev: Result<Seq<char>, GenError>, cut: int|
            #![trigger follows(&b, prev, early.skip(cut), ab)]
            0 <= cut <= early.len() && follows(&b, prev, early.skip(cut), ab) && a.yields(
                before,
                early.take(cut),
                prev,
            );
        let late = draws.skip(near);
        assert(early.take(near) =~= draws.take(near));
        assert(late.take(far - near) =~= early.skip(near));
        assert(late.skip(far - near) =~= draws.skip(far));
        match first {
            Ok(mid) => {
                assert(follows(&c, ab, late.skip(far - near), res));
                assert(right.another.yields(mid, late, res));
            },
            Err(e) => {
                assert(late =~= Seq::<Draw>::empty());
            },
        }
        assert(follows(&right.another, first, draws.skip(near), res));
    }
    if right.yields(before, draws, res) {
        let (first, near) = choose|prev: Result<Seq<char>, GenError>, cut: int|
            #![trigger follows(&right.another, prev, draws.skip(cut), res)]
            0 <= cut <= draws.len() && follows(&right.another, prev, draws.skip(cut), res)
                && a.yields(before, draws.take(cut), prev);
        let late = draws.skip(near);
        match first {
            Ok(mid) => {
                let (second, gap) = choose|prev: Result<Seq<char>, GenError>, cut: int|
                    #![trigger follows(&c, prev, late.skip(cut), res)]
                    0 <= cut <= late.len() && follows(&c, prev, late.skip(cut), res) && b.yields(
                        mid,
                        late.take(cut),
                        prev,
                    );
                let far = near + gap;
                let early = draws.take(far);
                assert(early.take(near) =~= draws.take(near));
                assert(early.skip(near) =~= late.take(gap));
                assert(draws.skip(far) =~= late.skip(gap));
                assert(follows(&b, first, early.skip(near), second));
                assert(left.me.yields(before, early, second));
                assert(follows(&c, second, draws.skip(far), res));
            },
            Err(e) => {
                let failed = Err::<Seq<char>, GenError>(e);
                let far = draws.len() as int;
                let early = draws.take(far);
                assert(early =~= draws);
                assert(early.take(near) =~= draws.take(near));
                assert(early.skip(near) =~= late);
                assert(follows(&b, first, early.skip(near), failed));
                assert(left.me.yields(before, early, failed));
                assert(follows(&c, failed, draws.skip(far), res));
            },
        }
    }
}

} // verus!
