//! Where the random choices come from, and the account that a source keeps
//! of what it has given.

use rand::Rng;
use vstd::prelude::*;

verus! {

/// One draw: what was asked of a source, and what it gave.
pub enum Draw {
    /// An index into a collection of `len` entries.
    Index { len: usize, got: usize },
    /// A number of the inclusive range from `lo` to `hi`.
    Range { lo: u32, hi: u32, number: u32 },
    /// A coin flip.
    Coin { heads: bool },
}

/// A supply of random choices. Every generator draws from one of these and
/// never owns it. A source keeps an account of its draws, so that what a
/// generator wrote can be told from what the source gave.
pub trait RandomSource {
    /// The account: every draw that the source has given, oldest first.
    spec fn drawn(&self) -> Seq<Draw>;

    /// The law of the source: `d` is a draw that the source may give. No
    /// draw changes the law.
    spec fn gives(&self, d: Draw) -> bool;

    /// An index into a collection of `len` entries.
    fn index(&mut self, len: usize) -> (i: usize)
        requires
            len > 0,
        ensures
            i < len,
            final(self).drawn() == old(self).drawn().push(Draw::Index { len, got: i }),
            old(self).gives(Draw::Index { len, got: i }),
            forall|d: Draw| #[trigger] final(self).gives(d) == old(self).gives(d),
    ;

    /// A number of the inclusive range from `lo` to `hi`.
    fn range(&mut self, lo: u32, hi: u32) -> (r: u32)
        requires
            lo <= hi,
        ensures
            lo <= r <= hi,
            final(self).drawn() == old(self).drawn().push(Draw::Range { lo, hi, number: r }),
            old(self).gives(Draw::Range { lo, hi, number: r }),
            forall|d: Draw| #[trigger] final(self).gives(d) == old(self).gives(d),
    ;

    /// A coin flip.
    fn coin(&mut self) -> (heads: bool)
        ensures
            final(self).drawn() == old(self).drawn().push(Draw::Coin { heads }),
            old(self).gives(Draw::Coin { heads }),
            forall|d: Draw| #[trigger] final(self).gives(d) == old(self).gives(d),
    ;
}

/// What was given lies within what was asked for.
pub open spec fn in_bounds(d: Draw) -> bool {
    match d {
        Draw::Index { len, got } => got < len,
        Draw::Range { lo, hi, number } => lo <= number <= hi,
        Draw::Coin { heads } => true,
    }
}

/// The draws that stand in the account of `after` behind those of `before`.
pub open spec fn drew<R: RandomSource>(before: R, after: R) -> Seq<Draw> {
    after.drawn().skip(before.drawn().len() as int)
}

/// The account of `after` is that of `before` with draws added at its end,
/// each of them one that the source may give, and the law of the source is
/// as it was.
pub open spec fn grew<R: RandomSource>(before: R, after: R) -> bool {
    &&& before.drawn().len() <= after.drawn().len()
    &&& after.drawn() == before.drawn() + drew(before, after)
    &&& forall|k: int|
        0 <= k < drew(before, after).len() ==> before.gives(#[trigger] drew(before, after)[k])
    &&& forall|d: Draw| #[trigger] after.gives(d) == before.gives(d)
}

/// An account that grew and then grew again has grown, by the draws of the
/// first time and then those of the second.
pub proof fn grew_twice<R: RandomSource>(before: R, between: R, after: R)
    requires
        grew(before, between),
        grew(between, after),
    ensures
        grew(before, after),
        drew(before, after) == drew(before, between) + drew(between, after),
{
    let all = drew(before, after);
    let earlier = drew(before, between);
    let later = drew(between, after);
    assert(all =~= earlier + later);
    assert(after.drawn() =~= before.drawn() + all);
    assert forall|k: int| 0 <= k < all.len() implies before.gives(#[trigger] all[k]) by {
        if k < earlier.len() {
            assert(all[k] == earlier[k]);
        } else {
            assert(all[k] == later[k - earlier.len()]);
            assert(between.gives(later[k - earlier.len()]));
        }
    }
    assert forall|d: Draw| #[trigger] after.gives(d) == before.gives(d) by {
        assert(after.gives(d) == between.gives(d));
    }
}

/// An account that got the one draw `d` has grown by it.
pub proof fn grew_by_one<R: RandomSource>(before: R, after: R, d: Draw)
    requires
        after.drawn() == before.drawn().push(d),
        before.gives(d),
        forall|e: Draw| #[trigger] after.gives(e) == before.gives(e),
    ensures
        grew(before, after),
        drew(before, after) == seq![d],
{
    assert(drew(before, after) =~= seq![d]);
    assert(after.drawn() =~= before.drawn() + seq![d]);
}

/// An account that did not change, of a source whose law did not change,
/// has grown by no draw.
pub proof fn grew_not<R: RandomSource>(before: R, after: R)
    requires
        after.drawn() == before.drawn(),
        forall|e: Draw| #[trigger] after.gives(e) == before.gives(e),
    ensures
        grew(before, after),
        drew(before, after).len() == 0,
{
    assert(after.drawn() =~= before.drawn() + drew(before, after));
}

/// `rand::thread_rng().gen_range(0..len)`: a uniform index below `len`. The
/// call panics on an empty range, which `requires` leaves out; the sampler
/// returns the lower bound plus an offset below the width of the range.
#[verifier::external_body]
fn thread_index(len: usize) -> (i: usize)
    requires
        len > 0,
    ensures
        i < len,
{
    rand::thread_rng().gen_range(0..len)
}

/// `rand::thread_rng().gen_range(lo..=hi)`: a uniform number of the inclusive
/// range. The call panics when `lo > hi`, which `requires` leaves out; the
/// sampler returns `lo` plus an offset of at most `hi - lo`.
#[verifier::external_body]
fn thread_range(lo: u32, hi: u32) -> (r: u32)
    requires
        lo <= hi,
    ensures
        lo <= r <= hi,
{
    rand::thread_rng().gen_range(lo..=hi)
}

/// `rand::thread_rng().gen::<bool>()`: a fair coin. Nothing is known of the
/// outcome.
#[verifier::external_body]
fn thread_coin() -> (heads: bool) {
    rand::thread_rng().gen()
}

/// The thread-local generator of the `rand` crate, seeded by the system. A
/// draw panics only where the system cannot seed the generator.
pub struct ThreadRandom {
    account: Ghost<Seq<Draw>>,
}

impl ThreadRandom {
    /// A handle on the generator of the calling thread, with an empty
    /// account.
    pub fn new() -> (s: Self)
        ensures
            s.drawn() == Seq::<Draw>::empty(),
    {
        ThreadRandom { account: Ghost(Seq::empty()) }
    }
}

impl RandomSource for ThreadRandom {
    closed spec fn drawn(&self) -> Seq<Draw> {
        self.account@
    }

    open spec fn gives(&self, d: Draw) -> bool {
        in_bounds(d)
    }

    fn index(&mut self, len: usize) -> (i: usize) {
        let i = thread_index(len);
        self.account = Ghost(self.account@.push(Draw::Index { len, got: i }));
        i
    }

    fn range(&mut self, lo: u32, hi: u32) -> (r: u32) {
        let r = thread_range(lo, hi);
        self.account = Ghost(self.account@.push(Draw::Range { lo, hi, number: r }));
        r
    }

    fn coin(&mut self) -> (heads: bool) {
        let heads = thread_coin();
        self.account = Ghost(self.account@.push(Draw::Coin { heads }));
        heads
    }
}

/// A source without chance: every draw is the same `step` from the bottom of
/// what is asked for, held back to the top where the step overshoots, and
/// every coin shows `heads`.
pub struct Fixed {
    pub step: u32,
    pub heads: bool,
    pub account: Ghost<Seq<Draw>>,
}

impl Fixed {
    /// The source that always steps `step` and whose coin shows `heads`,
    /// with an empty account.
    pub fn new(step: u32, heads: bool) -> (s: Self)
        ensures
            s.step == step,
            s.heads == heads,
            s.drawn() == Seq::<Draw>::empty(),
    {
        Fixed { step, heads, account: Ghost(Seq::empty()) }
    }

    /// What `index` returns for a collection of `len` entries.
    pub open spec fn index_of(&self, len: usize) -> usize {
        if (self.step as int) < (len as int) {
            self.step as usize
        } else {
            (len - 1) as usize
        }
    }

    /// What `range` returns for the bounds `lo` and `hi`.
    pub open spec fn range_of(&self, lo: u32, hi: u32) -> u32 {
        if self.step as int <= hi - lo {
            (lo + self.step) as u32
        } else {
            hi
        }
    }
}

impl RandomSource for Fixed {
    open spec fn drawn(&self) -> Seq<Draw> {
        self.account@
    }

    open spec fn gives(&self, d: Draw) -> bool {
        match d {
            Draw::Index { len, got } => len > 0 && got == self.index_of(len),
            Draw::Range { lo, hi, number } => lo <= hi && number == self.range_of(lo, hi),
            Draw::Coin { heads } => heads == self.heads,
        }
    }

    fn index(&mut self, len: usize) -> (i: usize)
        ensures
            i == old(self).index_of(len),
            final(self).step == old(self).step,
            final(self).heads == old(self).heads,
    {
        let step: usize = self.step as usize;
        let i: usize = if step < len {
            step
        } else {
            len - 1
        };
        self.account = Ghost(self.account@.push(Draw::Index { len, got: i }));
        i
    }

    fn range(&mut self, lo: u32, hi: u32) -> (r: u32)
        ensures
            r == old(self).range_of(lo, hi),
            final(self).step == old(self).step,
            final(self).heads == old(self).heads,
    {
        let r: u32 = if self.step <= hi - lo {
            lo + self.step
        } else {
            hi
        };
        self.account = Ghost(self.account@.push(Draw::Range { lo, hi, number: r }));
        r
    }

    fn coin(&mut self) -> (heads: bool)
        ensures
            heads == old(self).heads,
            final(self).step == old(self).step,
            final(self).heads == old(self).heads,
    {
        let heads = self.heads;
        self.account = Ghost(self.account@.push(Draw::Coin { heads }));
        heads
    }
}

/// A source that reads its draws off a list of numbers, one number for each
/// draw, and starts again at the end of the list. An index is the number
/// taken modulo the size of the collection, a number of a range the lower
/// bound plus the number modulo the width of the range, and a coin shows
/// heads for an odd number. An empty list stands for the number 0.
pub struct Script {
    steps: Vec<u32>,
    at: usize,
    account: Ghost<Seq<Draw>>,
}

impl Script {
    /// The source that reads `steps` from its beginning, with an empty
    /// account.
    pub fn new(steps: Vec<u32>) -> (s: Self)
        ensures
            s.steps() == steps@,
            s.at() == 0,
            s.drawn() == Seq::<Draw>::empty(),
    {
        Script { steps, at: 0, account: Ghost(Seq::empty()) }
    }

    /// The list of numbers.
    pub closed spec fn steps(&self) -> Seq<u32> {
        self.steps@
    }

    /// How many numbers were taken since the list was last begun.
    pub closed spec fn at(&self) -> nat {
        self.at as nat
    }

    /// The number that the next draw is read off.
    pub open spec fn number(&self) -> u32 {
        if self.steps().len() == 0 {
            0
        } else {
            self.steps()[(self.at() % self.steps().len()) as int]
        }
    }

    /// The place in the list after one more number was taken.
    pub open spec fn moved(&self) -> nat {
        if self.steps().len() == 0 || self.at() % self.steps().len() + 1 >= self.steps().len() {
            0
        } else {
            self.at() % self.steps().len() + 1
        }
    }

    /// Takes the next number off the list.
    fn take(&mut self) -> (number: u32)
        ensures
            number == old(self).number(),
            final(self).steps() == old(self).steps(),
            final(self).at() == old(self).moved(),
            final(self).drawn() == old(self).drawn(),
    {
        if self.steps.len() == 0 {
            self.at = 0;
            return 0;
        }
        let here: usize = self.at % self.steps.len();
        let number: u32 = self.steps[here];
        self.at = if here + 1 >= self.steps.len() {
            0
        } else {
            here + 1
        };
        number
    }
}

impl RandomSource for Script {
    closed spec fn drawn(&self) -> Seq<Draw> {
        self.account@
    }

    open spec fn gives(&self, d: Draw) -> bool {
        in_bounds(d)
    }

    fn index(&mut self, len: usize) -> (i: usize)
        ensures
            i == old(self).number() as usize % len,
            final(self).steps() == old(self).steps(),
            final(self).at() == old(self).moved(),
    {
        let number: u32 = self.take();
        let i: usize = number as usize % len;
        self.account = Ghost(self.account@.push(Draw::Index { len, got: i }));
        i
    }

    fn range(&mut self, lo: u32, hi: u32) -> (r: u32)
        ensures
            r == lo + old(self).number() as int % (hi - lo + 1),
            final(self).steps() == old(self).steps(),
            final(self).at() == old(self).moved(),
    {
        let number: u32 = self.take();
        let width: u64 = (hi - lo) as u64 + 1;
        let off: u64 = number as u64 % width;
        let r: u32 = lo + off as u32;
        self.account = Ghost(self.account@.push(Draw::Range { lo, hi, number: r }));
        r
    }

    fn coin(&mut self) -> (heads: bool)
        ensures
            heads == (old(self).number() % 2 == 1),
            final(self).steps() == old(self).steps(),
            final(self).at() == old(self).moved(),
    {
        let number: u32 = self.take();
        let heads: bool = number % 2 == 1;
        self.account = Ghost(self.account@.push(Draw::Coin { heads }));
        heads
    }
}

} // verus!
