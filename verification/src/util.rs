//! Single draws, checked: each returns an error where the request cannot be
//! served.

use crate::error::GenError;
use crate::source::{Draw, RandomSource};
use std::ops::RangeInclusive;
use vstd::prelude::*;

verus! {

/// One entry of `s`, at the index that `rng` gives for its size, or
/// `InvalidArgument` where `s` holds none; then nothing is drawn.
pub fn rand_slice<'a, T, R: RandomSource>(s: &'a [T], rng: &mut R) -> (res: Result<&'a T, GenError>)
    ensures
        s@.len() == 0 <==> res is Err,
        res is Err ==> res->Err_0 == GenError::InvalidArgument && final(rng).drawn() == old(
            rng,
        ).drawn(),
        res is Ok ==> exists|i: int|
            0 <= i < s@.len() && s@[i] == *res->Ok_0 && final(rng).drawn() == old(
                rng,
            ).drawn().push(Draw::Index { len: s@.len() as usize, got: i as usize }) && old(
                rng,
            ).gives(Draw::Index { len: s@.len() as usize, got: i as usize }),
        forall|d: Draw| #[trigger] final(rng).gives(d) == old(rng).gives(d),
{
    if s.len() == 0 {
        return Err(GenError::InvalidArgument);
    }
    let idx: usize = rng.index(s.len());
    Ok(&s[idx])
}

/// The coin that `rng` flips next.
pub fn rand_or<R: RandomSource>(rng: &mut R) -> (heads: bool)
    ensures
        final(rng).drawn() == old(rng).drawn().push(Draw::Coin { heads }),
        old(rng).gives(Draw::Coin { heads }),
        forall|d: Draw| #[trigger] final(rng).gives(d) == old(rng).gives(d),
{
    rng.coin()
}

/// The number that `rng` gives for the inclusive range, or `InvalidRange`
/// where its lower bound lies above its upper bound; then nothing is drawn.
pub fn rand_range<R: RandomSource>(range: &RangeInclusive<u32>, rng: &mut R) -> (res: Result<
    u32,
    GenError,
>)
    ensures
        range@.start > range@.end <==> res is Err,
        res is Err ==> res->Err_0 == GenError::InvalidRange && final(rng).drawn() == old(
            rng,
        ).drawn(),
        res is Ok ==> range@.start <= res->Ok_0 <= range@.end,
        res is Ok ==> final(rng).drawn() == old(rng).drawn().push(
            Draw::Range { lo: range@.start, hi: range@.end, number: res->Ok_0 },
        ),
        res is Ok ==> old(rng).gives(
            Draw::Range { lo: range@.start, hi: range@.end, number: res->Ok_0 },
        ),
        forall|d: Draw| #[trigger] final(rng).gives(d) == old(rng).gives(d),
{
    let lo: u32 = *range.start();
    let hi: u32 = *range.end();
    if lo > hi {
        return Err(GenError::InvalidRange);
    }
    Ok(rng.range(lo, hi))
}

} // verus!
