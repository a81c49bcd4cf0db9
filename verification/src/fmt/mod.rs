//! Generators of structured documents.

use vstd::prelude::*;

pub mod json;

verus! {

/// Writes the indentation of a nesting level: one unit of text per level.
#[derive(Debug)]
pub struct LevelPrinter {
    pub level: i32,
    pub print: &'static str,
}

/// `unit` written `n` times in a row.
pub open spec fn repeated(unit: Seq<char>, n: nat) -> Seq<char>
    decreases n,
{
    if n == 0 {
        Seq::empty()
    } else {
        repeated(unit, (n - 1) as nat) + unit
    }
}

impl LevelPrinter {
    /// A printer at level 0 that writes `print` once per level.
    pub fn new(print: &'static str) -> (printer: Self)
        ensures
            printer.level == 0,
            printer.print@ == print@,
    {
        LevelPrinter { level: 0, print }
    }

    /// The level that the printer is at.
    pub fn level(&self) -> (level: i32)
        ensures
            level == self.level,
    {
        self.level
    }

    /// Goes one level deeper.
    pub fn upgrade(&mut self)
        requires
            old(self).level < i32::MAX,
        ensures
            final(self).level == old(self).level + 1,
            final(self).print == old(self).print,
    {
        self.level += 1;
    }

    /// Comes one level back.
    pub fn downgrade(&mut self)
        requires
            old(self).level > i32::MIN,
        ensures
            final(self).level == old(self).level - 1,
            final(self).print == old(self).print,
    {
        self.level -= 1;
    }

    /// How many units are written at the level `level` moved by `delta`:
    /// none below level 0.
    pub open spec fn units(level: int, delta: int) -> nat {
        if level + delta > 0 {
            (level + delta) as nat
        } else {
            0
        }
    }

    /// Appends the indentation of the level moved by `delta`.
    pub fn print(&self, buf: &mut String, delta: i32)
        requires
            i32::MIN <= self.level + delta <= i32::MAX,
        ensures
            final(buf)@ == old(buf)@ + repeated(
                self.print@,
                Self::units(self.level as int, delta as int),
            ),
    {
        let total: i32 = self.level + delta;
        let mut i: i32 = 0;
        proof {
            assert(buf@ =~= old(buf)@ + repeated(self.print@, 0));
        }
        while i < total
            invariant
                0 <= i,
                i == 0 || i <= total,
                buf@ == old(buf)@ + repeated(self.print@, i as nat),
            decreases total - i,
        {
            buf.push_str(self.print);
            proof {
                assert(buf@ =~= old(buf)@ + repeated(self.print@, (i + 1) as nat));
            }
            i += 1;
        }
    }
}

} // verus!
