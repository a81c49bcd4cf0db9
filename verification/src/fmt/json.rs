//! Random documents in the shape of JSON: an object of fields, whose values
//! are strings, numbers, booleans, decimals, objects and arrays.

use crate::engine::Rg;
use crate::error::GenError;
use crate::extend::{
    boolean_of, decimal_text, decimal_told, is_decimal, is_numeric, numeric_told, Case,
};
use crate::fmt::repeated;
use crate::mode::{digits, digits_are, is_run, letters_are, run_told};
use crate::source::{drew, grew, grew_by_one, grew_not, grew_twice, Draw, RandomSource};
use crate::util::rand_range;
use std::ops::RangeInclusive;
use vstd::prelude::*;

verus! {

/// What a document is made of: how many fields an object has, how long its
/// numbers, strings and arrays are, and how deep it nests.
pub struct Json {
    pub items: RangeInclusive<u32>,
    pub numeric_rg: RangeInclusive<u32>,
    pub string_rg: RangeInclusive<u32>,
    pub array_rg: RangeInclusive<u32>,
    pub float_int_rg: RangeInclusive<u32>,
    pub float_rg: RangeInclusive<u32>,
    pub string_case: Case,
    pub max_level: u32,
}

/// The kinds of value.
#[derive(Debug, Clone, Copy, PartialEq, Eq, Structural)]
pub enum Category {
    Text,
    Number,
    Boolean,
    Decimal,
    Object,
    Array,
}

/// The kind of value that a roll stands for. Up to the greatest depth a
/// roll from 1 to 100 is read in bands: up to 20 a string, up to 40 a
/// number, up to 60 a boolean, up to 80 a decimal, up to 90 an object, and
/// above that an array. Beyond the greatest depth a roll from 1 to 4 names
/// one of the four kinds that hold no other value.
pub open spec fn category_of(roll: u32, deep: bool) -> Category {
    if deep {
        if roll <= 1 {
            Category::Text
        } else if roll == 2 {
            Category::Number
        } else if roll == 3 {
            Category::Boolean
        } else {
            Category::Decimal
        }
    } else {
        if roll <= 20 {
            Category::Text
        } else if roll <= 40 {
            Category::Number
        } else if roll <= 60 {
            Category::Boolean
        } else if roll <= 80 {
            Category::Decimal
        } else if roll <= 90 {
            Category::Object
        } else {
            Category::Array
        }
    }
}

/// The kind of value that a roll stands for: see `category_of`.
pub fn category(roll: u32, deep: bool) -> (kind: Category)
    ensures
        kind == category_of(roll, deep),
        deep ==> kind != Category::Object && kind != Category::Array,
{
    if deep {
        if roll <= 1 {
            Category::Text
        } else if roll == 2 {
            Category::Number
        } else if roll == 3 {
            Category::Boolean
        } else {
            Category::Decimal
        }
    } else {
        if roll <= 20 {
            Category::Text
        } else if roll <= 40 {
            Category::Number
        } else if roll <= 60 {
            Category::Boolean
        } else if roll <= 80 {
            Category::Decimal
        } else if roll <= 90 {
            Category::Object
        } else {
            Category::Array
        }
    }
}

/// The indentation of a nesting level: two spaces per level.
pub open spec fn indent(level: nat) -> Seq<char> {
    repeated("  "@, level)
}

/// The texts joined by `sep`.
pub open spec fn join(parts: Seq<Seq<char>>, sep: Seq<char>) -> Seq<char>
    decreases parts.len(),
{
    if parts.len() == 0 {
        Seq::empty()
    } else if parts.len() == 1 {
        parts[0]
    } else {
        join(parts.drop_last(), sep) + sep + parts.last()
    }
}

/// A body between an opening and a closing bracket: the bracket and a line
/// break, the parts with a comma and a line break between them, a line
/// break, the indentation of the level outside, and the closing bracket.
pub open spec fn block_text(open: char, close: char, level: nat, parts: Seq<Seq<char>>) -> Seq<char> {
    seq![open, '\n'] + join(parts, ",\n"@) + seq!['\n'] + indent((level - 1) as nat) + seq![close]
}

/// A field without its indentation: the key, a colon and a space, and the
/// value.
pub open spec fn item_text(key: Seq<char>, value: Seq<char>) -> Seq<char> {
    key + ": "@ + value
}

/// What was appended to `before` to give `after`.
pub open spec fn added(before: Seq<char>, after: Seq<char>) -> Seq<char> {
    after.skip(before.len() as int)
}

/// `after` is `before` with something appended.
pub open spec fn extends(before: Seq<char>, after: Seq<char>) -> bool {
    after.len() >= before.len() && after == before + added(before, after)
}

/// The bracket that opens an object, or an array.
pub open spec fn opening(object: bool) -> char {
    if object {
        '{'
    } else {
        '['
    }
}

/// The bracket that closes an object, or an array.
pub open spec fn closing(object: bool) -> char {
    if object {
        '}'
    } else {
        ']'
    }
}

/// Joining one part more puts the separator before it, but for the first.
pub proof fn join_push(parts: Seq<Seq<char>>, part: Seq<char>, sep: Seq<char>)
    ensures
        join(parts.push(part), sep) == if parts.len() == 0 {
            part
        } else {
            join(parts, sep) + sep + part
        },
{
    let more = parts.push(part);
    assert(more.drop_last() =~= parts);
    assert(more.last() == part);
    if parts.len() == 0 {
        assert(more[0] == part);
    }
}

impl Json {
    /// Every range of the configuration has its lower bound at or below
    /// its upper bound.
    pub open spec fn valid(&self) -> bool {
        &&& self.items@.start <= self.items@.end
        &&& self.numeric_rg@.start <= self.numeric_rg@.end
        &&& self.string_rg@.start <= self.string_rg@.end
        &&& self.array_rg@.start <= self.array_rg@.end
        &&& self.float_int_rg@.start <= self.float_int_rg@.end
        &&& self.float_rg@.start <= self.float_rg@.end
    }

    /// `text` is a string: letters of the configured case, of a configured
    /// length, between double quotes.
    pub open spec fn is_string(&self, text: Seq<char>) -> bool {
        exists|run: Seq<char>| #[trigger]
            is_run(
                self.string_case.alphabet(),
                self.string_rg@.start as int,
                self.string_rg@.end as int,
                run,
            ) && text == "\""@ + run + "\""@
    }

    /// `text` is a number with a configured count of digits, signed or not.
    pub open spec fn is_number(&self, text: Seq<char>) -> bool {
        is_numeric(self.numeric_rg@.start as int, self.numeric_rg@.end as int, true, text)
    }

    /// `text` is `true` or `false`.
    pub open spec fn is_boolean(text: Seq<char>) -> bool {
        text == "true"@ || text == "false"@
    }

    /// `text` is a fixed-point decimal with configured counts of digits
    /// before and after the point, signed or not.
    pub open spec fn is_float(&self, text: Seq<char>) -> bool {
        exists|whole: Seq<char>, part: Seq<char>|
            #![trigger decimal_text(whole, part)]
            is_decimal(
                self.float_int_rg@.start as int,
                self.float_int_rg@.end as int,
                self.float_rg@.start as int,
                self.float_rg@.end as int,
                true,
                whole,
                part,
            ) && text == decimal_text(whole, part)
    }

    /// `text` is a value that holds no other value.
    pub open spec fn is_scalar(&self, text: Seq<char>) -> bool {
        self.is_string(text) || self.is_number(text) || Self::is_boolean(text) || self.is_float(
            text,
        )
    }

    /// `text` is a value at the nesting level `level`: a value that holds
    /// no other, or, up to the greatest depth, an object or an array of the
    /// next level.
    pub open spec fn is_value(&self, level: nat, text: Seq<char>) -> bool
        decreases self.max_level + 1 - level, 0nat,
    {
        if level > self.max_level {
            self.is_scalar(text)
        } else {
            self.is_scalar(text) || self.is_block(level + 1, true, text) || self.is_block(
                level + 1,
                false,
                text,
            )
        }
    }

    /// `text` is a field without its indentation: a string as the key, a
    /// colon and a space, and a value.
    pub open spec fn is_item(&self, level: nat, text: Seq<char>) -> bool
        decreases self.max_level + 1 - level, 1nat,
    {
        exists|key: Seq<char>, value: Seq<char>|
            #![trigger item_text(key, value)]
            self.is_string(key) && self.is_value(level, value) && text == item_text(key, value)
    }

    /// `text` is one line of an object or an array at the nesting level
    /// `level`: the indentation of the level, then a field for an object
    /// and a value for an array.
    pub open spec fn is_part(&self, level: nat, object: bool, text: Seq<char>) -> bool
        decreases self.max_level + 1 - level, 2nat,
    {
        &&& extends(indent(level), text)
        &&& if object {
            self.is_item(level, added(indent(level), text))
        } else {
            self.is_value(level, added(indent(level), text))
        }
    }

    /// `text` is an object, or an array, whose lines are at the nesting
    /// level `level`: a configured number of lines between the brackets.
    pub open spec fn is_block(&self, level: nat, object: bool, text: Seq<char>) -> bool
        decreases self.max_level + 1 - level, 3nat,
    {
        exists|parts: Seq<Seq<char>>|
            #![trigger block_text(opening(object), closing(object), level, parts)]
            self.count_lo(object) <= parts.len() <= self.count_hi(object) && (forall|i: int|
                0 <= i < parts.len() ==> self.is_part(level, object, #[trigger] parts[i])) && text
                == block_text(opening(object), closing(object), level, parts)
    }

    /// `text` is the string that the draws tell: the run of letters that
    /// they tell, between double quotes.
    pub open spec fn string_told(&self, draws: Seq<Draw>, text: Seq<char>) -> bool {
        exists|run: Seq<char>| #[trigger]
            run_told(
                self.string_case.alphabet(),
                self.string_rg@.start,
                self.string_rg@.end,
                draws,
                run,
            ) && text == "\""@ + run + "\""@
    }

    /// `text` is the value of the kind `kind`, one that holds no other
    /// value, that the draws tell.
    pub open spec fn scalar_told(&self, kind: Category, draws: Seq<Draw>, text: Seq<char>) -> bool {
        match kind {
            Category::Text => self.string_told(draws, text),
            Category::Number => numeric_told(
                self.numeric_rg@.start,
                self.numeric_rg@.end,
                true,
                draws,
                text,
            ),
            Category::Boolean => draws.len() == 1 && (draws[0] matches Draw::Index { len, got }
                && len == 2 && text == boolean_of(got)),
            Category::Decimal => exists|whole: Seq<char>, part: Seq<char>, cut: int|
                #![trigger decimal_told(self.float_int_rg@.start, self.float_int_rg@.end, self.float_rg@.start, self.float_rg@.end, true, draws, cut, whole, part)]
                decimal_told(
                    self.float_int_rg@.start,
                    self.float_int_rg@.end,
                    self.float_rg@.start,
                    self.float_rg@.end,
                    true,
                    draws,
                    cut,
                    whole,
                    part,
                ) && text == decimal_text(whole, part),
            _ => false,
        }
    }

    /// The greatest roll at a nesting level: 100 up to the greatest depth,
    /// 4 beyond it.
    pub open spec fn top_roll(&self, level: nat) -> u32 {
        if level > self.max_level {
            4
        } else {
            100
        }
    }

    /// `text` is the value at the nesting level `level` that the draws
    /// tell: the first draw is the roll that names the kind of value, and
    /// the draws after it tell the value of that kind.
    pub open spec fn value_told(&self, level: nat, draws: Seq<Draw>, text: Seq<char>) -> bool
        decreases self.max_level + 1 - level, 0nat, 0nat,
    {
        draws.len() >= 1 && (draws[0] matches Draw::Range { lo, hi, number } && lo == 1 && hi
            == self.top_roll(level) && ({
            let kind = category_of(number, level > self.max_level);
            if kind == Category::Object {
                level <= self.max_level && self.block_told(level + 1, true, draws.skip(1), text)
            } else if kind == Category::Array {
                level <= self.max_level && self.block_told(level + 1, false, draws.skip(1), text)
            } else {
                self.scalar_told(kind, draws.skip(1), text)
            }
        }))
    }

    /// `text` is the field without its indentation that the draws tell:
    /// the first `cut` draws tell the key, and the draws after them the
    /// value.
    pub open spec fn item_told(&self, level: nat, draws: Seq<Draw>, text: Seq<char>) -> bool
        decreases self.max_level + 1 - level, 1nat, 0nat,
    {
        exists|key: Seq<char>, value: Seq<char>, cut: int|
            #![trigger item_text(key, value), draws.take(cut)]
            0 <= cut <= draws.len() && self.string_told(draws.take(cut), key) && self.value_told(
                level,
                draws.skip(cut),
                value,
            ) && text == item_text(key, value)
    }

    /// `text` is the line of an object or an array that the draws tell.
    pub open spec fn part_told(
        &self,
        level: nat,
        object: bool,
        draws: Seq<Draw>,
        text: Seq<char>,
    ) -> bool
        decreases self.max_level + 1 - level, 2nat, 0nat,
    {
        &&& extends(indent(level), text)
        &&& if object {
            self.item_told(level, draws, added(indent(level), text))
        } else {
            self.value_told(level, draws, added(indent(level), text))
        }
    }

    /// `parts` are the lines that the draws tell, one after the other: the
    /// draws fall into those of the lines but the last and, behind them,
    /// those of the last line.
    pub open spec fn parts_told(
        &self,
        level: nat,
        object: bool,
        draws: Seq<Draw>,
        parts: Seq<Seq<char>>,
    ) -> bool
        decreases self.max_level + 1 - level, 3nat, parts.len(),
    {
        if parts.len() == 0 {
            draws.len() == 0
        } else {
            exists|cut: int|
                #![trigger draws.take(cut)]
                0 <= cut <= draws.len() && self.parts_told(
                    level,
                    object,
                    draws.take(cut),
                    parts.drop_last(),
                ) && self.part_told(level, object, draws.skip(cut), parts.last())
        }
    }

    /// `text` is the object, or the array, that the draws tell: the first
    /// draw gave the number of lines, and the draws after it tell the
    /// lines.
    pub open spec fn block_told(
        &self,
        level: nat,
        object: bool,
        draws: Seq<Draw>,
        text: Seq<char>,
    ) -> bool
        decreases self.max_level + 1 - level, 4nat, 0nat,
    {
        draws.len() >= 1 && exists|parts: Seq<Seq<char>>|
            #![trigger block_text(opening(object), closing(object), level, parts)]
            draws[0] == (Draw::Range {
                lo: self.count_from(object),
                hi: self.count_to(object),
                number: parts.len() as u32,
            }) && self.parts_told(level, object, draws.skip(1), parts) && text == block_text(
                opening(object),
                closing(object),
                level,
                parts,
            )
    }

    /// The least number of lines of an object, or of an array, as it is
    /// asked of the source.
    pub open spec fn count_from(&self, object: bool) -> u32 {
        if object {
            self.items@.start
        } else {
            self.array_rg@.start
        }
    }

    /// The greatest number of lines of an object, or of an array, as it is
    /// asked of the source.
    pub open spec fn count_to(&self, object: bool) -> u32 {
        if object {
            self.items@.end
        } else {
            self.array_rg@.end
        }
    }

    /// One line more, told by the draws behind those of the lines before
    /// it, makes the lines that all these draws tell.
    pub proof fn parts_step(
        &self,
        level: nat,
        object: bool,
        earlier: Seq<Draw>,
        later: Seq<Draw>,
        parts: Seq<Seq<char>>,
        part: Seq<char>,
    )
        requires
            self.parts_told(level, object, earlier, parts),
            self.part_told(level, object, later, part),
        ensures
            self.parts_told(level, object, earlier + later, parts.push(part)),
    {
        let draws = earlier + later;
        let more = parts.push(part);
        let cut = earlier.len() as int;
        assert(draws.take(cut) =~= earlier);
        assert(draws.skip(cut) =~= later);
        assert(more.drop_last() =~= parts);
        assert(more.last() == part);
    }

    /// The least number of lines of an object, or of an array.
    pub open spec fn count_lo(&self, object: bool) -> int {
        if object {
            self.items@.start as int
        } else {
            self.array_rg@.start as int
        }
    }

    /// The greatest number of lines of an object, or of an array.
    pub open spec fn count_hi(&self, object: bool) -> int {
        if object {
            self.items@.end as int
        } else {
            self.array_rg@.end as int
        }
    }

    /// `text` is an object whose fields are at the nesting level `level`.
    pub open spec fn is_object(&self, level: nat, text: Seq<char>) -> bool {
        self.is_block(level, true, text)
    }

    /// `text` is an array whose values are at the nesting level `level`.
    pub open spec fn is_array(&self, level: nat, text: Seq<char>) -> bool {
        self.is_block(level, false, text)
    }

    /// The default configuration: 10 to 20 fields, numbers of 2 to 6
    /// digits, strings of 3 to 6 letters of either case, arrays of up to 8
    /// values, decimals of 2 to 5 digits before the point and 1 to 3 after
    /// it, and a depth of 3 at most.
    pub fn new() -> (cfg: Self)
        ensures
            cfg.items@.start == 10 && cfg.items@.end == 20,
            cfg.numeric_rg@.start == 2 && cfg.numeric_rg@.end == 6,
            cfg.string_rg@.start == 3 && cfg.string_rg@.end == 6,
            cfg.array_rg@.start == 0 && cfg.array_rg@.end == 8,
            cfg.float_int_rg@.start == 2 && cfg.float_int_rg@.end == 5,
            cfg.float_rg@.start == 1 && cfg.float_rg@.end == 3,
            cfg.string_case == Case::Mixed,
            cfg.max_level == 3,
            cfg.valid(),
    {
        Json {
            items: RangeInclusive::new(10, 20),
            numeric_rg: RangeInclusive::new(2, 6),
            string_case: Case::Mixed,
            string_rg: RangeInclusive::new(3, 6),
            array_rg: RangeInclusive::new(0, 8),
            max_level: 3,
            float_int_rg: RangeInclusive::new(2, 5),
            float_rg: RangeInclusive::new(1, 3),
        }
    }

    /// Sets how many fields an object has.
    pub fn field_cnt(self, rg: RangeInclusive<u32>) -> (cfg: Self)
        ensures
            cfg == (Json { items: rg, ..self }),
    {
        let mut cfg = self;
        cfg.items = rg;
        cfg
    }

    /// Sets how many digits a number has.
    pub fn numeric_rg(self, rg: RangeInclusive<u32>) -> (cfg: Self)
        ensures
            cfg == (Json { numeric_rg: rg, ..self }),
    {
        let mut cfg = self;
        cfg.numeric_rg = rg;
        cfg
    }

    /// Sets how many letters a string has.
    pub fn string_rg(self, rg: RangeInclusive<u32>) -> (cfg: Self)
        ensures
            cfg == (Json { string_rg: rg, ..self }),
    {
        let mut cfg = self;
        cfg.string_rg = rg;
        cfg
    }

    /// Sets the case of the letters of a string.
    pub fn string_case(self, case: Case) -> (cfg: Self)
        ensures
            cfg == (Json { string_case: case, ..self }),
    {
        let mut cfg = self;
        cfg.string_case = case;
        cfg
    }

    /// Sets how many values an array has.
    pub fn array_rg(self, rg: RangeInclusive<u32>) -> (cfg: Self)
        ensures
            cfg == (Json { array_rg: rg, ..self }),
    {
        let mut cfg = self;
        cfg.array_rg = rg;
        cfg
    }

    /// Sets the greatest depth at which a value may hold other values.
    pub fn max_level(self, max_level: u32) -> (cfg: Self)
        ensures
            cfg == (Json { max_level, ..self }),
    {
        let mut cfg = self;
        cfg.max_level = max_level;
        cfg
    }

    /// Appends a number.
    pub fn numeric<R: RandomSource>(&self, buf: String, rng: &mut R) -> (res: Result<
        String,
        GenError,
    >)
        ensures
            res is Err <==> self.numeric_rg@.start > self.numeric_rg@.end,
            res matches Err(e) ==> e == GenError::InvalidRange,
            res is Ok ==> grew(*old(rng), *final(rng)),
            res matches Ok(out) ==> exists|text: Seq<char>| #[trigger]
                self.is_number(text) && self.scalar_told(
                    Category::Number,
                    drew(*old(rng), *final(rng)),
                    text,
                ) && out@ == buf@ + text,
    {
        let rg = RangeInclusive::new(*self.numeric_rg.start(), *self.numeric_rg.end());
        let ghost lo = rg@.start;
        let ghost hi = rg@.end;
        let plain = Rg::new();
        let res = plain.numeric_with_buf(buf, rg, true, true, rng);
        proof {
            if res is Ok {
                let out = res->Ok_0@;
                let text = choose|text: Seq<char>| #[trigger]
                    is_numeric(lo as int, hi as int, true, text) && numeric_told(
                        lo,
                        hi,
                        true,
                        drew(*old(rng), *rng),
                        text,
                    ) && out == buf@ + plain.around(true, text);
                assert(plain.around(true, text) =~= text);
                assert(self.is_number(text));
            }
        }
        res
    }

    /// Appends a string.
    pub fn string<R: RandomSource>(&self, buf: String, rng: &mut R) -> (res: Result<
        String,
        GenError,
    >)
        ensures
            res is Err <==> self.string_rg@.start > self.string_rg@.end,
            res matches Err(e) ==> e == GenError::InvalidRange,
            res is Ok ==> grew(*old(rng), *final(rng)),
            res matches Ok(out) ==> exists|text: Seq<char>| #[trigger]
                self.is_string(text) && self.string_told(drew(*old(rng), *final(rng)), text)
                    && out@ == buf@ + text,
    {
        let rg = RangeInclusive::new(*self.string_rg.start(), *self.string_rg.end());
        let ghost lo = rg@.start;
        let ghost hi = rg@.end;
        let quoted = Rg::with_dec("\"", "\"");
        let res = quoted.word_with_buf(buf, rg, self.string_case, rng);
        proof {
            if res is Ok {
                let out = res->Ok_0@;
                let run = choose|run: Seq<char>| #[trigger]
                    is_run(self.string_case.alphabet(), lo as int, hi as int, run) && run_told(
                        self.string_case.alphabet(),
                        lo,
                        hi,
                        drew(*old(rng), *rng),
                        run,
                    ) && out == buf@ + quoted.wrap(true, run);
                let text = "\""@ + run + "\""@;
                assert(quoted.wrap(true, run) =~= text);
                assert(self.is_string(text));
                assert(self.string_told(drew(*old(rng), *rng), text));
            }
        }
        res
    }

    /// Appends `true` or `false`.
    pub fn boolean<R: RandomSource>(&self, buf: String, rng: &mut R) -> (out: String)
        ensures
            grew(*old(rng), *final(rng)),
            exists|text: Seq<char>| #[trigger]
                Self::is_boolean(text) && self.scalar_told(
                    Category::Boolean,
                    drew(*old(rng), *final(rng)),
                    text,
                ) && out@ == buf@ + text,
    {
        let plain = Rg::new();
        let out = plain.boolean_with_buf(buf, rng);
        proof {
            assert(plain.wrap(true, "true"@) =~= "true"@);
            assert(plain.wrap(true, "false"@) =~= "false"@);
            assert(Self::is_boolean("true"@) && Self::is_boolean("false"@));
            let draws = drew(*old(rng), *rng);
            let got = draws[0]->Index_got;
            let text = boolean_of(got);
            assert(plain.wrap(true, text) =~= text);
            assert(Self::is_boolean(text));
            assert(self.scalar_told(Category::Boolean, draws, text));
        }
        out
    }

    /// Appends a fixed-point decimal.
    pub fn float<R: RandomSource>(&self, buf: String, rng: &mut R) -> (res: Result<
        String,
        GenError,
    >)
        ensures
            res is Err <==> self.float_int_rg@.start > self.float_int_rg@.end
                || self.float_rg@.start > self.float_rg@.end,
            res matches Err(e) ==> e == GenError::InvalidRange,
            res is Ok ==> grew(*old(rng), *final(rng)),
            res matches Ok(out) ==> exists|text: Seq<char>| #[trigger]
                self.is_float(text) && self.scalar_told(
                    Category::Decimal,
                    drew(*old(rng), *final(rng)),
                    text,
                ) && out@ == buf@ + text,
    {
        let int_rg = RangeInclusive::new(*self.float_int_rg.start(), *self.float_int_rg.end());
        let part_rg = RangeInclusive::new(*self.float_rg.start(), *self.float_rg.end());
        let ghost lo = int_rg@.start;
        let ghost hi = int_rg@.end;
        let ghost part_lo = part_rg@.start;
        let ghost part_hi = part_rg@.end;
        let plain = Rg::new();
        let res = plain.float_with_buf(buf, int_rg, part_rg, true, rng);
        proof {
            if res is Ok {
                let out = res->Ok_0@;
                let draws = drew(*old(rng), *rng);
                let (whole, part, cut) = choose|whole: Seq<char>, part: Seq<char>, cut: int|
                    #![trigger decimal_told(lo, hi, part_lo, part_hi, true, draws, cut, whole, part)]
                    decimal_told(lo, hi, part_lo, part_hi, true, draws, cut, whole, part) && out
                        == buf@ + plain.wrap(true, decimal_text(whole, part));
                let text = decimal_text(whole, part);
                assert(plain.wrap(true, text) =~= text);
                assert(self.is_float(text));
                assert(self.scalar_told(Category::Decimal, draws, text));
            }
        }
        res
    }
}

impl Default for Json {
    fn default() -> (cfg: Self)
        ensures
            cfg.valid(),
            cfg.max_level == 3,
    {
        Json::new()
    }
}

impl Json {
    /// A document: an object at the outermost level, as the draws tell it.
    ///
    /// It is generated whenever every range of the configuration is in
    /// order; a range that is not fails the call where it is drawn from.
    pub fn generate<R: RandomSource>(&self, rng: &mut R) -> (res: Result<String, GenError>)
        ensures
            self.valid() ==> res is Ok,
            self.items@.start > self.items@.end ==> res is Err,
            res matches Err(e) ==> e == GenError::InvalidRange && !self.valid(),
            res matches Ok(out) ==> self.is_object(1, out@),
            res matches Ok(out) ==> grew(*old(rng), *final(rng)) && self.block_told(
                1,
                true,
                drew(*old(rng), *final(rng)),
                out@,
            ),
    {
        let res = self.json_obj(String::new(), 1, rng);
        proof {
            if res is Ok {
                assert(added(Seq::<char>::empty(), res->Ok_0@) =~= res->Ok_0@);
            }
        }
        res
    }

    /// Appends the indentation of a nesting level.
    pub fn push_indent(buf: &mut String, level: u64)
        ensures
            final(buf)@ == old(buf)@ + indent(level as nat),
    {
        let mut i: u64 = 0;
        proof {
            assert(buf@ =~= old(buf)@ + indent(0));
        }
        while i < level
            invariant
                i <= level,
                buf@ == old(buf)@ + indent(i as nat),
            decreases level - i,
        {
            buf.push_str("  ");
            proof {
                assert(buf@ =~= old(buf)@ + indent((i + 1) as nat));
            }
            i += 1;
        }
    }

    /// Appends an object whose fields are at the nesting level `level`.
    pub fn json_obj<R: RandomSource>(&self, buf: String, level: u64, rng: &mut R) -> (res: Result<
        String,
        GenError,
    >)
        requires
            1 <= level <= self.max_level + 1,
        ensures
            self.valid() ==> res is Ok,
            self.items@.start > self.items@.end ==> res is Err,
            res matches Err(e) ==> e == GenError::InvalidRange && !self.valid(),
            res matches Ok(out) ==> extends(buf@, out@) && self.is_object(
                level as nat,
                added(buf@, out@),
            ),
            res matches Ok(out) ==> grew(*old(rng), *final(rng)) && self.block_told(
                level as nat,
                true,
                drew(*old(rng), *final(rng)),
                added(buf@, out@),
            ),
        decreases self.max_level + 1 - level, 4nat,
    {
        self.block(buf, level, true, rng)
    }

    /// Appends an array whose values are at the nesting level `level`.
    pub fn array<R: RandomSource>(&self, buf: String, level: u64, rng: &mut R) -> (res: Result<
        String,
        GenError,
    >)
        requires
            1 <= level <= self.max_level + 1,
        ensures
            self.valid() ==> res is Ok,
            self.array_rg@.start > self.array_rg@.end ==> res is Err,
            res matches Err(e) ==> e == GenError::InvalidRange && !self.valid(),
            res matches Ok(out) ==> extends(buf@, out@) && self.is_array(
                level as nat,
                added(buf@, out@),
            ),
            res matches Ok(out) ==> grew(*old(rng), *final(rng)) && self.block_told(
                level as nat,
                false,
                drew(*old(rng), *final(rng)),
                added(buf@, out@),
            ),
        decreases self.max_level + 1 - level, 4nat,
    {
        self.block(buf, level, false, rng)
    }

    /// Appends a field without its indentation: a string as the key, a
    /// colon and a space, and a value.
    pub fn item<R: RandomSource>(&self, buf: String, level: u64, rng: &mut R) -> (res: Result<
        String,
        GenError,
    >)
        requires
            1 <= level <= self.max_level + 1,
        ensures
            self.valid() ==> res is Ok,
            res matches Err(e) ==> e == GenError::InvalidRange && !self.valid(),
            res matches Ok(out) ==> extends(buf@, out@) && self.is_item(
                level as nat,
                added(buf@, out@),
            ),
            res matches Ok(out) ==> grew(*old(rng), *final(rng)) && self.item_told(
                level as nat,
                drew(*old(rng), *final(rng)),
                added(buf@, out@),
            ),
        decreases self.max_level + 1 - level, 1nat,
    {
        let mut out = match self.string(buf, rng) {
            Ok(out) => out,
            Err(e) => {
                return Err(e);
            },
        };
        let ghost between = *rng;
        let ghost key = added(buf@, out@);
        proof {
            let text = choose|text: Seq<char>| #[trigger]
                self.is_string(text) && self.string_told(drew(*old(rng), between), text) && out@
                    == buf@ + text;
            assert(key =~= text);
        }
        out.push_str(": ");
        let ghost mid = out@;
        let out = match self.value(out, level, rng) {
            Ok(out) => out,
            Err(e) => {
                return Err(e);
            },
        };
        proof {
            let value = added(mid, out@);
            assert(added(buf@, out@) =~= item_text(key, value));
            assert(out@ =~= buf@ + item_text(key, value));
            grew_twice(*old(rng), between, *rng);
            let draws = drew(*old(rng), *rng);
            let cut = drew(*old(rng), between).len() as int;
            assert(draws.take(cut) =~= drew(*old(rng), between));
            assert(draws.skip(cut) =~= drew(between, *rng));
            assert(self.string_told(draws.take(cut), key) && self.value_told(
                level as nat,
                draws.skip(cut),
                value,
            ));
        }
        Ok(out)
    }

    /// Appends a value at the nesting level `level`: a roll names its kind,
    /// as `category` reads it. Beyond the greatest depth the value holds no
    /// other value.
    pub fn value<R: RandomSource>(&self, buf: String, level: u64, rng: &mut R) -> (res: Result<
        String,
        GenError,
    >)
        requires
            1 <= level <= self.max_level + 1,
        ensures
            self.valid() ==> res is Ok,
            res matches Err(e) ==> e == GenError::InvalidRange && !self.valid(),
            res matches Ok(out) ==> extends(buf@, out@) && self.is_value(
                level as nat,
                added(buf@, out@),
            ),
            res matches Ok(out) ==> level > self.max_level ==> self.is_scalar(added(buf@, out@)),
            res matches Ok(out) ==> grew(*old(rng), *final(rng)) && self.value_told(
                level as nat,
                drew(*old(rng), *final(rng)),
                added(buf@, out@),
            ),
        decreases self.max_level + 1 - level, 0nat,
    {
        let deep: bool = level > self.max_level as u64;
        let top: u32 = if deep {
            4
        } else {
            100
        };
        let roll: u32 = rng.range(1, top);
        let ghost rolled = *rng;
        let kind = category(roll, deep);
        let res = match kind {
            Category::Text => {
                let res = self.string(buf, rng);
                proof {
                    if res is Ok {
                        let text = choose|text: Seq<char>| #[trigger]
                            self.is_string(text) && self.string_told(drew(rolled, *rng), text)
                                && res->Ok_0@ == buf@ + text;
                        assert(added(buf@, res->Ok_0@) =~= text);
                    }
                }
                res
            },
            Category::Number => {
                let res = self.numeric(buf, rng);
                proof {
                    if res is Ok {
                        let text = choose|text: Seq<char>| #[trigger]
                            self.is_number(text) && self.scalar_told(
                                Category::Number,
                                drew(rolled, *rng),
                                text,
                            ) && res->Ok_0@ == buf@ + text;
                        assert(added(buf@, res->Ok_0@) =~= text);
                    }
                }
                res
            },
            Category::Boolean => {
                let out = self.boolean(buf, rng);
                proof {
                    let text = choose|text: Seq<char>| #[trigger]
                        Self::is_boolean(text) && self.scalar_told(
                            Category::Boolean,
                            drew(rolled, *rng),
                            text,
                        ) && out@ == buf@ + text;
                    assert(added(buf@, out@) =~= text);
                }
                Ok(out)
            },
            Category::Decimal => {
                let res = self.float(buf, rng);
                proof {
                    if res is Ok {
                        let text = choose|text: Seq<char>| #[trigger]
                            self.is_float(text) && self.scalar_told(
                                Category::Decimal,
                                drew(rolled, *rng),
                                text,
                            ) && res->Ok_0@ == buf@ + text;
                        assert(added(buf@, res->Ok_0@) =~= text);
                    }
                }
                res
            },
            Category::Object => self.json_obj(buf, level + 1, rng),
            Category::Array => self.array(buf, level + 1, rng),
        };
        proof {
            if res is Ok {
                grew_by_one(*old(rng), rolled, Draw::Range { lo: 1, hi: top, number: roll });
                grew_twice(*old(rng), rolled, *rng);
                let draws = drew(*old(rng), *rng);
                assert(draws[0] == (Draw::Range { lo: 1, hi: top, number: roll }));
                assert(draws.skip(1) =~= drew(rolled, *rng));
            }
        }
        res
    }

    /// Appends one line of an object or an array: the indentation of the
    /// level, then a field for an object and a value for an array.
    pub fn line<R: RandomSource>(
        &self,
        buf: String,
        level: u64,
        object: bool,
        rng: &mut R,
    ) -> (res: Result<String, GenError>)
        requires
            1 <= level <= self.max_level + 1,
        ensures
            self.valid() ==> res is Ok,
            res matches Err(e) ==> e == GenError::InvalidRange && !self.valid(),
            res matches Ok(out) ==> extends(buf@, out@) && self.is_part(
                level as nat,
                object,
                added(buf@, out@),
            ),
            res matches Ok(out) ==> grew(*old(rng), *final(rng)) && self.part_told(
                level as nat,
                object,
                drew(*old(rng), *final(rng)),
                added(buf@, out@),
            ),
        decreases self.max_level + 1 - level, 2nat,
    {
        let mut out = buf;
        Self::push_indent(&mut out, level);
        let ghost inner = out@;
        let entry = if object {
            self.item(out, level, rng)
        } else {
            self.value(out, level, rng)
        };
        match entry {
            Ok(out) => {
                proof {
                    let part = added(buf@, out@);
                    let body = added(inner, out@);
                    assert(part =~= indent(level as nat) + body);
                    assert(added(indent(level as nat), part) =~= body);
                    assert(out@ =~= buf@ + part);
                }
                Ok(out)
            },
            Err(e) => Err(e),
        }
    }

    /// Appends an object, or an array, whose lines are at the nesting
    /// level `level`: the opening bracket and a line break, a number of
    /// lines drawn from the configured range with a comma and a line break
    /// between them, a line break, the indentation of the level outside,
    /// and the closing bracket.
    pub fn block<R: RandomSource>(
        &self,
        buf: String,
        level: u64,
        object: bool,
        rng: &mut R,
    ) -> (res: Result<String, GenError>)
        requires
            1 <= level <= self.max_level + 1,
        ensures
            self.valid() ==> res is Ok,
            self.count_lo(object) > self.count_hi(object) ==> res is Err,
            res matches Err(e) ==> e == GenError::InvalidRange && !self.valid(),
            res matches Ok(out) ==> extends(buf@, out@) && self.is_block(
                level as nat,
                object,
                added(buf@, out@),
            ),
            res matches Ok(out) ==> grew(*old(rng), *final(rng)) && self.block_told(
                level as nat,
                object,
                drew(*old(rng), *final(rng)),
                added(buf@, out@),
            ),
        decreases self.max_level + 1 - level, 3nat,
    {
        let counts = if object {
            &self.items
        } else {
            &self.array_rg
        };
        let cnt: u32 = match rand_range(counts, rng) {
            Ok(cnt) => cnt,
            Err(e) => {
                return Err(e);
            },
        };
        let ghost counted = *rng;
        let ghost count = Draw::Range {
            lo: self.count_from(object),
            hi: self.count_to(object),
            number: cnt,
        };
        let mut out = buf;
        out.push(if object {
            '{'
        } else {
            '['
        });
        out.push('\n');
        let ghost start = out@;
        let ghost mut parts: Seq<Seq<char>> = Seq::empty();
        let mut i: u32 = 0;
        proof {
            assert(out@ =~= start + join(parts, ",\n"@));
            grew_by_one(*old(rng), counted, count);
            grew_not(counted, *rng);
        }
        while i < cnt
            invariant
                i <= cnt,
                parts.len() == i,
                1 <= level <= self.max_level + 1,
                start == buf@ + seq![opening(object), '\n'],
                out@ == start + join(parts, ",\n"@),
                forall|j: int|
                    0 <= j < parts.len() ==> self.is_part(level as nat, object, #[trigger] parts[j]),
                grew(*old(rng), counted),
                drew(*old(rng), counted) == seq![count],
                grew(counted, *rng),
                self.parts_told(level as nat, object, drew(counted, *rng), parts),
            decreases cnt - i,
        {
            let ghost between = *rng;
            if i > 0 {
                out.push_str(",\n");
            }
            let ghost mid = out@;
            out = match self.line(out, level, object, rng) {
                Ok(out) => out,
                Err(e) => {
                    return Err(e);
                },
            };
            proof {
                let part = added(mid, out@);
                join_push(parts, part, ",\n"@);
                assert(out@ =~= start + join(parts.push(part), ",\n"@));
                self.parts_step(
                    level as nat,
                    object,
                    drew(counted, between),
                    drew(between, *rng),
                    parts,
                    part,
                );
                grew_twice(counted, between, *rng);
                parts = parts.push(part);
            }
            i += 1;
        }
        let ghost body_end = out@;
        out.push('\n');
        Self::push_indent(&mut out, level - 1);
        out.push(if object {
            '}'
        } else {
            ']'
        });
        proof {
            let text = block_text(opening(object), closing(object), level as nat, parts);
            assert(out@ =~= buf@ + text);
            assert(added(buf@, out@) =~= text);
            grew_twice(*old(rng), counted, *rng);
            let draws = drew(*old(rng), *rng);
            assert(draws[0] == count);
            assert(draws.skip(1) =~= drew(counted, *rng));
        }
        Ok(out)
    }
}

/// `c` is one of the four brackets that open or close an object or an
/// array.
pub open spec fn is_bracket(c: char) -> bool {
    c == '{' || c == '}' || c == '[' || c == ']'
}

/// `text` holds no bracket.
pub open spec fn bracket_free(text: Seq<char>) -> bool {
    forall|i: int| 0 <= i < text.len() ==> !is_bracket(#[trigger] text[i])
}

/// Two texts without brackets, one after the other, hold no bracket.
pub proof fn bracket_free_concat(a: Seq<char>, b: Seq<char>)
    requires
        bracket_free(a),
        bracket_free(b),
    ensures
        bracket_free(a + b),
{
    assert forall|i: int| 0 <= i < (a + b).len() implies !is_bracket(#[trigger] (a + b)[i]) by {
        if i < a.len() {
            assert((a + b)[i] == a[i]);
        } else {
            assert((a + b)[i] == b[i - a.len()]);
        }
    }
}

/// An indentation holds no bracket.
pub proof fn indent_is_bracket_free(level: nat)
    ensures
        bracket_free(indent(level)),
    decreases level,
{
    reveal_strlit("  ");
    if level > 0 {
        indent_is_bracket_free((level - 1) as nat);
        bracket_free_concat(indent((level - 1) as nat), "  "@);
    }
}

/// A number as text holds no bracket.
pub proof fn numeric_is_bracket_free(lo: int, hi: int, negative: bool, text: Seq<char>)
    requires
        is_numeric(lo, hi, negative, text),
    ensures
        bracket_free(text),
{
    assert forall|i: int| 0 <= i < text.len() implies !is_bracket(#[trigger] text[i]) by {
        if text[0] == '-' {
            if i > 0 {
                assert(text[i] == text.skip(1)[i - 1]);
            }
        }
    }
}

/// A run over one of the alphabets holds no bracket.
pub proof fn run_is_bracket_free(case: Case, lo: int, hi: int, run: Seq<char>)
    requires
        is_run(case.alphabet(), lo, hi, run),
    ensures
        bracket_free(run),
{
    assert forall|i: int| 0 <= i < run.len() implies !is_bracket(#[trigger] run[i]) by {
        letters_are(run[i]);
    }
}

/// A run of digits holds no bracket.
pub proof fn digits_are_bracket_free(lo: int, hi: int, run: Seq<char>)
    requires
        is_run(digits(), lo, hi, run),
    ensures
        bracket_free(run),
{
    assert forall|i: int| 0 <= i < run.len() implies !is_bracket(#[trigger] run[i]) by {
        digits_are(run[i]);
    }
}

/// A string holds no bracket.
pub proof fn string_is_bracket_free(cfg: &Json, text: Seq<char>)
    requires
        cfg.is_string(text),
    ensures
        bracket_free(text),
{
    reveal_strlit("\"");
    let run = choose|run: Seq<char>| #[trigger]
        is_run(
            cfg.string_case.alphabet(),
            cfg.string_rg@.start as int,
            cfg.string_rg@.end as int,
            run,
        ) && text == "\""@ + run + "\""@;
    run_is_bracket_free(
        cfg.string_case,
        cfg.string_rg@.start as int,
        cfg.string_rg@.end as int,
        run,
    );
    bracket_free_concat("\""@, run);
    bracket_free_concat("\""@ + run, "\""@);
}

/// A value that holds no other value holds no bracket.
pub proof fn scalar_is_bracket_free(cfg: &Json, text: Seq<char>)
    requires
        cfg.is_scalar(text),
    ensures
        bracket_free(text),
{
    if cfg.is_string(text) {
        string_is_bracket_free(cfg, text);
    } else if cfg.is_number(text) {
        numeric_is_bracket_free(
            cfg.numeric_rg@.start as int,
            cfg.numeric_rg@.end as int,
            true,
            text,
        );
    } else if Json::is_boolean(text) {
        reveal_strlit("true");
        reveal_strlit("false");
    } else {
        let (whole, part) = choose|whole: Seq<char>, part: Seq<char>|
            #![trigger decimal_text(whole, part)]
            is_decimal(
                cfg.float_int_rg@.start as int,
                cfg.float_int_rg@.end as int,
                cfg.float_rg@.start as int,
                cfg.float_rg@.end as int,
                true,
                whole,
                part,
            ) && text == decimal_text(whole, part);
        numeric_is_bracket_free(
            cfg.float_int_rg@.start as int,
            cfg.float_int_rg@.end as int,
            true,
            whole,
        );
        digits_are_bracket_free(cfg.float_rg@.start as int, cfg.float_rg@.end as int, part);
        bracket_free_concat(whole, seq!['.']);
        assert(whole.push('.') =~= whole + seq!['.']);
        bracket_free_concat(whole.push('.'), part);
    }
}

/// Beyond the greatest depth a line of an object or an array holds no
/// bracket: its value holds no other value.
pub proof fn deep_part_is_bracket_free(cfg: &Json, level: nat, object: bool, part: Seq<char>)
    requires
        level > cfg.max_level,
        cfg.is_part(level, object, part),
    ensures
        bracket_free(part),
{
    reveal_strlit(": ");
    let body = added(indent(level), part);
    indent_is_bracket_free(level);
    if object {
        let (key, value) = choose|key: Seq<char>, value: Seq<char>|
            #![trigger item_text(key, value)]
            cfg.is_string(key) && cfg.is_value(level, value) && body == item_text(key, value);
        string_is_bracket_free(cfg, key);
        scalar_is_bracket_free(cfg, value);
        bracket_free_concat(key, ": "@);
        bracket_free_concat(key + ": "@, value);
    } else {
        scalar_is_bracket_free(cfg, body);
    }
    bracket_free_concat(indent(level), body);
}

/// Parts without brackets, joined by a comma and a line break, hold no
/// bracket.
pub proof fn join_is_bracket_free(parts: Seq<Seq<char>>)
    requires
        forall|i: int| 0 <= i < parts.len() ==> bracket_free(#[trigger] parts[i]),
    ensures
        bracket_free(join(parts, ",\n"@)),
    decreases parts.len(),
{
    reveal_strlit(",\n");
    if parts.len() >= 2 {
        join_is_bracket_free(parts.drop_last());
        bracket_free_concat(join(parts.drop_last(), ",\n"@), ",\n"@);
        bracket_free_concat(join(parts.drop_last(), ",\n"@) + ",\n"@, parts.last());
    } else if parts.len() == 1 {
        assert(bracket_free(parts[0]));
    }
}

/// With the greatest depth 0 no object and no array stands inside the
/// document: it opens with a brace and closes with a brace, and holds no
/// bracket between the two.
pub proof fn depth_zero_is_flat(cfg: &Json, text: Seq<char>)
    requires
        cfg.max_level == 0,
        cfg.is_object(1, text),
    ensures
        text.len() >= 2,
        text[0] == '{',
        text[text.len() - 1] == '}',
        bracket_free(text.subrange(1, text.len() - 1)),
{
    let parts = choose|parts: Seq<Seq<char>>|
        #![trigger block_text(opening(true), closing(true), 1, parts)]
        cfg.count_lo(true) <= parts.len() <= cfg.count_hi(true) && (forall|i: int|
            0 <= i < parts.len() ==> cfg.is_part(1, true, #[trigger] parts[i])) && text
            == block_text(opening(true), closing(true), 1, parts);
    assert forall|i: int| 0 <= i < parts.len() implies bracket_free(#[trigger] parts[i]) by {
        deep_part_is_bracket_free(cfg, 1, true, parts[i]);
    }
    join_is_bracket_free(parts);
    let body = join(parts, ",\n"@);
    let inner = seq!['\n'] + body + seq!['\n'];
    assert(indent(0) =~= Seq::<char>::empty());
    assert(text =~= seq!['{'] + inner + seq!['}']);
    bracket_free_concat(seq!['\n'], body);
    bracket_free_concat(seq!['\n'] + body, seq!['\n']);
    assert(text.subrange(1, text.len() - 1) =~= inner);
}

} // verus!
