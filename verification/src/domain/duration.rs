//! How long the durations are that a text writes.
use crate::text;
use vstd::prelude::*;

verus! {

/// The nanoseconds of a second.
pub const SECOND: u128 = 1_000_000_000;

/// The nanoseconds of two to the power of sixty-four seconds, one more than the longest duration has.
pub const PAST_LONGEST: u128 = 18_446_744_073_709_551_616_000_000_000;

/// The nanoseconds of a unit of time, or none where the word is no unit.
pub open spec fn unit_nanos(unit: Seq<char>) -> u128 {
    if unit == "nanos"@ || unit == "nsec"@ || unit == "ns"@ {
        1
    } else if unit == "usec"@ || unit == "us"@ || unit == "\u{b5}s"@ {
        1_000
    } else if unit == "millis"@ || unit == "msec"@ || unit == "ms"@ {
        1_000_000
    } else if unit == "seconds"@ || unit == "second"@ || unit == "secs"@ || unit == "sec"@ || unit == "s"@ {
        1_000_000_000
    } else if unit == "minutes"@ || unit == "minute"@ || unit == "min"@ || unit == "mins"@ || unit == "m"@ {
        60_000_000_000
    } else if unit == "hours"@ || unit == "hour"@ || unit == "hr"@ || unit == "hrs"@ || unit == "h"@ {
        3_600_000_000_000
    } else if unit == "days"@ || unit == "day"@ || unit == "d"@ {
        86_400_000_000_000
    } else if unit == "weeks"@ || unit == "week"@ || unit == "wk"@ || unit == "wks"@ || unit == "w"@ {
        604_800_000_000_000
    } else if unit == "months"@ || unit == "month"@ || unit == "M"@ {
        2_630_016_000_000_000
    } else if unit == "years"@ || unit == "year"@ || unit == "yr"@ || unit == "yrs"@ || unit == "y"@ {
        31_557_600_000_000_000
    } else {
        0
    }
}

/// How far a duration text has been added up.
pub struct Sum {
    /// The nanoseconds of the parts that have their unit.
    pub total: nat,
    /// The number before the decimal point of the part that is open.
    pub whole: nat,
    /// The number behind the decimal point, and the power of ten that it is divided by.
    pub numerator: nat,
    pub scale: nat,
    /// A decimal point has been passed.
    pub point: bool,
    /// The letters of the unit.
    pub unit: Seq<char>,
    /// A number is too large for any duration, and the rest is not added up.
    pub ended: bool,
    /// A part below the second has filled the last second that a duration has.
    pub full: bool,
}

impl Sum {
    /// Nothing added up.
    pub open spec fn zero() -> Sum {
        Sum {
            total: 0,
            whole: 0,
            numerator: 0,
            scale: 1,
            point: false,
            unit: Seq::empty(),
            ended: false,
            full: false,
        }
    }

    /// The sum with a number of nanoseconds more, which a part below the second adds as nanoseconds.
    pub open spec fn plus(self, amount: nat, fine: bool) -> Sum {
        if self.total + amount < PAST_LONGEST {
            Sum { total: self.total + amount, ..self }
        } else {
            Sum {
                ended: true,
                full: fine && self.total + SECOND >= PAST_LONGEST && self.total + amount == PAST_LONGEST,
                ..self
            }
        }
    }

    /// The sum with the open part, whose unit is complete: its whole number, then its fraction.
    pub open spec fn closed(self) -> Sum {
        let unit = unit_nanos(self.unit);
        let first = self.plus(self.whole * unit as nat, unit < SECOND);
        let second = if first.ended || !self.point {
            first
        } else {
            first.plus(self.numerator * unit as nat / self.scale, unit <= 60 * SECOND)
        };
        Sum { total: second.total, ended: second.ended, full: second.full, ..Sum::zero() }
    }

    /// The sum with a further digit of the open number.
    pub open spec fn with_digit(self, digit: nat) -> Sum {
        if self.ended {
            self
        } else if self.point {
            if self.scale * 10 > u64::MAX {
                Sum { ended: true, ..self }
            } else {
                Sum { numerator: self.numerator * 10 + digit, scale: self.scale * 10, ..self }
            }
        } else if self.whole * 10 + digit > u64::MAX {
            Sum { ended: true, ..self }
        } else {
            Sum { whole: self.whole * 10 + digit, ..self }
        }
    }

    /// The sum after a further character.
    pub open spec fn with_char(self, c: char) -> Sum {
        if self.ended {
            self
        } else if text::is_letter(c) || c == '\u{b5}' {
            Sum { unit: self.unit.push(c), ..self }
        } else if c == '.' {
            Sum { point: true, ..self }
        } else {
            let before = if self.unit.len() > 0 {
                self.closed()
            } else {
                self
            };
            if text::is_digit(c) {
                before.with_digit((c as u32 - '0' as u32) as nat)
            } else {
                before
            }
        }
    }
}

/// A duration text added up, its last part still open.
pub open spec fn added_up(value: Seq<char>) -> Sum
    decreases value.len(),
{
    if value.len() == 0 {
        Sum::zero()
    } else {
        added_up(value.drop_last()).with_char(value.last())
    }
}

/// True of a text whose parts come to exactly one nanosecond more than the longest duration, where
/// parts below the second fill the last second.
pub open spec fn fills_last_second(value: Seq<char>) -> bool {
    let sum = added_up(value);
    if sum.ended || sum.unit.len() == 0 {
        sum.full
    } else {
        sum.closed().full
    }
}

fn nanos_of(unit: &str) -> (r: u128)
    ensures
        r == unit_nanos(unit@),
        r <= 31_557_600_000_000_000,
{
    if text::same(unit, "nanos") || text::same(unit, "nsec") || text::same(unit, "ns") {
        1
    } else if text::same(unit, "usec") || text::same(unit, "us") || text::same(unit, "\u{b5}s") {
        1_000
    } else if text::same(unit, "millis") || text::same(unit, "msec") || text::same(unit, "ms") {
        1_000_000
    } else if text::same(unit, "seconds") || text::same(unit, "second") || text::same(unit, "secs") || text::same(
        unit,
        "sec",
    ) || text::same(unit, "s") {
        1_000_000_000
    } else if text::same(unit, "minutes") || text::same(unit, "minute") || text::same(unit, "min") || text::same(
        unit,
        "mins",
    ) || text::same(unit, "m") {
        60_000_000_000
    } else if text::same(unit, "hours") || text::same(unit, "hour") || text::same(unit, "hr") || text::same(unit, "hrs")
        || text::same(unit, "h") {
        3_600_000_000_000
    } else if text::same(unit, "days") || text::same(unit, "day") || text::same(unit, "d") {
        86_400_000_000_000
    } else if text::same(unit, "weeks") || text::same(unit, "week") || text::same(unit, "wk") || text::same(unit, "wks")
        || text::same(unit, "w") {
        604_800_000_000_000
    } else if text::same(unit, "months") || text::same(unit, "month") || text::same(unit, "M") {
        2_630_016_000_000_000
    } else if text::same(unit, "years") || text::same(unit, "year") || text::same(unit, "yr") || text::same(unit, "yrs")
        || text::same(unit, "y") {
        31_557_600_000_000_000
    } else {
        0
    }
}

/// How far a duration text has been added up.
struct Counter {
    total: u128,
    whole: u128,
    numerator: u128,
    scale: u128,
    point: bool,
    unit: String,
    ended: bool,
    full: bool,
}

impl Counter {
    spec fn view(&self) -> Sum {
        Sum {
            total: self.total as nat,
            whole: self.whole as nat,
            numerator: self.numerator as nat,
            scale: self.scale as nat,
            point: self.point,
            unit: self.unit@,
            ended: self.ended,
            full: self.full,
        }
    }

    spec fn wf(&self) -> bool {
        &&& self.total < PAST_LONGEST
        &&& self.whole <= u64::MAX
        &&& self.numerator < self.scale
        &&& 1 <= self.scale <= u64::MAX
    }

    fn zero() -> (r: Counter)
        ensures
            r.wf(),
            r@ == Sum::zero(),
    {
        Counter {
            total: 0,
            whole: 0,
            numerator: 0,
            scale: 1,
            point: false,
            unit: String::new(),
            ended: false,
            full: false,
        }
    }

    fn add(&mut self, amount: u128, fine: bool)
        requires
            old(self).wf(),
            amount <= 582_134_970_780_496_546_045_524_000_000_000_000,
        ensures
            final(self).wf(),
            final(self)@ == old(self)@.plus(amount as nat, fine),
    {
        let total: u128 = self.total + amount;
        if total < PAST_LONGEST {
            self.total = total;
        } else {
            self.ended = true;
            self.full = fine && self.total + SECOND >= PAST_LONGEST && total == PAST_LONGEST;
        }
    }

    fn close(&mut self)
        requires
            old(self).wf(),
            !old(self).ended,
        ensures
            final(self).wf(),
            final(self)@ == old(self)@.closed(),
    {
        let unit: u128 = nanos_of(self.unit.as_str());
        let whole: u128 = self.whole;
        let numerator: u128 = self.numerator;
        let scale: u128 = self.scale;
        assert(whole * unit <= 0xffff_ffff_ffff_ffff * 31_557_600_000_000_000) by (nonlinear_arith)
            requires
                0 <= whole <= 0xffff_ffff_ffff_ffff,
                0 <= unit <= 31_557_600_000_000_000,
        ;
        assert(numerator * unit <= 0xffff_ffff_ffff_ffff * 31_557_600_000_000_000) by (nonlinear_arith)
            requires
                0 <= numerator <= 0xffff_ffff_ffff_ffff,
                0 <= unit <= 31_557_600_000_000_000,
        ;
        self.add(whole * unit, unit < SECOND);
        if !self.ended && self.point {
            let amount: u128 = numerator * unit / scale;
            assert(amount <= numerator * unit) by (nonlinear_arith)
                requires
                    scale >= 1,
                    numerator * unit >= 0,
                    amount == numerator * unit / (scale as int),
            ;
            self.add(amount, unit <= 60 * SECOND);
        }
        self.whole = 0;
        self.numerator = 0;
        self.scale = 1;
        self.point = false;
        self.unit = String::new();
    }

    fn push(&mut self, c: char)
        requires
            old(self).wf(),
        ensures
            final(self).wf(),
            final(self)@ == old(self)@.with_char(c),
    {
        if self.ended {
            return;
        }
        if text::letter(c) || c == '\u{b5}' {
            self.unit.push(c);
            return;
        }
        if c == '.' {
            self.point = true;
            return;
        }
        if !text::same(self.unit.as_str(), "") {
            proof {
                reveal_strlit("");
            }
            assert(self.unit@.len() == 0 ==> self.unit@ == ""@);
            self.close();
        } else {
            proof {
                reveal_strlit("");
            }
            assert(self.unit@.len() == 0);
        }
        if self.ended || !('0' <= c && c <= '9') {
            return;
        }
        let digit: u128 = ((c as u32) - ('0' as u32)) as u128;
        if self.point {
            if self.scale * 10 > u64::MAX as u128 {
                self.ended = true;
            } else {
                self.numerator = self.numerator * 10 + digit;
                self.scale = self.scale * 10;
            }
        } else if self.whole * 10 + digit > u64::MAX as u128 {
            self.ended = true;
        } else {
            self.whole = self.whole * 10 + digit;
        }
    }
}

/// Tells whether the parts of a text fill the last second that a duration has.
pub fn fills_up(value: &str) -> (r: bool)
    ensures
        r == fills_last_second(value@),
{
    let chars: Vec<char> = text::chars_of(value);
    let mut counter: Counter = Counter::zero();
    let mut i: usize = 0;
    while i < chars.len()
        invariant
            i <= chars.len(),
            chars@ == value@,
            counter.wf(),
            counter@ == added_up(value@.take(i as int)),
        decreases chars.len() - i,
    {
        proof {
            assert(value@.take(i + 1).drop_last() == value@.take(i as int));
        }
        counter.push(chars[i]);
        i = i + 1;
    }
    assert(value@.take(value@.len() as int) == value@);
    proof {
        reveal_strlit("");
    }
    if !counter.ended && !text::same(counter.unit.as_str(), "") {
        assert(counter.unit@.len() == 0 ==> counter.unit@ == ""@);
        counter.close();
    }
    counter.full
}

/// A whole number of seconds fills nothing.
pub proof fn lemma_seconds_fit(n: nat)
    requires
        n <= u64::MAX,
    ensures
        !fills_last_second(text::decimal(n) + "s"@),
{
    let digits = text::decimal(n);
    let whole = digits + "s"@;
    reveal_strlit("s");
    lemma_digits_added_up(n);
    assert(whole.drop_last() == digits);
    assert(whole.last() == 's');
    let sum = added_up(whole);
    assert(sum.unit == "s"@);
}

proof fn lemma_digits_added_up(n: nat)
    requires
        n <= u64::MAX,
    ensures
        added_up(text::decimal(n)) == (Sum { whole: n, ..Sum::zero() }),
    decreases n,
{
    reveal_with_fuel(added_up, 2);
    let digits = text::decimal(n);
    if n < 10 {
        assert(digits.drop_last() == Seq::<char>::empty());
        assert(digits.last() == text::digit_char(n));
    } else {
        lemma_digits_added_up(n / 10);
        assert(digits.drop_last() == text::decimal(n / 10));
        assert(digits.last() == text::digit_char(n % 10));
    }
}

} // verus!
