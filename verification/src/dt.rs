//! Lengths of time as scripts write and read them.
use crate::accuracy;
use crate::binary64;
use crate::binary64::{from_seconds, to_nanoseconds, INFINITE, SIGN};
use crate::text;
use crate::text::{concat, concat3, decimal_text};
use vstd::prelude::*;
use vstd::string::*;

verus! {

/// Nanoseconds in a second.
pub const NANOS: u64 = 1_000_000_000;

/// A binary64 number, by its bit pattern.
#[derive(Clone, Copy, PartialEq, Eq, Structural, Debug)]
pub struct Binary64 {
    pub bits: u64,
}

impl Binary64 {
    /// Whether the sign bit is set; it is for negative zero too.
    pub open spec fn negative(self) -> bool {
        self.bits >= SIGN
    }

    /// Whether the sign bit is set.
    pub fn is_sign_negative(&self) -> (r: bool)
        ensures
            r == self.negative(),
    {
        self.bits >= SIGN
    }
}

/// A length of time, to the nanosecond. A point in time is the length of time since the
/// clock's origin. The view is the number of nanoseconds.
#[derive(Clone, Copy, PartialEq, Eq, Structural, Debug)]
pub struct LuaDt {
    secs: u64,
    nanos: u32,
}

impl View for LuaDt {
    type V = nat;

    closed spec fn view(&self) -> nat {
        (self.secs * 1_000_000_000 + self.nanos) as nat
    }
}

/// What a length of time holds as whole seconds and nanoseconds.
pub open spec fn parts(t: nat) -> (u64, u32) {
    ((t / 1_000_000_000) as u64, (t % 1_000_000_000) as u32)
}

/// A length of time in seconds, as a binary64 pattern.
pub open spec fn seconds_of(t: nat) -> nat {
    binary64::seconds(t / 1_000_000_000, t % 1_000_000_000)
}

/// A longer time is at least as many seconds.
pub proof fn lemma_seconds_of_monotone(a: nat, b: nat)
    requires
        a <= b < binary64::time_limit(),
    ensures
        seconds_of(a) <= seconds_of(b),
{
    binary64::lemma_seconds_monotone(
        a / 1_000_000_000,
        a % 1_000_000_000,
        b / 1_000_000_000,
        b % 1_000_000_000,
    );
}

impl LuaDt {
    #[verifier::type_invariant]
    spec fn well_formed(self) -> bool {
        self.nanos < 1_000_000_000
    }

    /// The time of `secs` seconds and `nanos` nanoseconds.
    pub fn from_parts(secs: u64, nanos: u32) -> (r: LuaDt)
        requires
            nanos < 1_000_000_000,
        ensures
            r@ == secs * 1_000_000_000 + nanos,
            parts(r@) == (secs, nanos),
    {
        proof {
            vstd::arithmetic::div_mod::lemma_fundamental_div_mod_converse(
                secs * 1_000_000_000 + nanos,
                1_000_000_000,
                secs as int,
                nanos as int,
            );
        }
        LuaDt { secs, nanos }
    }

    /// The time of a number of whole seconds.
    pub fn from_secs(secs: u64) -> (r: LuaDt)
        ensures
            r@ == secs * 1_000_000_000,
    {
        LuaDt { secs, nanos: 0 }
    }

    /// No time at all.
    pub fn zero() -> (r: LuaDt)
        ensures
            r@ == 0,
    {
        LuaDt { secs: 0, nanos: 0 }
    }

    /// The whole seconds.
    pub fn as_secs(&self) -> (r: u64)
        ensures
            r == self@ / 1_000_000_000,
            self@ < binary64::time_limit(),
    {
        proof {
            use_type_invariant(self);
        }
        self.secs
    }

    /// The nanoseconds beside the whole seconds.
    pub fn subsec_nanos(&self) -> (r: u32)
        ensures
            r == self@ % 1_000_000_000,
            r < 1_000_000_000,
            self@ < binary64::time_limit(),
    {
        proof {
            use_type_invariant(self);
        }
        self.nanos
    }

    /// All of it in nanoseconds.
    pub fn as_nanos(&self) -> (r: u128)
        ensures
            r == self@,
            r < binary64::time_limit(),
    {
        proof {
            use_type_invariant(self);
        }
        self.secs as u128 * 1_000_000_000 + self.nanos as u128
    }

    /// Whether both are the same length.
    pub fn same(&self, other: &LuaDt) -> (r: bool)
        ensures
            r == (self@ == other@),
    {
        self.as_nanos() == other.as_nanos()
    }

    /// Whether this one is the shorter, or the earlier.
    pub fn before(&self, other: &LuaDt) -> (r: bool)
        ensures
            r == (self@ < other@),
            self@ < binary64::time_limit(),
            other@ < binary64::time_limit(),
    {
        self.as_nanos() < other.as_nanos()
    }

    /// A number of nanoseconds.
    fn from_nanos(total: u128) -> (r: LuaDt)
        requires
            total < binary64::time_limit(),
        ensures
            r@ == total,
    {
        LuaDt { secs: (total / 1_000_000_000) as u64, nanos: (total % 1_000_000_000) as u32 }
    }

    /// The sum, where it is not beyond the longest time.
    pub fn checked_add(&self, other: &LuaDt) -> (r: Option<LuaDt>)
        ensures
            r is Some == (self@ + other@ < binary64::time_limit()),
            r matches Some(t) ==> t@ == self@ + other@,
    {
        let total: u128 = self.as_nanos() + other.as_nanos();
        if total < 0x1_0000_0000_0000_0000 * 1_000_000_000 {
            Some(LuaDt::from_nanos(total))
        } else {
            None
        }
    }

    /// The difference to a time that is not longer.
    pub fn sub(&self, other: &LuaDt) -> (r: LuaDt)
        requires
            self@ >= other@,
        ensures
            r@ == self@ - other@,
    {
        LuaDt::from_nanos(self.as_nanos() - other.as_nanos())
    }

    /// How long this point in time is after an earlier one; no time where it is not after.
    pub fn since(&self, earlier: &LuaDt) -> (r: LuaDt)
        ensures
            r@ == if self@ >= earlier@ {
                (self@ - earlier@) as nat
            } else {
                0
            },
    {
        if self.before(earlier) {
            LuaDt::zero()
        } else {
            self.sub(earlier)
        }
    }

    /// The product, where it is not beyond the longest time.
    pub fn checked_mul(&self, n: u32) -> (r: Option<LuaDt>)
        ensures
            r is Some == (self@ * n < binary64::time_limit()),
            r matches Some(t) ==> t@ == self@ * n,
    {
        let total = self.as_nanos();
        proof {
            assert(total * n <= 0x1_0000_0000_0000_0000 * 1_000_000_000 * 0xFFFF_FFFF) by (
            nonlinear_arith)
                requires
                    total <= 0x1_0000_0000_0000_0000 * 1_000_000_000,
                    n <= 0xFFFF_FFFF,
            ;
        }
        let product: u128 = total * n as u128;
        if product < 0x1_0000_0000_0000_0000 * 1_000_000_000 {
            Some(LuaDt::from_nanos(product))
        } else {
            None
        }
    }

    /// The time in seconds.
    pub fn secs(&self) -> (r: Binary64)
        ensures
            r.bits == seconds_of(self@),
            self@ == 0 ==> r.bits == 0,
            self@ != 0 ==> binary64::power_pattern(1044) <= r.bits <= binary64::power_pattern(1139),
    {
        Binary64 { bits: from_seconds(self.as_secs(), self.subsec_nanos()) }
    }

    /// The time of a number of seconds that is neither negative nor too large.
    pub fn from_seconds_number(n: Binary64) -> (r: LuaDt)
        requires
            n.bits < INFINITE,
            binary64::nanoseconds(n.bits as nat) < binary64::time_limit(),
        ensures
            r@ == binary64::nanoseconds(n.bits as nat),
    {
        match to_nanoseconds(n.bits) {
            Some(p) => LuaDt::from_parts(p.0, p.1),
            None => LuaDt::zero(),
        }
    }
}

/// What humantime makes of a text: whole seconds and nanoseconds, or nothing where it
/// refuses the text.
pub uninterp spec fn humantime_parse(text: Seq<char>) -> Option<(u64, u32)>;

/// The error with which humantime refuses a text.
pub uninterp spec fn humantime_error(text: Seq<char>) -> humantime::DurationError;

/// The text that humantime writes for a number of seconds and nanoseconds.
pub uninterp spec fn humantime_format(secs: u64, nanos: u32) -> Seq<char>;

/// The seconds that a text of decimal digits before a single `s` stands for, where they fit in
/// 64 bits.
pub open spec fn whole_seconds(s: Seq<char>) -> Option<u64> {
    if s.len() > 1 && s.last() == 's' && text::all_digits(s.drop_last()) && text::digits_value(
        s.drop_last(),
    ) <= u64::MAX {
        Some(text::digits_value(s.drop_last()) as u64)
    } else {
        None
    }
}

/// The error of humantime's parser.
#[verifier::external_type_specification]
#[verifier::external_body]
pub struct ExDurationError(humantime::DurationError);

/// Calls `humantime::parse_duration`. What it returns depends on the text alone and is named
/// `humantime_parse`, and `humantime_error` where it refuses the text; digits before a single `s`
/// are so many seconds. It adds up the seconds with overflow checks, except that a carry of
/// exactly one second from the nanoseconds onto `u64::MAX` seconds is unchecked and panics:
/// `text_in_range` leaves out the texts in which it comes to that.
#[verifier::external_body]
fn parse_duration(text: &str) -> (r: Result<(u64, u32), humantime::DurationError>)
    requires
        text_in_range(text@),
    ensures
        r matches Ok(p) ==> p.1 < 1_000_000_000 && humantime_parse(text@) == Some(p),
        r is Err ==> humantime_parse(text@) is None,
        r matches Err(e) ==> e == humantime_error(text@),
        whole_seconds(text@) matches Some(k) ==> r is Ok && r->Ok_0.0 == k && r->Ok_0.1 == 0,
{
    humantime::parse_duration(text).map(|d| (d.as_secs(), d.subsec_nanos()))
}

/// Calls `humantime::format_duration` and writes its result out. The text depends on the
/// time alone and is named `humantime_format`; humantime guarantees that its parser reads
/// the same time back from it, and so comes to no sum that is out of range.
#[verifier::external_body]
fn format_duration(secs: u64, nanos: u32) -> (r: String)
    requires
        nanos < 1_000_000_000,
    ensures
        r@ == humantime_format(secs, nanos),
        humantime_parse(r@) == Some((secs, nanos)),
        text_in_range(r@),
{
    humantime::format_duration(std::time::Duration::new(secs, nanos)).to_string()
}

/// The smaller of two numbers.
pub open spec fn least(a: nat, b: nat) -> nat {
    if a < b {
        a
    } else {
        b
    }
}

/// The nanoseconds that a unit of humantime stands for, by its name.
pub open spec fn unit_nanos(unit: Seq<char>) -> Option<nat> {
    if unit == "nanos"@ || unit == "nsec"@ || unit == "ns"@ {
        Some(1)
    } else if unit == "usec"@ || unit == "us"@ || unit == "\u{b5}s"@ {
        Some(1_000)
    } else if unit == "millis"@ || unit == "msec"@ || unit == "ms"@ {
        Some(1_000_000)
    } else if unit == "seconds"@ || unit == "second"@ || unit == "secs"@ || unit == "sec"@ || unit
        == "s"@ {
        Some(1_000_000_000)
    } else if unit == "minutes"@ || unit == "minute"@ || unit == "min"@ || unit == "mins"@ || unit
        == "m"@ {
        Some(60_000_000_000)
    } else if unit == "hours"@ || unit == "hour"@ || unit == "hr"@ || unit == "hrs"@ || unit
        == "h"@ {
        Some(3_600_000_000_000)
    } else if unit == "days"@ || unit == "day"@ || unit == "d"@ {
        Some(86_400_000_000_000)
    } else if unit == "weeks"@ || unit == "week"@ || unit == "wk"@ || unit == "wks"@ || unit
        == "w"@ {
        Some(604_800_000_000_000)
    } else if unit == "months"@ || unit == "month"@ || unit == "M"@ {
        Some(2_630_016_000_000_000)
    } else if unit == "years"@ || unit == "year"@ || unit == "yr"@ || unit == "yrs"@ || unit
        == "y"@ {
        Some(31_557_600_000_000_000)
    } else {
        None
    }
}

/// Where in a text the reading of it stands.
#[derive(Clone, Copy, PartialEq, Eq, Structural, Debug)]
pub enum Place {
    /// Before a number.
    Before,
    Number,
    Fraction,
    Unit,
    /// After what humantime refuses.
    Refused,
    /// After a second made up of parts that brought the sum to exactly 2^64 seconds.
    Over,
}

/// A text up to some place, as far as its numbers have been added up: the sum in nanoseconds,
/// and the number, the fraction and the unit that are being read.
pub struct TextSum {
    pub place: Place,
    pub sum: nat,
    pub number: nat,
    pub point: bool,
    pub fraction: nat,
    /// The power of ten by which the fraction is divided.
    pub divisor: nat,
    pub unit: Seq<char>,
}

/// Before a number, with a sum.
pub open spec fn before_number(sum: nat) -> TextSum {
    TextSum {
        place: Place::Before,
        sum,
        number: 0,
        point: false,
        fraction: 0,
        divisor: 1,
        unit: Seq::empty(),
    }
}

/// The grain in which the number of a unit is counted, in nanoseconds: seconds, or nanoseconds
/// where the unit is below a second.
pub open spec fn number_grain(unit: nat) -> nat {
    if unit < 1_000_000_000 {
        1
    } else {
        1_000_000_000
    }
}

/// The grain in which the fraction of a unit is counted, in nanoseconds: seconds, or nanoseconds
/// where the unit is no longer than a minute.
pub open spec fn fraction_grain(unit: nat) -> nat {
    if unit <= 60_000_000_000 {
        1
    } else {
        1_000_000_000
    }
}

/// The sum with a number of grains added, or where the reading of the text ends.
pub open spec fn with_grains(sum: nat, count: nat, grain: nat) -> Result<nat, Place> {
    let total = sum + count * grain;
    if count > u64::MAX || (grain == 1 && sum % 1_000_000_000 + count > u64::MAX) {
        Err(Place::Refused)
    } else if grain == 1 && 0 < count <= 1_000_000_000 && total == binary64::time_limit() {
        Err(Place::Over)
    } else if total >= binary64::time_limit() {
        Err(Place::Refused)
    } else {
        Ok(total)
    }
}

impl TextSum {
    /// The sum with the number and the fraction of a unit added. A fraction must come to a whole
    /// number of grains.
    pub open spec fn with_unit(self, unit: nat) -> Result<nat, Place> {
        let whole = number_grain(unit);
        let part = fraction_grain(unit);
        match with_grains(self.sum, self.number * (unit / whole), whole) {
            Ok(sum) => if !self.point {
                Ok(sum)
            } else if unit == 1 || self.fraction * (unit / part) > u64::MAX || self.fraction * (unit
                / part) % self.divisor != 0 {
                Err(Place::Refused)
            } else {
                with_grains(sum, self.fraction * (unit / part) / self.divisor, part)
            },
            Err(place) => Err(place),
        }
    }

    /// At the end of a unit.
    pub open spec fn finish(self) -> TextSum {
        match unit_nanos(self.unit) {
            Some(unit) => match self.with_unit(unit) {
                Ok(sum) => before_number(sum),
                Err(place) => TextSum { place, ..self },
            },
            None => self.refuse(),
        }
    }

    /// After what humantime refuses.
    pub open spec fn refuse(self) -> TextSum {
        TextSum { place: Place::Refused, ..self }
    }

    /// With one more digit.
    pub open spec fn push_digit(self, d: nat) -> TextSum {
        match self.place {
            Place::Before => TextSum { place: Place::Number, number: d, ..self },
            Place::Number => if self.number * 10 + d > u64::MAX {
                self.refuse()
            } else {
                TextSum { number: self.number * 10 + d, ..self }
            },
            Place::Fraction => if self.fraction * 10 + d > u64::MAX || self.divisor * 10
                > u64::MAX {
                self.refuse()
            } else {
                TextSum {
                    fraction: self.fraction * 10 + d,
                    divisor: self.divisor * 10,
                    ..self
                }
            },
            Place::Unit => {
                let t = self.finish();
                if t.place == Place::Before {
                    TextSum { place: Place::Number, number: d, ..t }
                } else {
                    t
                }
            },
            _ => self,
        }
    }

    /// With one more letter, of which units are made.
    pub open spec fn push_letter(self, c: char) -> TextSum {
        if self.place == Place::Number || (self.place == Place::Fraction && self.divisor > 1)
            || self.place == Place::Unit {
            TextSum { place: Place::Unit, unit: self.unit.push(c), ..self }
        } else if self.place == Place::Over {
            self
        } else {
            self.refuse()
        }
    }

    /// With one more character.
    pub open spec fn push(self, c: char) -> TextSum {
        if text::is_digit(c) {
            self.push_digit((c as nat - 48) as nat)
        } else if is_unit_letter(c) {
            self.push_letter(c)
        } else if is_white_space(c) {
            self.end()
        } else if c == '.' && self.place == Place::Number {
            TextSum { place: Place::Fraction, point: true, ..self }
        } else if self.place == Place::Over {
            self
        } else {
            self.refuse()
        }
    }

    /// With the unit added that ends here, if any.
    pub open spec fn end(self) -> TextSum {
        if self.place == Place::Unit {
            self.finish()
        } else {
            self
        }
    }
}

/// Whether a character can stand in the name of a unit.
pub open spec fn is_unit_letter(c: char) -> bool {
    ('a' <= c && c <= 'z') || ('A' <= c && c <= 'Z') || c == '\u{b5}'
}

/// Whether a character is white space to Unicode.
pub open spec fn is_white_space(c: char) -> bool {
    ('\t' <= c && c <= '\r') || c == ' ' || c == '\u{85}' || c == '\u{a0}' || c == '\u{1680}' || (
    '\u{2000}' <= c && c <= '\u{200a}') || c == '\u{2028}' || c == '\u{2029}' || c == '\u{202f}'
        || c == '\u{205f}' || c == '\u{3000}'
}

/// The sum of a text.
pub open spec fn text_sum(s: Seq<char>) -> TextSum
    decreases s.len(),
{
    if s.len() == 0 {
        before_number(0)
    } else {
        text_sum(s.drop_last()).push(s.last())
    }
}

/// Whether humantime refuses a text, or adds it up, before a second that is made up of parts
/// brings it to exactly 2^64 seconds.
pub open spec fn text_in_range(s: Seq<char>) -> bool {
    text_sum(s).end().place != Place::Over
}

/// Tells whether two texts are the same.
fn same(a: &String, b: &str) -> (r: bool)
    ensures
        r == (a@ == b@),
{
    *a == b.to_owned()
}

/// The nanoseconds that a unit stands for, by its name.
fn find_unit(unit: &String) -> (r: Option<u64>)
    ensures
        r is Some == unit_nanos(unit@) is Some,
        r matches Some(u) ==> unit_nanos(unit@) == Some(u as nat) && 0 < u
            <= 31_557_600_000_000_000,
{
    if same(unit, "nanos") || same(unit, "nsec") || same(unit, "ns") {
        Some(1)
    } else if same(unit, "usec") || same(unit, "us") || same(unit, "\u{b5}s") {
        Some(1_000)
    } else if same(unit, "millis") || same(unit, "msec") || same(unit, "ms") {
        Some(1_000_000)
    } else if same(unit, "seconds")
        || same(unit, "second")
        || same(unit, "secs")
        || same(unit, "sec")
        || same(unit, "s") {
        Some(1_000_000_000)
    } else if same(unit, "minutes")
        || same(unit, "minute")
        || same(unit, "min")
        || same(unit, "mins")
        || same(unit, "m") {
        Some(60_000_000_000)
    } else if same(unit, "hours")
        || same(unit, "hour")
        || same(unit, "hr")
        || same(unit, "hrs")
        || same(unit, "h") {
        Some(3_600_000_000_000)
    } else if same(unit, "days") || same(unit, "day") || same(unit, "d") {
        Some(86_400_000_000_000)
    } else if same(unit, "weeks")
        || same(unit, "week")
        || same(unit, "wk")
        || same(unit, "wks")
        || same(unit, "w") {
        Some(604_800_000_000_000)
    } else if same(unit, "months") || same(unit, "month") || same(unit, "M") {
        Some(2_630_016_000_000_000)
    } else if same(unit, "years")
        || same(unit, "year")
        || same(unit, "yr")
        || same(unit, "yrs")
        || same(unit, "y") {
        Some(31_557_600_000_000_000)
    } else {
        None
    }
}

/// Whether a character is white space to Unicode.
fn white_space(c: char) -> (r: bool)
    ensures
        r == is_white_space(c),
{
    ('\t' <= c && c <= '\r') || c == ' ' || c == '\u{85}' || c == '\u{a0}' || c == '\u{1680}' || (
    '\u{2000}' <= c && c <= '\u{200a}') || c == '\u{2028}' || c == '\u{2029}' || c == '\u{202f}'
        || c == '\u{205f}' || c == '\u{3000}'
}

/// The sum with a number of grains added, or where the reading of the text ends.
fn add_grains(sum: u128, count: u128, grain: u64) -> (r: Result<u128, Place>)
    requires
        sum < binary64::time_limit(),
        grain == 1 || grain == 1_000_000_000,
    ensures
        match r {
            Ok(total) => with_grains(sum as nat, count as nat, grain as nat) == Ok::<nat, Place>(
                total as nat,
            ) && total < binary64::time_limit(),
            Err(place) => with_grains(sum as nat, count as nat, grain as nat) == Err::<nat, Place>(
                place,
            ),
        },
{
    let limit: u128 = 0x1_0000_0000_0000_0000 * 1_000_000_000;
    if count > u64::MAX as u128 || (grain == 1 && sum % 1_000_000_000 + count > u64::MAX as u128) {
        return Err(Place::Refused);
    }
    let total: u128 = if grain == 1 {
        sum + count
    } else {
        sum + count * 1_000_000_000
    };
    if grain == 1 && 0 < count && count <= 1_000_000_000 && total == limit {
        Err(Place::Over)
    } else if total >= limit {
        Err(Place::Refused)
    } else {
        Ok(total)
    }
}

/// Adds up the numbers of a text, character by character.
struct TextReader {
    place: Place,
    sum: u128,
    number: u64,
    point: bool,
    fraction: u64,
    divisor: u64,
    unit: String,
}

impl View for TextReader {
    type V = TextSum;

    closed spec fn view(&self) -> TextSum {
        TextSum {
            place: self.place,
            sum: self.sum as nat,
            number: self.number as nat,
            point: self.point,
            fraction: self.fraction as nat,
            divisor: self.divisor as nat,
            unit: self.unit@,
        }
    }
}

impl TextReader {
    spec fn wf(self) -> bool {
        self.sum < binary64::time_limit() && self.divisor > 0
    }

    /// Before a number, with a sum.
    fn begin(sum: u128) -> (r: TextReader)
        requires
            sum < binary64::time_limit(),
        ensures
            r.wf(),
            r@ == before_number(sum as nat),
    {
        TextReader {
            place: Place::Before,
            sum,
            number: 0,
            point: false,
            fraction: 0,
            divisor: 1,
            unit: String::new(),
        }
    }

    /// The sum with the number and the fraction of a unit added.
    fn add_unit(&self, unit: u64) -> (r: Result<u128, Place>)
        requires
            self.wf(),
            0 < unit <= 31_557_600_000_000_000,
        ensures
            match r {
                Ok(total) => self@.with_unit(unit as nat) == Ok::<nat, Place>(total as nat) && total
                    < binary64::time_limit(),
                Err(place) => self@.with_unit(unit as nat) == Err::<nat, Place>(place),
            },
    {
        let whole: u64 = if unit < 1_000_000_000 {
            1
        } else {
            1_000_000_000
        };
        let part: u64 = if unit <= 60_000_000_000 {
            1
        } else {
            1_000_000_000
        };
        let (number, fraction, divisor) = (self.number, self.fraction, self.divisor);
        let (wholes, parts): (u64, u64) = (unit / whole, unit / part);
        assert(number * wholes <= 0xFFFF_FFFF_FFFF_FFFF * 60_000_000_000) by (nonlinear_arith)
            requires
                number <= 0xFFFF_FFFF_FFFF_FFFF,
                wholes <= 60_000_000_000,
        ;
        assert(fraction * parts <= 0xFFFF_FFFF_FFFF_FFFF * 60_000_000_000) by (nonlinear_arith)
            requires
                fraction <= 0xFFFF_FFFF_FFFF_FFFF,
                parts <= 60_000_000_000,
        ;
        let sum: u128 = match add_grains(self.sum, number as u128 * wholes as u128, whole) {
            Ok(sum) => sum,
            Err(place) => {
                return Err(place);
            },
        };
        if !self.point {
            return Ok(sum);
        }
        let scaled: u128 = fraction as u128 * parts as u128;
        if unit == 1 || scaled > u64::MAX as u128 || scaled % divisor as u128 != 0 {
            return Err(Place::Refused);
        }
        add_grains(sum, scaled / divisor as u128, part)
    }

    /// Adds the unit that ends here, if any.
    fn end(&mut self)
        requires
            old(self).wf(),
        ensures
            final(self).wf(),
            final(self)@ == old(self)@.end(),
    {
        if self.place != Place::Unit {
            return;
        }
        match find_unit(&self.unit) {
            Some(unit) => match self.add_unit(unit) {
                Ok(sum) => {
                    *self = TextReader::begin(sum);
                },
                Err(place) => {
                    self.place = place;
                },
            },
            None => {
                self.place = Place::Refused;
            },
        }
    }

    /// Takes in one more digit.
    fn push_digit(&mut self, d: u64)
        requires
            old(self).wf(),
            d < 10,
        ensures
            final(self).wf(),
            final(self)@ == old(self)@.push_digit(d as nat),
    {
        self.end();
        match self.place {
            Place::Before => {
                self.place = Place::Number;
                self.number = d;
            },
            Place::Number => {
                let number: u128 = self.number as u128 * 10 + d as u128;
                if number > u64::MAX as u128 {
                    self.place = Place::Refused;
                } else {
                    self.number = number as u64;
                }
            },
            Place::Fraction => {
                let fraction: u128 = self.fraction as u128 * 10 + d as u128;
                let divisor: u128 = self.divisor as u128 * 10;
                if fraction > u64::MAX as u128 || divisor > u64::MAX as u128 {
                    self.place = Place::Refused;
                } else {
                    self.fraction = fraction as u64;
                    self.divisor = divisor as u64;
                }
            },
            _ => {},
        }
    }

    /// Takes in one more character.
    fn push(&mut self, c: char)
        requires
            old(self).wf(),
        ensures
            final(self).wf(),
            final(self)@ == old(self)@.push(c),
    {
        if '0' <= c && c <= '9' {
            self.push_digit((c as u32 - 48) as u64);
        } else if ('a' <= c && c <= 'z') || ('A' <= c && c <= 'Z') || c == '\u{b5}' {
            if self.place == Place::Number || (self.place == Place::Fraction && self.divisor > 1)
                || self.place == Place::Unit {
                self.place = Place::Unit;
                self.unit.push(c);
            } else if self.place != Place::Over {
                self.place = Place::Refused;
            }
        } else if white_space(c) {
            self.end();
        } else if c == '.' && self.place == Place::Number {
            self.place = Place::Fraction;
            self.point = true;
        } else if self.place != Place::Over {
            self.place = Place::Refused;
        }
    }
}

/// Tells whether a text stays in the range of `text_in_range`.
pub fn check_text_range(s: &str) -> (r: bool)
    ensures
        r == text_in_range(s@),
{
    let mut reader = TextReader::begin(0);
    let ghost full = s@;
    assert(full.take(0) =~= Seq::<char>::empty());
    for c in it: s.chars()
        invariant
            full == s@,
            it.seq() == full,
            reader.wf(),
            reader@ == text_sum(full.take(it.index())),
    {
        let ghost i = it.index();
        proof {
            assert(full.take(i + 1).drop_last() =~= full.take(i));
            assert(full.take(i + 1).last() == c);
        }
        reader.push(c);
    }
    assert(full.take(full.len() as int) =~= full);
    reader.end();
    reader.place != Place::Over
}

/// Why a value is not a length of time.
pub enum ParseDtError {
    /// The value is negative.
    MustBePositive,
    /// The text is not one that humantime reads.
    InvalidFormat(humantime::DurationError),
}

impl ParseDtError {
    /// The message of the error. `reason` is that of humantime, where it has one.
    pub fn message(&self, reason: &str) -> (r: String)
        ensures
            r@ == match self {
                ParseDtError::MustBePositive => "value must be positive"@,
                ParseDtError::InvalidFormat(_) => "invalid dt format: "@ + reason@,
            },
    {
        match self {
            ParseDtError::MustBePositive => "value must be positive".to_owned(),
            ParseDtError::InvalidFormat(_) => concat("invalid dt format: ", reason),
        }
    }
}

impl LuaDt {
    /// Reads the text of a length of time, such as `10s` or `2h 37min`.
    pub fn from_str(s: &str) -> (r: Result<LuaDt, ParseDtError>)
        requires
            text_in_range(s@),
        ensures
            r matches Ok(t) ==> humantime_parse(s@) == Some(parts(t@)) && t@
                < binary64::time_limit(),
            r matches Err(e) ==> humantime_parse(s@) is None && e == ParseDtError::InvalidFormat(
                humantime_error(s@),
            ),
            whole_seconds(s@) matches Some(k) ==> (r matches Ok(t) && t@ == k * 1_000_000_000),
    {
        match parse_duration(s) {
            Ok(p) => Ok(LuaDt::from_parts(p.0, p.1)),
            Err(e) => Err(ParseDtError::InvalidFormat(e)),
        }
    }

    /// The text that people read, such as `2h 37m`.
    pub fn to_text(&self) -> (r: String)
        ensures
            r@ == dt_text(self@),
            humantime_parse(r@) == Some(parts(self@)),
            text_in_range(r@),
    {
        let secs = self.as_secs();
        let nanos = self.subsec_nanos();
        format_duration(secs, nanos)
    }

    /// The text of debug output: the readable text, quoted, as a tuple field.
    pub fn debug_text(&self) -> (r: String)
        ensures
            r@ == "LuaDt(\""@ + dt_text(self@) + "\")"@,
    {
        let readable = self.to_text();
        concat3("LuaDt(\"", readable.as_str(), "\")")
    }

    /// The text under which a time is stored: its nanoseconds in decimal.
    pub fn serialize_text(&self) -> (r: String)
        ensures
            r@ == text::decimal(self@),
    {
        decimal_text(self.as_nanos())
    }
}

/// The readable text of a time of `t` nanoseconds.
pub open spec fn dt_text(t: nat) -> Seq<char> {
    humantime_format(parts(t).0, parts(t).1)
}

/// A value that a script gives for a length of time.
pub enum RawDtValue {
    /// A whole number of seconds.
    I64(i64),
    /// A number of seconds.
    F64(Binary64),
    /// A text for humantime.
    String(String),
    /// A length of time as it is.
    Dt(LuaDt),
}

impl RawDtValue {
    /// The values that can be converted, with a length of time or an error: a number of
    /// seconds is negative, or else finite and below 2^64, and the numbers of a text stay in
    /// range.
    pub open spec fn convertible(self) -> bool {
        match self {
            RawDtValue::F64(n) => n.negative() || (n.bits < INFINITE && binary64::nanoseconds(
                n.bits as nat,
            ) < binary64::time_limit()),
            RawDtValue::String(s) => text_in_range(s@),
            _ => true,
        }
    }

    /// The length of time that the value stands for, in nanoseconds.
    pub open spec fn nanos(self) -> Option<nat> {
        match self {
            RawDtValue::I64(i) => if i < 0 {
                None
            } else {
                Some((i * 1_000_000_000) as nat)
            },
            RawDtValue::F64(n) => if n.negative() {
                None
            } else {
                Some(binary64::nanoseconds(n.bits as nat))
            },
            RawDtValue::String(s) => match humantime_parse(s@) {
                Some(p) => Some((p.0 * 1_000_000_000 + p.1) as nat),
                None => None,
            },
            RawDtValue::Dt(t) => Some(t@),
        }
    }

    /// Why the value stands for no length of time, where it does not.
    pub open spec fn refusal(self) -> ParseDtError {
        match self {
            RawDtValue::String(s) => ParseDtError::InvalidFormat(humantime_error(s@)),
            _ => ParseDtError::MustBePositive,
        }
    }

    /// Tells whether the value can be converted.
    pub fn check_convertible(&self) -> (r: bool)
        ensures
            r == self.convertible(),
    {
        match self {
            RawDtValue::F64(n) => n.is_sign_negative() || (n.bits < INFINITE && to_nanoseconds(
                n.bits,
            ).is_some()),
            RawDtValue::String(s) => check_text_range(s.as_str()),
            _ => true,
        }
    }

    /// The length of time that the value stands for.
    pub fn into_lua_dt(self) -> (r: Result<LuaDt, ParseDtError>)
        requires
            self.convertible(),
        ensures
            r matches Ok(t) ==> self.nanos() == Some(t@),
            r matches Err(e) ==> self.nanos() is None && e == self.refusal(),
            self matches RawDtValue::String(s) ==> (whole_seconds(s@) matches Some(k) ==> (
            r matches Ok(t) && t@ == k * 1_000_000_000)),
    {
        match self {
            RawDtValue::I64(i) => {
                if i < 0 {
                    return Err(ParseDtError::MustBePositive);
                }
                Ok(LuaDt::from_secs(i as u64))
            },
            RawDtValue::F64(n) => {
                if n.is_sign_negative() {
                    return Err(ParseDtError::MustBePositive);
                }
                Ok(LuaDt::from_seconds_number(n))
            },
            RawDtValue::String(s) => {
                match parse_duration(s.as_str()) {
                    Ok(p) => Ok(LuaDt::from_parts(p.0, p.1)),
                    Err(e) => Err(ParseDtError::InvalidFormat(e)),
                }
            },
            RawDtValue::Dt(t) => Ok(t),
        }
    }
}

/// Reading the readable text of a length of time gives the same length of time.
pub proof fn law_text_round_trip(
    t: LuaDt,
    readable: String,
    s: &str,
    read: Result<LuaDt, ParseDtError>,
)
    requires
        t@ < binary64::time_limit(),
        read matches Ok(u) ==> u@ < binary64::time_limit(),
        call_ensures(LuaDt::to_text, (&t,), readable),
        s@ == readable@,
        call_ensures(LuaDt::from_str, (s,), read),
    ensures
        text_in_range(s@),
        read matches Ok(u) && u@ == t@,
{
    if let Ok(u) = read {
        assert(u@ / 1_000_000_000 == t@ / 1_000_000_000);
        assert(u@ % 1_000_000_000 == t@ % 1_000_000_000);
    }
}

/// Digits are a number that is being read.
proof fn lemma_digits_sum(s: Seq<char>)
    requires
        text::all_digits(s),
    ensures
        text_sum(s).place == Place::Before || text_sum(s).place == Place::Number || text_sum(s).place
            == Place::Refused,
        !text_sum(s).point,
        text_sum(s).unit.len() == 0,
    decreases s.len(),
{
    if s.len() > 0 {
        assert(text::is_digit(s[s.len() - 1]));
        assert(text::all_digits(s.drop_last()));
        lemma_digits_sum(s.drop_last());
    }
}

/// The text of a whole number of seconds is in range.
pub proof fn lemma_whole_seconds_in_range(s: Seq<char>)
    requires
        whole_seconds(s) is Some,
    ensures
        text_in_range(s),
{
    let digits = text_sum(s.drop_last());
    lemma_digits_sum(s.drop_last());
    let read = text_sum(s);
    assert(read == digits.push('s'));
    reveal_strlit("s");
    reveal_strlit("nanos");
    reveal_strlit("nsec");
    reveal_strlit("ns");
    reveal_strlit("usec");
    reveal_strlit("us");
    reveal_strlit("\u{b5}s");
    reveal_strlit("millis");
    reveal_strlit("msec");
    reveal_strlit("ms");
    if read.place == Place::Unit {
        assert(read.unit =~= "s"@);
        assert("s"@.len() == 1);
        assert(unit_nanos("s"@) == Some(1_000_000_000nat));
    }
}

/// A whole number of seconds is the same length of time however it is given: as an integer, as
/// the binary64 number that it is, as its decimal text before an `s`, or as a length of time.
pub proof fn law_forms_of_whole_seconds_agree(
    k: i64,
    n: Binary64,
    s: String,
    t: LuaDt,
    from_integer: Result<LuaDt, ParseDtError>,
    from_number: Result<LuaDt, ParseDtError>,
    from_text: Result<LuaDt, ParseDtError>,
    from_time: Result<LuaDt, ParseDtError>,
)
    requires
        0 <= k,
        n.bits < INFINITE,
        binary64::units(n.bits as nat) == k * binary64::one(),
        s@ == text::decimal(k as nat) + seq!['s'],
        t@ == k * 1_000_000_000,
        call_ensures(RawDtValue::into_lua_dt, (RawDtValue::I64(k),), from_integer),
        call_ensures(RawDtValue::into_lua_dt, (RawDtValue::F64(n),), from_number),
        call_ensures(RawDtValue::into_lua_dt, (RawDtValue::String(s),), from_text),
        call_ensures(RawDtValue::into_lua_dt, (RawDtValue::Dt(t),), from_time),
    ensures
        RawDtValue::I64(k).convertible(),
        RawDtValue::F64(n).convertible(),
        RawDtValue::String(s).convertible(),
        RawDtValue::Dt(t).convertible(),
        from_integer matches Ok(a) && a@ == k * 1_000_000_000,
        from_number matches Ok(a) && a@ == k * 1_000_000_000,
        from_text matches Ok(a) && a@ == k * 1_000_000_000,
        from_time matches Ok(a) && a@ == k * 1_000_000_000,
{
    binary64::lemma_whole_nanoseconds(n.bits as nat, k as nat);
    text::lemma_decimal(k as nat);
    assert(s@.drop_last() =~= text::decimal(k as nat));
    assert(whole_seconds(s@) == Some(k as u64));
    lemma_whole_seconds_in_range(s@);
}

/// A text is read as the time that humantime reads from it, whole seconds and nanoseconds, and
/// refused with humantime's error where humantime refuses it.
pub proof fn law_texts_are_read_by_humantime(s: &str, r: Result<LuaDt, ParseDtError>)
    requires
        call_ensures(LuaDt::from_str, (s,), r),
    ensures
        match humantime_parse(s@) {
            Some(p) => r matches Ok(t) && t@ / 1_000_000_000 == p.0 && t@ % 1_000_000_000 == p.1,
            None => r matches Err(ParseDtError::InvalidFormat(e)) && e == humantime_error(s@),
        },
{
}

/// A time is its whole seconds and the nanoseconds beside them, which are less than a second; and
/// the time made of these is the same again.
pub proof fn law_parts_make_up_a_time(t: LuaDt, secs: u64, nanos: u32, all: u128, again: LuaDt)
    requires
        call_ensures(LuaDt::as_secs, (&t,), secs),
        call_ensures(LuaDt::subsec_nanos, (&t,), nanos),
        call_ensures(LuaDt::as_nanos, (&t,), all),
        call_ensures(LuaDt::from_parts, (secs, nanos), again),
    ensures
        nanos < 1_000_000_000,
        secs * 1_000_000_000 + nanos == t@,
        all == t@,
        again@ == t@,
{
}

/// Times add up and subtract to the nanosecond: what is added can be taken away again, how long a
/// time is after another one is what is to be added to that one, and a product is so many times
/// the time. A sum or product is missing only beyond the longest time.
pub proof fn law_times_add_up(
    a: LuaDt,
    b: LuaDt,
    n: u32,
    sum: Option<LuaDt>,
    product: Option<LuaDt>,
    gap: LuaDt,
    shorter: bool,
    same: bool,
)
    requires
        call_ensures(LuaDt::checked_add, (&a, &b), sum),
        call_ensures(LuaDt::checked_mul, (&a, n), product),
        call_ensures(LuaDt::since, (&a, &b), gap),
        call_ensures(LuaDt::before, (&a, &b), shorter),
        call_ensures(LuaDt::same, (&a, &b), same),
    ensures
        sum is None ==> a@ + b@ >= binary64::time_limit(),
        sum matches Some(t) ==> t@ == a@ + b@ && t@ < binary64::time_limit(),
        product is None ==> a@ * n >= binary64::time_limit(),
        product matches Some(t) ==> t@ == a@ * n,
        !shorter ==> b@ + gap@ == a@,
        shorter ==> gap@ == 0 && a@ < b@,
        same == (a@ == b@),
        shorter == (a@ < b@),
{
}

/// What is added can be taken away again.
pub proof fn law_sum_and_difference(a: LuaDt, b: LuaDt, sum: LuaDt, back: LuaDt)
    requires
        call_ensures(LuaDt::checked_add, (&a, &b), Some(sum)),
        call_ensures(LuaDt::sub, (&sum, &b), back),
    ensures
        back@ == a@,
{
}

/// A time is stored as the decimal digits of its nanoseconds, without a leading zero.
pub proof fn law_stored_times_read_back(t: LuaDt, s: String)
    requires
        call_ensures(LuaDt::serialize_text, (&t,), s),
    ensures
        s@.len() > 0,
        text::all_digits(s@),
        text::digits_value(s@) == t@,
        s@.len() > 1 ==> s@[0] != '0',
{
    text::law_decimal_digits(t@);
}

/// A time in seconds is a number that is off by no more than about two parts in 2^53.
pub proof fn law_seconds_of_a_time(t: LuaDt, r: Binary64)
    requires
        t@ < binary64::time_limit(),
        call_ensures(LuaDt::secs, (&t,), r),
    ensures
        t@ == 0 ==> r.bits == 0,
        t@ > 0 ==> accuracy::near_twice(
            t@ * binary64::one(),
            binary64::units(r.bits as nat) * 1_000_000_000,
        ),
{
    if t@ > 0 {
        accuracy::lemma_seconds_near(t@);
    }
}

/// The values that can be converted are all but these: a number of seconds that is not negative
/// and is 2^64 or more, or no number, and a text that is out of range.
pub proof fn law_which_values_are_convertible(raw: RawDtValue, r: bool)
    requires
        call_ensures(RawDtValue::check_convertible, (&raw,), r),
    ensures
        match raw {
            RawDtValue::F64(n) => r == (n.bits >= SIGN || n.bits < binary64::power_pattern(1138)),
            RawDtValue::String(s) => r == text_in_range(s@),
            _ => r,
        },
{
    if let RawDtValue::F64(n) = raw {
        let b = n.bits as nat;
        let o = binary64::one();
        vstd::arithmetic::power2::lemma_pow2_pos(1074);
        vstd::arithmetic::power2::lemma2_to64();
        vstd::arithmetic::power2::lemma2_to64_rest();
        vstd::arithmetic::power2::lemma_pow2_adds(64, 1074);
        binary64::lemma_power_units(1138);
        let x = binary64::units(b);
        binary64::lemma_half_even(x * 1_000_000_000, o);
        let t = binary64::nanoseconds(b);
        if b >= binary64::power_pattern(1138) {
            binary64::lemma_units_ordered(binary64::power_pattern(1138), b);
            assert(t >= binary64::time_limit()) by (nonlinear_arith)
                requires
                    2 * (x * 1_000_000_000) <= 2 * (t * o) + o,
                    x >= 0x1_0000_0000_0000_0000 * o,
                    o > 0,
                    binary64::time_limit() == 0x1_0000_0000_0000_0000 * 1_000_000_000,
            ;
        } else {
            let p = (binary64::power_pattern(1138) - 1) as nat;
            binary64::lemma_units_ordered(b, p);
            binary64::lemma_units_step(p);
            vstd::arithmetic::div_mod::lemma_fundamental_div_mod_converse(
                p as int,
                binary64::HIDDEN as int,
                1086,
                (binary64::HIDDEN - 1) as int,
            );
            vstd::arithmetic::power2::lemma_pow2_strictly_increases(1074, 1085);
            assert(binary64::units(p) + o <= 0x1_0000_0000_0000_0000 * o);
            assert(t < binary64::time_limit()) by (nonlinear_arith)
                requires
                    2 * (t * o) <= 2 * (x * 1_000_000_000) + o,
                    x + o <= 0x1_0000_0000_0000_0000 * o,
                    o > 0,
                    binary64::time_limit() == 0x1_0000_0000_0000_0000 * 1_000_000_000,
            ;
        }
    }
}

/// A power of ten.
pub open spec fn ten_to(n: nat) -> nat
    decreases n,
{
    if n == 0 {
        1
    } else {
        10 * ten_to((n - 1) as nat)
    }
}

/// What can be added up is bounded by the length of the text: no unit is longer than a year.
spec fn bounded(t: TextSum, n: nat) -> bool {
    &&& t.place == Place::Before ==> t.sum <= 31_557_600_000_000_000 * ten_to(n)
    &&& t.place == Place::Number || t.place == Place::Fraction || t.place == Place::Unit ==> t.sum
        + 31_557_600_000_000_000 * (t.number + 1) <= 31_557_600_000_000_000 * ten_to(n)
    &&& t.place == Place::Before || t.place == Place::Number ==> t.unit.len() == 0 && !t.point
        && t.fraction == 0 && t.divisor == 1
    &&& t.place == Place::Fraction || t.place == Place::Unit ==> t.divisor > 0 && t.fraction
        < t.divisor
    &&& t.place != Place::Over
}

/// A unit that ends adds no more than its number and one more.
proof fn lemma_unit_bounded(t: TextSum, n: nat)
    requires
        bounded(t, n),
        t.place == Place::Unit,
        ten_to(n) <= 100_000_000_000,
    ensures
        t.finish().place != Place::Over,
        t.finish().place == Place::Before ==> t.finish().sum <= 31_557_600_000_000_000 * ten_to(n)
            && t.finish() == before_number(t.finish().sum),
{
    if let Some(unit) = unit_nanos(t.unit) {
        assert(0 < unit <= 31_557_600_000_000_000);
        let whole = number_grain(unit);
        let part = fraction_grain(unit);
        let count = t.number * (unit / whole);
        assert(count * whole <= 31_557_600_000_000_000 * t.number) by (nonlinear_arith)
            requires
                count == t.number * (unit / whole),
                whole == 1 || whole == 1_000_000_000,
                0 < unit <= 31_557_600_000_000_000,
        ;
        let scaled = t.fraction * (unit / part);
        let parts = scaled / t.divisor;
        assert(parts * part <= 31_557_600_000_000_000) by {
            vstd::arithmetic::div_mod::lemma_fundamental_div_mod(scaled as int, t.divisor as int);
            let rem = scaled % t.divisor;
            let u = unit / part;
            let d = t.divisor;
            let f = t.fraction;
            assert(parts <= u) by (nonlinear_arith)
                requires
                    f * u == d * parts + rem,
                    f < d,
                    rem >= 0,
                    u >= 0,
                    parts >= 0,
            ;
            assert(u * part <= unit) by (nonlinear_arith)
                requires
                    u == unit / part,
                    part == 1 || part == 1_000_000_000,
            ;
            assert(parts * part <= u * part) by (nonlinear_arith)
                requires
                    parts <= u,
            ;
        }
    }
}

/// What is added up of a short text is bounded.
proof fn lemma_short_text(s: Seq<char>)
    requires
        s.len() <= 11,
    ensures
        bounded(text_sum(s), s.len()),
        ten_to(s.len()) <= 100_000_000_000,
    decreases s.len(),
{
    reveal_with_fuel(ten_to, 12);
    if s.len() > 0 {
        let less = s.drop_last();
        lemma_short_text(less);
        let n = less.len();
        let t = text_sum(less);
        assert(ten_to(s.len()) == 10 * ten_to(n));
        if t.place == Place::Unit {
            lemma_unit_bounded(t, n);
        }
        lemma_tens(n);
    }
}

/// A power of ten is at least one.
proof fn lemma_tens(n: nat)
    ensures
        ten_to(n) >= 1,
    decreases n,
{
    if n > 0 {
        lemma_tens((n - 1) as nat);
    }
}

/// Every text of no more than eleven characters is in range: it takes more of them to come to 2^64
/// seconds.
pub proof fn law_short_texts_are_in_range(s: &str, r: bool)
    requires
        s@.len() <= 11,
        call_ensures(check_text_range, (s,), r),
    ensures
        r,
{
    lemma_short_text(s@);
    if text_sum(s@).place == Place::Unit {
        lemma_unit_bounded(text_sum(s@), s@.len());
    }
}

/// For debugging, a time is shown by its readable text, in quotes.
pub proof fn law_debug_text_is_readable(t: LuaDt, readable: String, shown: String)
    requires
        call_ensures(LuaDt::to_text, (&t,), readable),
        call_ensures(LuaDt::debug_text, (&t,), shown),
    ensures
        shown@ == "LuaDt(\""@ + readable@ + "\")"@,
{
}

/// The error of a text that humantime refuses ends with humantime's reason.
pub proof fn law_time_errors_give_the_reason(e: ParseDtError, reason: &str, r: String)
    requires
        call_ensures(ParseDtError::message, (&e, reason), r),
    ensures
        e is MustBePositive ==> r@ == "value must be positive"@,
        e is InvalidFormat ==> r@ == "invalid dt format: "@ + reason@,
{
}

} // verus!
