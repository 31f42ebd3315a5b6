//! Instants, frame rates and spans, all exact.
//!
//! Nothing here is a float: an instant is a rational number of seconds, a frame rate is a
//! rational number of frames per second, and the only places where information is lost
//! are the three roundings onto a frame grid, each with its own name.

use crate::error::{Error, ErrorView};
use crate::rational::{
    abs, ceil, ceiled, floor, floored, lemma_product_positive, lemma_wide, round_half_away, rounded,
    Rat,
};
use crate::text::{dec_wide, push_char, push_dec_wide};
use vstd::prelude::*;

verus! {

/// An instant or a duration, in seconds.
#[derive(Clone, Copy, Debug, PartialEq, Eq, Structural)]
pub struct Time {
    pub secs: Rat,
}

/// A frame rate, in frames per second.
#[derive(Clone, Copy, Debug, PartialEq, Eq, Structural)]
pub struct Fps {
    pub rate: Rat,
}

/// A half-open stretch of time: `start` belongs to it, `end` does not.
#[derive(Clone, Copy, Debug, PartialEq, Eq, Structural)]
pub struct Span {
    pub start: Time,
    pub end: Time,
}

impl Fps {
    /// A rate is a positive number.
    pub open spec fn wf(self) -> bool {
        self.rate.num > 0 && self.rate.den > 0
    }

    /// The whole rate that timecode counts in: 30 for 30000/1001, and never zero.
    pub open spec fn nominal(self) -> int {
        let r = round_half_away(self.rate.num as int, self.rate.den as int);
        if r < 1 {
            1
        } else {
            r
        }
    }

    pub open spec fn text(self) -> Seq<char> {
        self.rate.text()
    }

    /// The rate that two integers are, or why they are none.
    pub open spec fn of(num: int, den: int) -> Result<Fps, ErrorView> {
        if num > 0 && den > 0 {
            Ok(Fps { rate: Rat::of(num, den) })
        } else {
            Err(ErrorView::BadArgs("a frame rate must be positive"@))
        }
    }

    /// A frame rate from two integers. It has to be positive.
    pub fn new(num: i64, den: i64) -> (r: Result<Fps, Error>)
        ensures
            r is Ok <==> num > 0 && den > 0,
            r is Ok ==> r->Ok_0 == (Fps { rate: Rat::of(num as int, den as int) }) && r->Ok_0.wf(),
            r is Err ==> r->Err_0@ == ErrorView::BadArgs("a frame rate must be positive"@),
    {
        if num <= 0 || den <= 0 {
            return Err(Error::bad_args("a frame rate must be positive"));
        }
        proof {
            lemma_small_fits(num as int, den as int);
            Rat::lemma_of(num as int, den as int);
            lemma_positive_top(num as int, den as int);
        }
        match Rat::try_of(num as i128, den as i128) {
            Some(rate) => Ok(Fps { rate }),
            None => Err(Error::bad_args("a frame rate must be positive")),
        }
    }

    /// How long one frame lasts.
    pub open spec fn spec_frame_duration(self) -> Time {
        Time { secs: Rat { num: self.rate.den, den: self.rate.num } }
    }

    pub fn frame_duration(&self) -> (r: Time)
        requires
            self.wf(),
        ensures
            r == self.spec_frame_duration(),
            r.wf(),
    {
        Time { secs: Rat { num: self.rate.den, den: self.rate.num } }
    }

    pub fn nominal_int(&self) -> (r: i128)
        requires
            self.wf(),
        ensures
            r == self.nominal(),
            r >= 1,
    {
        let r: i128 = rounded(self.rate.num as i128, self.rate.den as i128);
        if r < 1 {
            1
        } else {
            r
        }
    }

    pub fn to_text(&self) -> (r: String)
        ensures
            r@ == self.text(),
    {
        self.rate.to_text()
    }

    /// The rate as ffmpeg takes it on its command line.
    pub fn ffmpeg_arg(&self) -> (r: String)
        ensures
            r@ == self.rate.text(),
    {
        self.rate.to_text()
    }
}

/// Two 64-bit numbers reduce to two 64-bit numbers.
pub proof fn lemma_small_fits(n: int, d: int)
    requires
        -i64::MAX <= n <= i64::MAX,
        0 < d <= i64::MAX,
    ensures
        Rat::fits(n, d),
{
    let a = abs(n);
    let b = abs(d);
    let g = crate::rational::gcd(a, b);
    crate::rational::lemma_gcd_divides(a, b);
    crate::rational::lemma_exact_division(a, g);
    crate::rational::lemma_exact_division(b, g);
    assert(a / g <= a) by (nonlinear_arith)
        requires
            a == g * (a / g),
            g > 0,
    ;
    assert(b / g <= b) by (nonlinear_arith)
        requires
            b == g * (b / g),
            g > 0,
    ;
}

/// A positive number stays positive when it is reduced.
pub proof fn lemma_positive_top(n: int, d: int)
    requires
        n > 0,
        d > 0,
        Rat::fits(n, d),
    ensures
        Rat::of(n, d).num > 0,
{
    let a = abs(n);
    let b = abs(d);
    let g = crate::rational::gcd(a, b);
    crate::rational::lemma_gcd_divides(a, b);
    crate::rational::lemma_exact_division(a, g);
}

impl Time {
    pub open spec fn wf(self) -> bool {
        self.secs.wf()
    }

    pub open spec fn zero_spec() -> Time {
        Time { secs: Rat { num: 0, den: 1 } }
    }

    pub open spec fn lt(self, other: Time) -> bool {
        self.secs.spec_lt(other.secs)
    }

    pub open spec fn le(self, other: Time) -> bool {
        self.secs.spec_le(other.secs)
    }

    pub open spec fn spec_max(self, other: Time) -> Time {
        if other.lt(self) {
            self
        } else {
            other
        }
    }

    pub open spec fn spec_min(self, other: Time) -> Time {
        if other.lt(self) {
            other
        } else {
            self
        }
    }

    /// Whether the sum can be stored.
    pub open spec fn sum_fits(self, other: Time) -> bool {
        Rat::fits(
            self.secs.num * other.secs.den + other.secs.num * self.secs.den,
            self.secs.den * other.secs.den,
        )
    }

    pub open spec fn spec_plus(self, other: Time) -> Time {
        Time {
            secs: Rat::of(
                self.secs.num * other.secs.den + other.secs.num * self.secs.den,
                self.secs.den * other.secs.den,
            ),
        }
    }

    /// Whether the difference can be stored.
    pub open spec fn difference_fits(self, other: Time) -> bool {
        Rat::fits(
            self.secs.num * other.secs.den - other.secs.num * self.secs.den,
            self.secs.den * other.secs.den,
        )
    }

    pub open spec fn spec_minus(self, other: Time) -> Time {
        Time {
            secs: Rat::of(
                self.secs.num * other.secs.den - other.secs.num * self.secs.den,
                self.secs.den * other.secs.den,
            ),
        }
    }

    /// Whether the product can be stored.
    pub open spec fn product_fits(self, factor: Rat) -> bool {
        Rat::fits(self.secs.num * factor.num, self.secs.den * factor.den)
    }

    pub open spec fn spec_times(self, factor: Rat) -> Time {
        Time { secs: Rat::of(self.secs.num * factor.num, self.secs.den * factor.den) }
    }

    /// The nearest frame, halves away from zero.
    pub open spec fn round_frame(self, fps: Fps) -> int {
        round_half_away(self.secs.num * fps.rate.num, self.secs.den * fps.rate.den)
    }

    /// The frame that covers this instant.
    pub open spec fn floor_frame(self, fps: Fps) -> int {
        floor(self.secs.num * fps.rate.num, self.secs.den * fps.rate.den)
    }

    /// The first frame at or after this instant.
    pub open spec fn ceil_frame(self, fps: Fps) -> int {
        ceil(self.secs.num * fps.rate.num, self.secs.den * fps.rate.den)
    }

    /// Whether the instant of a frame can be stored.
    pub open spec fn frames_fit(frames: int, fps: Fps) -> bool {
        Rat::fits(frames * fps.rate.den, fps.rate.num as int)
    }

    pub open spec fn of_frames(frames: int, fps: Fps) -> Time {
        Time { secs: Rat::of(frames * fps.rate.den, fps.rate.num as int) }
    }

    /// Whole milliseconds, rounded.
    pub open spec fn millis(self) -> int {
        round_half_away(self.secs.num * 1000, self.secs.den as int)
    }

    /// The nearest sample at a sample rate.
    pub open spec fn round_sample(self, rate: u32) -> int {
        round_half_away(self.secs.num * rate, self.secs.den as int)
    }

    pub open spec fn text(self) -> Seq<char> {
        self.secs.text()
    }

    pub fn zero() -> (r: Time)
        ensures
            r == Time::zero_spec(),
            r.wf(),
    {
        Time { secs: Rat { num: 0, den: 1 } }
    }

    pub fn from_secs(secs: i64) -> (r: Time)
        ensures
            r == (Time { secs: Rat { num: secs, den: 1 } }),
            r.wf(),
    {
        Time { secs: Rat { num: secs, den: 1 } }
    }

    /// An instant from two integers. The denominator may not be zero.
    pub fn new(num: i64, den: i64) -> (r: Result<Time, Error>)
        ensures
            r is Ok ==> r->Ok_0.wf(),
            den > 0 && num > i64::MIN ==> r is Ok && r->Ok_0 == (Time {
                secs: Rat::of(num as int, den as int),
            }),
            den == 0 ==> r is Err && r->Err_0@ == ErrorView::BadArgs(
                "a time needs a non-zero denominator and must fit in 64 bits"@,
            ),
    {
        proof {
            if den > 0 && num > i64::MIN {
                lemma_small_fits(num as int, den as int);
            }
        }
        match Rat::new(num, den) {
            Some(secs) => Ok(Time { secs }),
            None => Err(
                Error::bad_args("a time needs a non-zero denominator and must fit in 64 bits"),
            ),
        }
    }

    pub fn is_zero(&self) -> (r: bool)
        ensures
            r == (self.secs.num == 0),
    {
        self.secs.num == 0
    }

    pub fn is_positive(&self) -> (r: bool)
        ensures
            r == (self.secs.num > 0),
    {
        self.secs.num > 0
    }

    pub fn before(&self, other: &Time) -> (r: bool)
        ensures
            r == self.lt(*other),
    {
        self.secs.before(&other.secs)
    }

    pub fn at_most(&self, other: &Time) -> (r: bool)
        ensures
            r == self.le(*other),
    {
        !other.secs.before(&self.secs)
    }

    pub fn max(self, other: Time) -> (r: Time)
        ensures
            r == self.spec_max(other),
    {
        if other.before(&self) {
            self
        } else {
            other
        }
    }

    pub fn min(self, other: Time) -> (r: Time)
        ensures
            r == self.spec_min(other),
    {
        if other.before(&self) {
            other
        } else {
            self
        }
    }

    /// The sum, where it can be stored.
    pub fn checked_plus(&self, other: &Time) -> (r: Option<Time>)
        requires
            self.wf(),
            other.wf(),
        ensures
            r == (if self.sum_fits(*other) {
                Some(self.spec_plus(*other))
            } else {
                None::<Time>
            }),
            r is Some ==> r->0.wf(),
    {
        proof {
            lemma_wide(self.secs.num as int, other.secs.den as int);
            lemma_wide(other.secs.num as int, self.secs.den as int);
            lemma_wide(self.secs.den as int, other.secs.den as int);
            lemma_product_positive(self.secs.den as int, other.secs.den as int);
            lemma_not_extreme(self.secs.num as int, other.secs.den as int);
            lemma_not_extreme(other.secs.num as int, self.secs.den as int);
        }
        let a: i128 = (self.secs.num as i128) * (other.secs.den as i128);
        let b: i128 = (other.secs.num as i128) * (self.secs.den as i128);
        let d: i128 = (self.secs.den as i128) * (other.secs.den as i128);
        match Rat::try_of(a + b, d) {
            Some(secs) => Some(Time { secs }),
            None => None,
        }
    }

    pub fn plus(&self, other: &Time) -> (r: Time)
        requires
            self.wf(),
            other.wf(),
            self.sum_fits(*other),
        ensures
            r == self.spec_plus(*other),
            r.wf(),
    {
        match self.checked_plus(other) {
            Some(sum) => sum,
            None => Time::zero(),
        }
    }

    /// The difference, where it can be stored.
    pub fn checked_minus(&self, other: &Time) -> (r: Option<Time>)
        requires
            self.wf(),
            other.wf(),
        ensures
            r == (if self.difference_fits(*other) {
                Some(self.spec_minus(*other))
            } else {
                None::<Time>
            }),
            r is Some ==> r->0.wf(),
    {
        proof {
            lemma_wide(self.secs.num as int, other.secs.den as int);
            lemma_wide(other.secs.num as int, self.secs.den as int);
            lemma_wide(self.secs.den as int, other.secs.den as int);
            lemma_product_positive(self.secs.den as int, other.secs.den as int);
            lemma_not_extreme(self.secs.num as int, other.secs.den as int);
            lemma_not_extreme(other.secs.num as int, self.secs.den as int);
        }
        let a: i128 = (self.secs.num as i128) * (other.secs.den as i128);
        let b: i128 = (other.secs.num as i128) * (self.secs.den as i128);
        let d: i128 = (self.secs.den as i128) * (other.secs.den as i128);
        match Rat::try_of(a - b, d) {
            Some(secs) => Some(Time { secs }),
            None => None,
        }
    }

    pub fn minus(&self, other: &Time) -> (r: Time)
        requires
            self.wf(),
            other.wf(),
            self.difference_fits(*other),
        ensures
            r == self.spec_minus(*other),
            r.wf(),
    {
        match self.checked_minus(other) {
            Some(difference) => difference,
            None => Time::zero(),
        }
    }

    /// The product with a rational factor, where it can be stored.
    pub fn checked_times(&self, factor: &Rat) -> (r: Option<Time>)
        requires
            self.wf(),
            factor.wf(),
        ensures
            r == (if self.product_fits(*factor) {
                Some(self.spec_times(*factor))
            } else {
                None::<Time>
            }),
            r is Some ==> r->0.wf(),
    {
        proof {
            lemma_wide(self.secs.num as int, factor.num as int);
            lemma_wide(self.secs.den as int, factor.den as int);
            lemma_product_positive(self.secs.den as int, factor.den as int);
        }
        let n: i128 = (self.secs.num as i128) * (factor.num as i128);
        let d: i128 = (self.secs.den as i128) * (factor.den as i128);
        match Rat::try_of(n, d) {
            Some(secs) => Some(Time { secs }),
            None => None,
        }
    }

    pub fn times(&self, factor: &Rat) -> (r: Time)
        requires
            self.wf(),
            factor.wf(),
            self.product_fits(*factor),
        ensures
            r == self.spec_times(*factor),
            r.wf(),
    {
        match self.checked_times(factor) {
            Some(product) => product,
            None => Time::zero(),
        }
    }

    /// The nearest frame, in a width that holds every instant at every rate.
    pub fn wide_frame_round(&self, fps: Fps) -> (r: i128)
        requires
            self.wf(),
            fps.wf(),
        ensures
            r == self.round_frame(fps),
            -0x4000_0000_0000_0000_0000_0000_0000_0000 - 1 <= r
                <= 0x4000_0000_0000_0000_0000_0000_0000_0000 + 1,
    {
        proof {
            lemma_wide(self.secs.num as int, fps.rate.num as int);
            lemma_wide(self.secs.den as int, fps.rate.den as int);
            lemma_product_positive(self.secs.den as int, fps.rate.den as int);
        }
        let n: i128 = (self.secs.num as i128) * (fps.rate.num as i128);
        let d: i128 = (self.secs.den as i128) * (fps.rate.den as i128);
        rounded(n, d)
    }

    /// The nearest frame, where a 64-bit number holds it.
    pub fn checked_frame_round(&self, fps: Fps) -> (r: Option<i64>)
        requires
            self.wf(),
            fps.wf(),
        ensures
            r == (if i64::MIN <= self.round_frame(fps) <= i64::MAX {
                Some(self.round_frame(fps) as i64)
            } else {
                None::<i64>
            }),
    {
        let f: i128 = self.wide_frame_round(fps);
        if f >= i64::MIN as i128 && f <= i64::MAX as i128 {
            Some(f as i64)
        } else {
            None
        }
    }

    pub fn frame_round(&self, fps: Fps) -> (r: i64)
        requires
            self.wf(),
            fps.wf(),
            i64::MIN <= self.round_frame(fps) <= i64::MAX,
        ensures
            r == self.round_frame(fps),
    {
        self.wide_frame_round(fps) as i64
    }

    pub fn frame_floor(&self, fps: Fps) -> (r: i64)
        requires
            self.wf(),
            fps.wf(),
            i64::MIN <= self.floor_frame(fps) <= i64::MAX,
        ensures
            r == self.floor_frame(fps),
    {
        proof {
            lemma_wide(self.secs.num as int, fps.rate.num as int);
            lemma_wide(self.secs.den as int, fps.rate.den as int);
            lemma_product_positive(self.secs.den as int, fps.rate.den as int);
        }
        let n: i128 = (self.secs.num as i128) * (fps.rate.num as i128);
        let d: i128 = (self.secs.den as i128) * (fps.rate.den as i128);
        floored(n, d) as i64
    }

    /// The frame that covers this instant, where a 64-bit number holds it.
    pub fn checked_frame_floor(&self, fps: Fps) -> (r: Option<i64>)
        requires
            self.wf(),
            fps.wf(),
        ensures
            r == (if i64::MIN <= self.floor_frame(fps) <= i64::MAX {
                Some(self.floor_frame(fps) as i64)
            } else {
                None::<i64>
            }),
    {
        proof {
            lemma_wide(self.secs.num as int, fps.rate.num as int);
            lemma_wide(self.secs.den as int, fps.rate.den as int);
            lemma_product_positive(self.secs.den as int, fps.rate.den as int);
        }
        let n: i128 = (self.secs.num as i128) * (fps.rate.num as i128);
        let d: i128 = (self.secs.den as i128) * (fps.rate.den as i128);
        let f: i128 = floored(n, d);
        if f >= i64::MIN as i128 && f <= i64::MAX as i128 {
            Some(f as i64)
        } else {
            None
        }
    }

    pub fn frame_ceil(&self, fps: Fps) -> (r: i64)
        requires
            self.wf(),
            fps.wf(),
            i64::MIN <= self.ceil_frame(fps) <= i64::MAX,
        ensures
            r == self.ceil_frame(fps),
    {
        proof {
            lemma_wide(self.secs.num as int, fps.rate.num as int);
            lemma_wide(self.secs.den as int, fps.rate.den as int);
            lemma_product_positive(self.secs.den as int, fps.rate.den as int);
        }
        let n: i128 = (self.secs.num as i128) * (fps.rate.num as i128);
        let d: i128 = (self.secs.den as i128) * (fps.rate.den as i128);
        ceiled(n, d) as i64
    }

    /// The nearest sample at `rate` samples per second.
    pub fn sample_round(&self, rate: u32) -> (r: i64)
        requires
            self.wf(),
            i64::MIN <= self.round_sample(rate) <= i64::MAX,
        ensures
            r == self.round_sample(rate),
    {
        proof {
            lemma_wide(self.secs.num as int, rate as int);
        }
        let n: i128 = (self.secs.num as i128) * (rate as i128);
        rounded(n, self.secs.den as i128) as i64
    }

    /// The instant at which a frame starts, where it can be stored.
    pub fn checked_from_frames(frames: i64, fps: Fps) -> (r: Option<Time>)
        requires
            fps.wf(),
        ensures
            r == (if Time::frames_fit(frames as int, fps) {
                Some(Time::of_frames(frames as int, fps))
            } else {
                None::<Time>
            }),
            r is Some ==> r->0.wf(),
    {
        proof {
            lemma_wide(frames as int, fps.rate.den as int);
        }
        let n: i128 = (frames as i128) * (fps.rate.den as i128);
        match Rat::try_of(n, fps.rate.num as i128) {
            Some(secs) => Some(Time { secs }),
            None => None,
        }
    }

    /// The instant at which a frame starts.
    pub fn from_frames(frames: i64, fps: Fps) -> (r: Time)
        requires
            fps.wf(),
            Time::frames_fit(frames as int, fps),
        ensures
            r == Time::of_frames(frames as int, fps),
            r.wf(),
    {
        match Time::checked_from_frames(frames, fps) {
            Some(time) => time,
            None => Time::zero(),
        }
    }

    /// Whether the nearest frame has an instant that can be stored.
    pub open spec fn snap_fits(self, fps: Fps) -> bool {
        i64::MIN <= self.round_frame(fps) <= i64::MAX && Time::frames_fit(
            self.round_frame(fps),
            fps,
        )
    }

    /// The instant of the nearest frame.
    pub open spec fn spec_snap(self, fps: Fps) -> Time {
        Time::of_frames(self.round_frame(fps), fps)
    }

    pub fn checked_snap(&self, fps: Fps) -> (r: Option<Time>)
        requires
            self.wf(),
            fps.wf(),
        ensures
            r is Some <==> self.snap_fits(fps),
            r is Some ==> r->0 == self.spec_snap(fps) && r->0.wf(),
    {
        match self.checked_frame_round(fps) {
            Some(frame) => Time::checked_from_frames(frame, fps),
            None => None,
        }
    }

    /// Whether two instants are the same number.
    pub open spec fn equals(self, other: Time) -> bool {
        !self.lt(other) && !other.lt(self)
    }

    pub fn is_at(&self, other: &Time) -> (r: bool)
        ensures
            r == self.equals(*other),
    {
        !self.before(other) && !other.before(self)
    }

    /// `num/den`, in lowest terms.
    pub fn to_text(&self) -> (r: String)
        ensures
            r@ == self.text(),
    {
        self.secs.to_text()
    }

    /// `HH:MM:SS.mmm`, rounded to the millisecond.
    pub open spec fn clock_text(self) -> Seq<char> {
        clock_text(self.millis())
    }

    pub fn clock(&self) -> (r: String)
        requires
            self.wf(),
        ensures
            r@ == self.clock_text(),
    {
        proof {
            lemma_wide(self.secs.num as int, 1000);
        }
        let ms: i128 = rounded((self.secs.num as i128) * 1000, self.secs.den as i128);
        let mut out = String::new();
        let whole: u128 = if ms < 0 {
            push_char(&mut out, '-');
            (-ms) as u128
        } else {
            ms as u128
        };
        push_dec_wide(&mut out, whole / 3_600_000, 2);
        push_char(&mut out, ':');
        push_dec_wide(&mut out, whole / 60_000 % 60, 2);
        push_char(&mut out, ':');
        push_dec_wide(&mut out, whole / 1000 % 60, 2);
        push_char(&mut out, '.');
        push_dec_wide(&mut out, whole % 1000, 3);
        assert(out@ =~= self.clock_text());
        out
    }

    /// `HH:MM:SS:FF`, non-drop: frames counted at the nominal rate.
    pub open spec fn timecode_text(self, fps: Fps) -> Seq<char> {
        timecode_text(self.round_frame(fps), fps.nominal())
    }

    pub fn timecode(&self, fps: Fps) -> (r: String)
        requires
            self.wf(),
            fps.wf(),
        ensures
            r@ == self.timecode_text(fps),
    {
        Time::frame_timecode(self.wide_frame_round(fps), fps)
    }

    /// `HH:MM:SS:FF` of a frame number.
    pub fn frame_timecode(frame: i128, fps: Fps) -> (r: String)
        requires
            frame > i128::MIN,
            fps.wf(),
        ensures
            r@ == timecode_text(frame as int, fps.nominal()),
    {
        let base: u128 = fps.nominal_int() as u128;
        let mut out = String::new();
        let whole: u128 = if frame < 0 {
            push_char(&mut out, '-');
            (-frame) as u128
        } else {
            frame as u128
        };
        let secs: u128 = whole / base;
        push_dec_wide(&mut out, secs / 3600, 2);
        push_char(&mut out, ':');
        push_dec_wide(&mut out, secs / 60 % 60, 2);
        push_char(&mut out, ':');
        push_dec_wide(&mut out, secs % 60, 2);
        push_char(&mut out, ':');
        push_dec_wide(&mut out, whole % base, 2);
        assert(out@ =~= timecode_text(frame as int, fps.nominal()));
        out
    }
}

/// The frame that an instant on the grid is nearest to is the one it was made from.
pub proof fn law_frames_come_back(frame: int, fps: Fps)
    requires
        fps.wf(),
        Time::frames_fit(frame, fps),
    ensures
        Time::of_frames(frame, fps).round_frame(fps) == frame,
{
    let top = fps.rate.num as int;
    let bottom = fps.rate.den as int;
    Rat::lemma_of(frame * bottom, top);
    let secs = Time::of_frames(frame, fps).secs;
    let num = secs.num as int;
    let den = secs.den as int;
    assert(num * top == frame * bottom * den);
    let d = den * bottom;
    assert(d > 0) by (nonlinear_arith)
        requires
            den > 0,
            bottom > 0,
            d == den * bottom,
    ;
    assert(num * top == frame * d) by (nonlinear_arith)
        requires
            num * top == frame * bottom * den,
            d == den * bottom,
    ;
    let a = abs(frame * d) as int;
    let f = abs(frame) as int;
    assert(a == d * f + 0) by (nonlinear_arith)
        requires
            a == (if frame * d < 0 {
                -(frame * d)
            } else {
                frame * d
            }),
            f == (if frame < 0 {
                -frame
            } else {
                frame
            }),
            d > 0,
    ;
    assert(2 * a + d == (2 * d) * f + d) by (nonlinear_arith)
        requires
            a == d * f + 0,
    ;
    vstd::arithmetic::div_mod::lemma_fundamental_div_mod_converse(2 * a + d, 2 * d, f, d);
    assert(frame * d < 0 <==> frame < 0) by (nonlinear_arith)
        requires
            d > 0,
    ;
}

proof fn lemma_not_extreme(n: int, d: int)
    requires
        i64::MIN <= n <= i64::MAX,
        0 < d <= i64::MAX,
    ensures
        -0x4000_0000_0000_0000_0000_0000_0000_0000 < n * d
            < 0x4000_0000_0000_0000_0000_0000_0000_0000,
{
    assert(-0x4000_0000_0000_0000_0000_0000_0000_0000 < n * d
        < 0x4000_0000_0000_0000_0000_0000_0000_0000) by (nonlinear_arith)
        requires
            -0x8000_0000_0000_0000 <= n <= 0x7fff_ffff_ffff_ffff,
            0 < d <= 0x7fff_ffff_ffff_ffff,
    ;
}

/// `HH:MM:SS.mmm` of a number of milliseconds.
pub open spec fn clock_text(ms: int) -> Seq<char> {
    let m = abs(ms);
    let sign = if ms < 0 {
        seq!['-']
    } else {
        seq![]
    };
    sign + dec_wide(m / 3_600_000, 2) + seq![':'] + dec_wide(m / 60_000 % 60, 2) + seq![':']
        + dec_wide(m / 1000 % 60, 2) + seq!['.'] + dec_wide(m % 1000, 3)
}

/// `HH:MM:SS:FF` of a frame number, counting `base` frames to the second.
pub open spec fn timecode_text(frame: int, base: int) -> Seq<char> {
    let f = abs(frame);
    let secs = f / base as nat;
    let sign = if frame < 0 {
        seq!['-']
    } else {
        seq![]
    };
    sign + dec_wide(secs / 3600, 2) + seq![':'] + dec_wide(secs / 60 % 60, 2) + seq![':']
        + dec_wide(secs % 60, 2) + seq![':'] + dec_wide(f % base as nat, 2)
}

} // verus!
