//! Instants and lengths of time, as whole seconds and nanoseconds.

use vstd::prelude::*;

verus! {

/// The first second that a [`Timestamp`] can hold: the start of the year 0.
pub const MIN_SECONDS: i64 = -62_167_219_200;

/// The last second that a [`Timestamp`] can hold: the end of the year 9999.
pub const MAX_SECONDS: i64 = 253_402_300_799;

/// The nanoseconds in one second.
pub const NANOS_PER_SECOND: u32 = 1_000_000_000;

/// The nanoseconds between the first and the last instant that a [`Timestamp`]
/// can hold.
pub open spec fn last_offset() -> int {
    (MAX_SECONDS - MIN_SECONDS) * NANOS_PER_SECOND + NANOS_PER_SECOND - 1
}

/// An instant in UTC, to the nanosecond, between the start of the year 0 and the
/// end of the year 9999. In this range the year of an instant is written with
/// four digits, which is what lets the texts of instants sort as the instants
/// do.
#[derive(Clone, Copy, Debug)]
pub struct Timestamp {
    secs: i64,
    nanos: u32,
}

/// A length of time, to the nanosecond: `secs` whole seconds, which may be
/// negative, and `nanos` nanoseconds on top of them.
#[derive(Clone, Copy, Debug)]
pub struct Duration {
    secs: i64,
    nanos: u32,
}

/// The text of the instant `secs` seconds and `nanos` nanoseconds after the start
/// of 1970, as chrono writes a `DateTime<Utc>`.
pub uninterp spec fn instant_text(secs: i64, nanos: u32) -> Seq<u8>;

/// `chrono::Utc::now`, as seconds since the start of 1970 and nanoseconds within
/// the second. Nothing is known of the clock.
#[verifier::external_body]
fn utc_now() -> (r: (i64, u32)) {
    let now = chrono::Utc::now();
    (now.timestamp(), now.timestamp_subsec_nanos())
}

/// `chrono::DateTime::<Utc>::from_timestamp` and then `to_string`, as bytes. The
/// instants that `requires` admits lie inside the years that chrono can hold, so
/// the first call gives a value; the text depends on the instant alone.
#[verifier::external_body]
fn utc_text(secs: i64, nanos: u32) -> (r: Vec<u8>)
    requires
        MIN_SECONDS <= secs <= MAX_SECONDS,
        nanos < NANOS_PER_SECOND,
    ensures
        r@ == instant_text(secs, nanos),
{
    chrono::DateTime::from_timestamp(secs, nanos).unwrap_or_default().to_string().into_bytes()
}

/// `sum` is the instant `by_secs` seconds and `by_nanos` nanoseconds after the
/// instant at `secs` and `nanos`.
pub open spec fn is_sum(sum: (i64, u32), secs: i64, nanos: u32, by_secs: i64, by_nanos: u32) -> bool {
    &&& sum.1 < NANOS_PER_SECOND
    &&& sum.0 * NANOS_PER_SECOND + sum.1 == (secs + by_secs) * NANOS_PER_SECOND + nanos + by_nanos
}

/// The instant `by_secs` seconds and `by_nanos` nanoseconds after the instant at
/// `secs` and `nanos` is one that a [`Timestamp`] can hold.
pub open spec fn sum_in_reach(secs: i64, nanos: u32, by_secs: i64, by_nanos: u32) -> bool {
    MIN_SECONDS * NANOS_PER_SECOND <= (secs + by_secs) * NANOS_PER_SECOND + nanos + by_nanos < (
    MAX_SECONDS + 1) * NANOS_PER_SECOND
}

/// `chrono::DateTime::<Utc>::checked_add_signed`, on the instant that
/// `from_timestamp` makes of `secs` and `nanos` and the length that
/// `chrono::TimeDelta::new` makes of `by_secs` and `by_nanos`. What comes back is
/// the sum, to the nanosecond. It comes back wherever the sum lies between the
/// years 0 and 9999: these lie inside the years that chrono can hold, and a
/// length that leads from one such instant to another is one that chrono can
/// hold. Of other sums the contract does not say whether they come back.
#[verifier::external_body]
fn utc_plus(secs: i64, nanos: u32, by_secs: i64, by_nanos: u32) -> (r: Option<(i64, u32)>)
    requires
        MIN_SECONDS <= secs <= MAX_SECONDS,
        nanos < NANOS_PER_SECOND,
        by_nanos < NANOS_PER_SECOND,
    ensures
        r matches Some(sum) ==> is_sum(sum, secs, nanos, by_secs, by_nanos),
        sum_in_reach(secs, nanos, by_secs, by_nanos) ==> r is Some,
{
    let start = chrono::DateTime::from_timestamp(secs, nanos)?;
    let length = chrono::TimeDelta::new(by_secs, by_nanos)?;
    let end = start.checked_add_signed(length)?;
    Some((end.timestamp(), end.timestamp_subsec_nanos()))
}

impl Timestamp {
    /// Whole seconds since the start of 1970.
    pub closed spec fn secs(self) -> i64 {
        self.secs
    }

    /// Nanoseconds within the second.
    pub closed spec fn nanos(self) -> u32 {
        self.nanos
    }

    /// The instant lies between the start of the year 0 and the end of the year
    /// 9999. Every `Timestamp` that a program holds is valid.
    #[verifier::type_invariant]
    pub open spec fn is_valid(self) -> bool {
        MIN_SECONDS <= self.secs() <= MAX_SECONDS && self.nanos() < NANOS_PER_SECOND
    }

    /// Nanoseconds since the first instant that a `Timestamp` can hold.
    pub open spec fn offset(self) -> int {
        (self.secs() - MIN_SECONDS) * NANOS_PER_SECOND + self.nanos()
    }

    /// The instant `offset` nanoseconds after the first one, or the nearest one
    /// that a `Timestamp` can hold.
    pub closed spec fn at_offset(offset: int) -> Timestamp {
        let bounded = if offset < 0 {
            0
        } else if offset > last_offset() {
            last_offset()
        } else {
            offset
        };
        Timestamp {
            secs: (MIN_SECONDS + bounded / (NANOS_PER_SECOND as int)) as i64,
            nanos: (bounded % (NANOS_PER_SECOND as int)) as u32,
        }
    }

    /// The instant at `secs` and `nanos`, or the nearest one that a `Timestamp`
    /// can hold.
    pub open spec fn nearest(secs: i64, nanos: u32) -> Timestamp {
        Self::at_offset(
            (secs - MIN_SECONDS) * NANOS_PER_SECOND + if nanos < NANOS_PER_SECOND {
                nanos as int
            } else {
                NANOS_PER_SECOND - 1
            },
        )
    }

    /// The text under which the instant is filed: its key among the expiry times.
    pub open spec fn text(self) -> Seq<u8> {
        instant_text(self.secs(), self.nanos())
    }

    /// `self` is earlier than `other`.
    pub open spec fn before(self, other: Timestamp) -> bool {
        self.offset() < other.offset()
    }

    /// `self` moved by `length`, or the nearest instant that a `Timestamp` can
    /// hold.
    pub open spec fn shifted(self, length: Duration) -> Timestamp {
        Self::at_offset(self.offset() + length.total())
    }

    /// An instant is found again from its offset.
    pub proof fn lemma_at_offset(self)
        requires
            self.is_valid(),
        ensures
            Self::at_offset(self.offset()) == self,
            0 <= self.offset() <= last_offset(),
    {
        let n = NANOS_PER_SECOND as int;
        let s = self.secs - MIN_SECONDS;
        assert(0 <= s * n) by (nonlinear_arith)
            requires
                0 <= s,
                n == 1_000_000_000,
        ;
        assert(s * n <= (MAX_SECONDS - MIN_SECONDS) * n) by (nonlinear_arith)
            requires
                s <= MAX_SECONDS - MIN_SECONDS,
                n == 1_000_000_000,
        ;
        assert((s * n + self.nanos) / n == s && (s * n + self.nanos) % n == self.nanos) by (nonlinear_arith)
            requires
                0 <= self.nanos < n,
                n == 1_000_000_000,
        ;
    }

    /// Every offset gives a valid instant, and one in range gives the instant at
    /// that offset.
    pub proof fn lemma_at_offset_valid(offset: int)
        ensures
            Self::at_offset(offset).is_valid(),
            0 <= offset <= last_offset() ==> Self::at_offset(offset).offset() == offset,
    {
        let n = NANOS_PER_SECOND as int;
        let bounded = if offset < 0 {
            0
        } else if offset > last_offset() {
            last_offset()
        } else {
            offset
        };
        assert(0 <= bounded / n <= MAX_SECONDS - MIN_SECONDS && 0 <= bounded % n < n && (bounded / n)
            * n + bounded % n == bounded) by (nonlinear_arith)
            requires
                0 <= bounded <= (MAX_SECONDS - MIN_SECONDS) * n + n - 1,
                n == 1_000_000_000,
        ;
    }

    /// The instant at `secs` seconds since the start of 1970 and `nanos`
    /// nanoseconds, or the nearest one that a `Timestamp` can hold.
    pub fn new(secs: i64, nanos: u32) -> (r: Timestamp)
        ensures
            r == Self::nearest(secs, nanos),
            r.is_valid(),
            MIN_SECONDS <= secs <= MAX_SECONDS && nanos < NANOS_PER_SECOND ==> r.secs() == secs
                && r.nanos() == nanos,
    {
        let within: u32 = if nanos < NANOS_PER_SECOND {
            nanos
        } else {
            NANOS_PER_SECOND - 1
        };
        let offset: i128 = (secs as i128 + 62_167_219_200) * 1_000_000_000 + within as i128;
        let r = Self::from_offset(offset);
        proof {
            if MIN_SECONDS <= secs <= MAX_SECONDS && nanos < NANOS_PER_SECOND {
                let t = Timestamp { secs, nanos };
                t.lemma_at_offset();
            }
        }
        r
    }

    fn from_offset(offset: i128) -> (r: Timestamp)
        ensures
            r == Self::at_offset(offset as int),
            r.is_valid(),
    {
        let last: i128 = 315_569_519_999_999_999_999;
        assert(last == last_offset());
        let bounded: u128 = if offset < 0 {
            0
        } else if offset > last {
            last as u128
        } else {
            offset as u128
        };
        proof {
            Self::lemma_at_offset_valid(offset as int);
        }
        let whole: u128 = bounded / 1_000_000_000;
        let rest: u128 = bounded % 1_000_000_000;
        Timestamp { secs: (whole as i128 - 62_167_219_200) as i64, nanos: rest as u32 }
    }

    /// The time on the clock, in UTC.
    pub fn now() -> (r: Timestamp)
        ensures
            r.is_valid(),
    {
        let (secs, nanos) = utc_now();
        Timestamp::new(secs, nanos)
    }

    /// Whole seconds since the start of 1970.
    pub fn seconds(&self) -> (r: i64)
        ensures
            r == self.secs(),
    {
        self.secs
    }

    /// Nanoseconds within the second.
    pub fn subsec_nanos(&self) -> (r: u32)
        ensures
            r == self.nanos(),
    {
        self.nanos
    }

    /// `self` moved by `length`: later for a positive length, earlier for a
    /// negative one, and never beyond the first or the last instant.
    pub fn plus(&self, length: &Duration) -> (r: Timestamp)
        ensures
            r == self.shifted(*length),
            r.is_valid(),
    {
        proof {
            use_type_invariant(self);
            use_type_invariant(length);
        }
        match utc_plus(self.secs, self.nanos, length.secs, length.nanos) {
            Some((secs, nanos)) => Timestamp::new(secs, nanos),
            None => {
                if length.secs < 0 {
                    Self::from_offset(-1)
                } else {
                    Self::from_offset(315_569_520_000_000_000_000)
                }
            },
        }
    }

    /// Whether `self` is earlier than `other`.
    pub fn is_before(&self, other: &Timestamp) -> (r: bool)
        ensures
            r == self.before(*other),
    {
        proof {
            use_type_invariant(self);
            use_type_invariant(other);
            let n = NANOS_PER_SECOND as int;
            let a = self.secs - MIN_SECONDS;
            let b = other.secs - MIN_SECONDS;
            assert(a < b ==> a * n + n <= b * n) by (nonlinear_arith)
                requires
                    n == 1_000_000_000,
            ;
            assert(b < a ==> b * n + n <= a * n) by (nonlinear_arith)
                requires
                    n == 1_000_000_000,
            ;
        }
        self.secs < other.secs || (self.secs == other.secs && self.nanos < other.nanos)
    }

    /// The text under which the instant is filed, as bytes.
    pub fn to_text(&self) -> (r: Vec<u8>)
        ensures
            r@ == self.text(),
    {
        proof {
            use_type_invariant(self);
        }
        utc_text(self.secs, self.nanos)
    }
}

impl View for Timestamp {
    type V = Timestamp;

    open spec fn view(&self) -> Timestamp {
        *self
    }
}

impl Duration {
    /// The nanoseconds stay below one second. Every `Duration` that a program
    /// holds is valid.
    #[verifier::type_invariant]
    pub open spec fn is_valid(self) -> bool {
        self.nanos() < NANOS_PER_SECOND
    }

    /// Whole seconds.
    pub closed spec fn secs(self) -> i64 {
        self.secs
    }

    /// Nanoseconds on top of the whole seconds.
    pub closed spec fn nanos(self) -> u32 {
        self.nanos
    }

    /// The length in nanoseconds.
    pub open spec fn total(self) -> int {
        self.secs() * NANOS_PER_SECOND + self.nanos()
    }

    /// A length of `secs` seconds and `nanos` nanoseconds; nanoseconds beyond one
    /// second are cut to the last nanosecond of it.
    pub fn new(secs: i64, nanos: u32) -> (r: Duration)
        ensures
            r.secs() == secs,
            r.nanos() == if nanos < NANOS_PER_SECOND {
                nanos
            } else {
                (NANOS_PER_SECOND - 1) as u32
            },
    {
        Duration {
            secs,
            nanos: if nanos < NANOS_PER_SECOND {
                nanos
            } else {
                NANOS_PER_SECOND - 1
            },
        }
    }

    /// No time at all.
    pub fn zero() -> (r: Duration)
        ensures
            r.total() == 0,
    {
        Duration { secs: 0, nanos: 0 }
    }

    /// A length of `secs` seconds.
    pub fn seconds(secs: i64) -> (r: Duration)
        ensures
            r.total() == secs * NANOS_PER_SECOND,
    {
        Duration { secs, nanos: 0 }
    }

    /// A length of `hours` hours.
    pub fn hours(hours: i32) -> (r: Duration)
        ensures
            r.total() == hours * 3600 * NANOS_PER_SECOND,
    {
        Duration { secs: hours as i64 * 3600, nanos: 0 }
    }

    /// Whole seconds.
    pub fn whole_seconds(&self) -> (r: i64)
        ensures
            r == self.secs(),
    {
        self.secs
    }

    /// Nanoseconds on top of the whole seconds.
    pub fn subsec_nanos(&self) -> (r: u32)
        ensures
            r == self.nanos(),
    {
        self.nanos
    }
}

} // verus!
