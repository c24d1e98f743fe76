//! Instants in time.

use vstd::prelude::*;

verus! {

/// The first representable second: the start of the year -262143.
pub const MIN_SECS: i64 = -8334601228800;

/// The last representable second: the end of the year 262142.
pub const MAX_SECS: i64 = 8210266876799;

/// Nanoseconds in a second.
pub const NANOS_PER_SEC: u32 = 1000000000;

/// An instant in UTC, to the nanosecond. Its view is the number of nanoseconds since the
/// start of 1970.
#[derive(Debug, Clone, Copy, PartialEq, Eq, PartialOrd, Ord, Hash)]
pub struct Timestamp {
    secs: i64,
    nanos: u32,
}

impl View for Timestamp {
    type V = int;

    closed spec fn view(&self) -> int {
        self.secs * NANOS_PER_SEC + self.nanos
    }
}

/// The first and the last instant, in nanoseconds.
pub open spec fn time_in_range(t: int) -> bool {
    MIN_SECS * NANOS_PER_SEC <= t < (MAX_SECS + 1) * NANOS_PER_SEC
}

/// The whole second that an instant falls in.
pub open spec fn second_of(t: int) -> int {
    t / (NANOS_PER_SEC as int)
}

/// An instant `s` seconds later, or the last instant where that is out of range.
pub open spec fn later_by(t: int, s: int) -> int {
    if time_in_range(t + s * NANOS_PER_SEC) {
        t + s * NANOS_PER_SEC
    } else {
        (MAX_SECS + 1) * NANOS_PER_SEC - 1
    }
}

/// The RFC 3339 text of an instant.
pub uninterp spec fn rfc3339_text(t: int) -> Seq<char>;

/// The instant's second as `YYYY-MM-DDTHH:MM:SSZ`.
pub uninterp spec fn date_text(second: int) -> Seq<char>;

impl Timestamp {
    #[verifier::type_invariant]
    spec fn inv(self) -> bool {
        MIN_SECS <= self.secs <= MAX_SECS && self.nanos < NANOS_PER_SEC
    }

    /// `Utc::now`: the current instant. Nothing is said of it: it is read anew at each call.
    #[verifier::external_body]
    pub(crate) fn now() -> (r: Timestamp)
    {
        let n = chrono::Utc::now();
        Timestamp { secs: n.timestamp(), nanos: n.timestamp_subsec_nanos() }
    }

    /// The instant at a number of seconds since the start of 1970 and a number of
    /// nanoseconds below a full second, where it is representable.
    pub fn from_unix(secs: i64, nanos: u32) -> (r: Option<Timestamp>)
        ensures
            r is Some == (MIN_SECS <= secs <= MAX_SECS && nanos < NANOS_PER_SEC),
            r is Some ==> r->0@ == secs * NANOS_PER_SEC + nanos,
    {
        if MIN_SECS <= secs && secs <= MAX_SECS && nanos < NANOS_PER_SEC {
            Some(Timestamp { secs, nanos })
        } else {
            None
        }
    }

    /// Seconds since the start of 1970, rounded down.
    pub fn timestamp(&self) -> (r: i64)
        ensures
            r == second_of(self@),
            time_in_range(self@),
    {
        proof {
            use_type_invariant(self);
            lemma_parts(self.secs as int, self.nanos as int);
        }
        self.secs
    }

    /// Nanoseconds into the second.
    pub fn subsec_nanos(&self) -> (r: u32)
        ensures
            r == self@ % (NANOS_PER_SEC as int),
            time_in_range(self@),
    {
        proof {
            use_type_invariant(self);
            lemma_parts(self.secs as int, self.nanos as int);
        }
        self.nanos
    }

    /// Whether this instant comes after another.
    pub fn is_after(&self, other: &Timestamp) -> (r: bool)
        ensures
            r == (self@ > other@),
    {
        proof {
            use_type_invariant(self);
            use_type_invariant(other);
        }
        self.secs > other.secs || (self.secs == other.secs && self.nanos > other.nanos)
    }

    /// The earlier of two instants.
    pub fn earlier(self, other: Timestamp) -> (r: Timestamp)
        ensures
            r@ == if self@ <= other@ {
                self@
            } else {
                other@
            },
            r == self || r == other,
    {
        if self.is_after(&other) {
            other
        } else {
            self
        }
    }

    /// The instant `s` seconds later, or the last instant where that is out of range.
    pub fn plus_secs(self, s: u64) -> (r: Timestamp)
        ensures
            r@ == later_by(self@, s as int),
    {
        proof {
            use_type_invariant(&self);
        }
        if s <= 16544868105599 && self.secs + s as i64 <= MAX_SECS {
            let t = Timestamp { secs: self.secs + s as i64, nanos: self.nanos };
            assert(t@ == self@ + s * NANOS_PER_SEC) by (nonlinear_arith)
                requires
                    t@ == (self.secs + s) * NANOS_PER_SEC + self.nanos,
                    self@ == self.secs * NANOS_PER_SEC + self.nanos,
            ;
            t
        } else {
            Timestamp { secs: MAX_SECS, nanos: 999999999 }
        }
    }

    /// Whole seconds from an earlier instant to this one.
    pub fn seconds_since(&self, earlier: &Timestamp) -> (r: i64)
        requires
            self@ >= earlier@,
        ensures
            r == (self@ - earlier@) / (NANOS_PER_SEC as int),
    {
        proof {
            use_type_invariant(self);
            use_type_invariant(earlier);
            lemma_parts(self.secs as int, self.nanos as int);
        }
        let whole: i64 = self.secs - earlier.secs;
        if self.nanos >= earlier.nanos {
            proof {
                lemma_parts(whole as int, self.nanos - earlier.nanos);
                assert(self@ - earlier@ == whole * NANOS_PER_SEC + (self.nanos - earlier.nanos));
            }
            whole
        } else {
            proof {
                lemma_parts(whole - 1, NANOS_PER_SEC + self.nanos - earlier.nanos);
                assert(self@ - earlier@ == (whole - 1) * NANOS_PER_SEC + (NANOS_PER_SEC
                    + self.nanos - earlier.nanos));
            }
            whole - 1
        }
    }

    /// `DateTime::to_rfc3339`: the RFC 3339 text of the instant, a function of it.
    #[verifier::external_body]
    pub(crate) fn to_rfc3339(&self) -> (r: String)
        ensures
            r@ == rfc3339_text(self@),
    {
        chrono::DateTime::from_timestamp(self.secs, self.nanos).unwrap_or_default().to_rfc3339()
    }

    /// The text of the second that the instant falls in.
    pub(crate) fn date_literal(&self) -> (r: String)
        ensures
            r@ == date_text(second_of(self@)),
            MIN_SECS <= second_of(self@) <= MAX_SECS,
    {
        proof {
            use_type_invariant(self);
            lemma_parts(self.secs as int, self.nanos as int);
        }
        second_literal(self.secs)
    }
}

/// `DateTime::format` with `%Y-%m-%dT%H:%M:%SZ`: the text of a second, a function of it.
#[verifier::external_body]
fn second_literal(secs: i64) -> (r: String)
    requires
        MIN_SECS <= secs <= MAX_SECS,
    ensures
        r@ == date_text(secs as int),
{
    chrono::DateTime::from_timestamp(secs, 0).unwrap_or_default().format(
        "%Y-%m-%dT%H:%M:%SZ",
    ).to_string()
}

proof fn lemma_parts(secs: int, nanos: int)
    requires
        0 <= nanos < NANOS_PER_SEC,
    ensures
        (secs * NANOS_PER_SEC + nanos) / (NANOS_PER_SEC as int) == secs,
        (secs * NANOS_PER_SEC + nanos) % (NANOS_PER_SEC as int) == nanos,
{
}

/// A later instant is later by exactly so many seconds while it is in range, and the last one beyond;
/// it is never earlier, and more seconds never give an earlier one.
pub proof fn a_later_instant_is_later_by_its_seconds(t: int, s: int, more: int)
    requires
        time_in_range(t),
        0 <= s <= more,
    ensures
        time_in_range(t + s * NANOS_PER_SEC) ==> later_by(t, s) == t + s * NANOS_PER_SEC,
        t <= later_by(t, s) <= later_by(t, more),
        time_in_range(later_by(t, s)),
{
    assert(s * NANOS_PER_SEC <= more * NANOS_PER_SEC) by (nonlinear_arith)
        requires
            0 <= s <= more,
    ;
    assert(0 <= s * NANOS_PER_SEC) by (nonlinear_arith)
        requires
            0 <= s,
    ;
}

/// The second of an instant is the whole one that it falls in.
pub proof fn an_instant_falls_in_its_second(t: int)
    ensures
        second_of(t) * NANOS_PER_SEC <= t < (second_of(t) + 1) * NANOS_PER_SEC,
{
    let per = NANOS_PER_SEC as int;
    assert(per * (t / per) + t % per == t && 0 <= t % per < per) by (nonlinear_arith)
        requires
            per == 1000000000,
    ;
}

} // verus!
