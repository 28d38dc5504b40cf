//! An inclusive calendar date range.
//!
//! [`Range`] holds two proleptic Gregorian dates, normalized at construction
//! so that `start <= end` always holds, and answers simple containment and
//! boundary queries. Dates cross the API boundary as canonical `YYYY-MM-DD`
//! strings; a string that does not name a valid calendar date is reported as
//! an [`InvalidDateFormat`] error naming the offending argument.

use vstd::prelude::*;

pub mod date;

verus! {

use crate::date::Date;
use crate::date::lex_le;
use crate::date::lemma_day_number_reflects_order;
use crate::date::lemma_render_parse_round_trip;
use crate::date::lemma_render_reflects_order;
use crate::date::parse_date;
use crate::date::render_date;
use crate::date::spec_parse;
use crate::date::spec_render;

/// The earlier of two dates; the first when they are equal.
pub open spec fn earlier_of(a: Date, b: Date) -> Date {
    if a.le(b) {
        a
    } else {
        b
    }
}

/// The later of two dates; the second when they are equal.
pub open spec fn later_of(a: Date, b: Date) -> Date {
    if a.le(b) {
        b
    } else {
        a
    }
}

/// The single error kind: a supplied string does not parse as a valid
/// `YYYY-MM-DD` Gregorian date. The variant names which argument was at
/// fault: the first or second date given to [`Range::new`], or the one date
/// given to a query.
#[derive(Clone, Copy, PartialEq, Eq, Structural, Debug)]
pub enum InvalidDateFormat {
    FirstDate,
    SecondDate,
    QueryDate,
}

/// An inclusive range of calendar dates: both `start` and `end` belong to it.
#[derive(Debug)]
pub struct Range {
    start: Date,
    end: Date,
}

impl Range {
    /// The range's first date.
    pub closed spec fn spec_start(self) -> Date {
        self.start
    }

    /// The range's last date.
    pub closed spec fn spec_end(self) -> Date {
        self.end
    }

    /// Invariant of every constructed range: both dates are well-formed and
    /// the start does not come after the end.
    #[verifier::type_invariant]
    pub open spec fn wf(self) -> bool {
        &&& self.spec_start().valid()
        &&& self.spec_end().valid()
        &&& self.spec_start().le(self.spec_end())
    }

    /// Whether `d` lies in the range, both endpoints included.
    pub open spec fn spec_contains(self, d: Date) -> bool {
        self.spec_start().le(d) && d.le(self.spec_end())
    }

    /// Whether `d` falls strictly before the range's start.
    pub open spec fn spec_before(self, d: Date) -> bool {
        d.lt(self.spec_start())
    }

    /// Whether `d` falls strictly after the range's end.
    pub open spec fn spec_after(self, d: Date) -> bool {
        self.spec_end().lt(d)
    }

    /// Builds the range spanning the two given dates, in whichever order
    /// they come: the earlier becomes `start`, the later becomes `end`.
    /// Rejects an argument that is not a valid `YYYY-MM-DD` date, naming
    /// the offending one; `date1` is checked first.
    pub fn new(date1: &str, date2: &str) -> (r: Result<Range, InvalidDateFormat>)
        ensures
            r is Ok <==> (spec_parse(date1@) is Some && spec_parse(date2@) is Some),
            r matches Ok(range) ==> {
                &&& range.wf()
                &&& range.spec_start() == earlier_of(
                    spec_parse(date1@)->0,
                    spec_parse(date2@)->0,
                )
                &&& range.spec_end() == later_of(spec_parse(date1@)->0, spec_parse(date2@)->0)
            },
            r == Err::<Range, _>(InvalidDateFormat::FirstDate) <==> spec_parse(date1@) is None,
            r == Err::<Range, _>(InvalidDateFormat::SecondDate) <==> (spec_parse(date1@) is Some
                && spec_parse(date2@) is None),
    {
        let a = match parse_date(date1) {
            Some(d) => d,
            None => {
                return Err(InvalidDateFormat::FirstDate);
            },
        };
        let b = match parse_date(date2) {
            Some(d) => d,
            None => {
                return Err(InvalidDateFormat::SecondDate);
            },
        };
        if a.le_exec(&b) {
            Ok(Range { start: a, end: b })
        } else {
            Ok(Range { start: b, end: a })
        }
    }

    /// The start date, rendered in canonical `YYYY-MM-DD` form.
    pub fn start(&self) -> (s: String)
        ensures
            s@ == spec_render(self.spec_start()),
    {
        proof {
            use_type_invariant(&*self);
        }
        render_date(&self.start)
    }

    /// The end date, rendered in canonical `YYYY-MM-DD` form.
    pub fn end(&self) -> (s: String)
        ensures
            s@ == spec_render(self.spec_end()),
    {
        proof {
            use_type_invariant(&*self);
        }
        render_date(&self.end)
    }

    /// The number of whole days from `start` to `end`; zero for a
    /// single-day range.
    pub fn elapsed_days(&self) -> (n: i64)
        ensures
            n == self.spec_end().day_number() - self.spec_start().day_number(),
    {
        proof {
            use_type_invariant(&*self);
        }
        let e = self.end.day_number_exec();
        let s = self.start.day_number_exec();
        e as i64 - s as i64
    }

    /// Whether the given date lies in the range, endpoints included.
    /// Rejects a string that is not a valid `YYYY-MM-DD` date.
    pub fn between(&self, date: &str) -> (r: Result<bool, InvalidDateFormat>)
        ensures
            r is Ok <==> spec_parse(date@) is Some,
            r matches Ok(b) ==> b == self.spec_contains(spec_parse(date@)->0),
            r is Err ==> r == Err::<bool, _>(InvalidDateFormat::QueryDate),
    {
        proof {
            use_type_invariant(&*self);
        }
        let when = match parse_date(date) {
            Some(d) => d,
            None => {
                return Err(InvalidDateFormat::QueryDate);
            },
        };
        Ok(self.start.le_exec(&when) && when.le_exec(&self.end))
    }

    /// Whether the given date falls strictly before the range's start.
    /// Rejects a string that is not a valid `YYYY-MM-DD` date.
    pub fn start_before(&self, date: &str) -> (r: Result<bool, InvalidDateFormat>)
        ensures
            r is Ok <==> spec_parse(date@) is Some,
            r matches Ok(b) ==> b == self.spec_before(spec_parse(date@)->0),
            r is Err ==> r == Err::<bool, _>(InvalidDateFormat::QueryDate),
    {
        let when = match parse_date(date) {
            Some(d) => d,
            None => {
                return Err(InvalidDateFormat::QueryDate);
            },
        };
        Ok(!self.start.le_exec(&when))
    }

    /// Whether the given date falls strictly after the range's end.
    /// Rejects a string that is not a valid `YYYY-MM-DD` date.
    pub fn end_after(&self, date: &str) -> (r: Result<bool, InvalidDateFormat>)
        ensures
            r is Ok <==> spec_parse(date@) is Some,
            r matches Ok(b) ==> b == self.spec_after(spec_parse(date@)->0),
            r is Err ==> r == Err::<bool, _>(InvalidDateFormat::QueryDate),
    {
        let when = match parse_date(date) {
            Some(d) => d,
            None => {
                return Err(InvalidDateFormat::QueryDate);
            },
        };
        Ok(!when.le_exec(&self.end))
    }
}

/// Order normalization: construction does not depend on the order of its two
/// dates — swapping them yields the same start and the same end, so
/// [`Range::new`] built from `(a, b)` and from `(b, a)` agree.
pub proof fn lemma_order_normalization(a: Date, b: Date)
    ensures
        earlier_of(a, b) == earlier_of(b, a),
        later_of(a, b) == later_of(b, a),
{
}

/// Invariant: a well-formed range's start never comes after its end, and the
/// same holds of their canonical renderings under lexicographic string order.
pub proof fn lemma_start_le_end(r: Range)
    requires
        r.wf(),
    ensures
        r.spec_start().le(r.spec_end()),
        lex_le(spec_render(r.spec_start()), spec_render(r.spec_end())),
{
    lemma_render_reflects_order(r.spec_start(), r.spec_end());
}

/// The elapsed day count of a well-formed range is never negative, and it is
/// zero exactly when start and end are the same date — equivalently, exactly
/// when their canonical renderings are the same string.
pub proof fn lemma_elapsed_days_sign(r: Range)
    requires
        r.wf(),
    ensures
        r.spec_end().day_number() - r.spec_start().day_number() >= 0,
        (r.spec_end().day_number() - r.spec_start().day_number() == 0) <==> (r.spec_start()
            == r.spec_end()),
        (r.spec_start() == r.spec_end()) <==> (spec_render(r.spec_start()) == spec_render(
            r.spec_end(),
        )),
{
    lemma_day_number_reflects_order(r.spec_start(), r.spec_end());
    lemma_render_parse_round_trip(r.spec_start());
    lemma_render_parse_round_trip(r.spec_end());
}

/// Inclusive boundaries: a well-formed range contains both of its endpoints,
/// so querying [`Range::between`] with the rendered start or end — which
/// parses back to that very endpoint — answers true.
pub proof fn lemma_inclusive_boundaries(r: Range)
    requires
        r.wf(),
    ensures
        r.spec_contains(r.spec_start()),
        r.spec_contains(r.spec_end()),
        spec_parse(spec_render(r.spec_start())) == Some(r.spec_start()),
        spec_parse(spec_render(r.spec_end())) == Some(r.spec_end()),
{
    lemma_render_parse_round_trip(r.spec_start());
    lemma_render_parse_round_trip(r.spec_end());
}

/// Disjoint partition: any date falls before, within, or after a well-formed
/// range, and in exactly one of the three.
pub proof fn lemma_disjoint_partition(r: Range, d: Date)
    requires
        r.wf(),
    ensures
        r.spec_before(d) || r.spec_contains(d) || r.spec_after(d),
        !(r.spec_before(d) && r.spec_contains(d)),
        !(r.spec_before(d) && r.spec_after(d)),
        !(r.spec_contains(d) && r.spec_after(d)),
{
}

} // verus!
