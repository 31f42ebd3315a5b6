//! Stretches of time.

use crate::time::{Span, Time};
use vstd::prelude::*;

verus! {

impl Span {
    pub open spec fn wf(self) -> bool {
        self.start.wf() && self.end.wf()
    }

    /// Whether there is nothing between start and end.
    pub open spec fn empty(self) -> bool {
        !self.start.lt(self.end)
    }

    /// Whether the duration can be stored.
    pub open spec fn measurable(self) -> bool {
        self.end.difference_fits(self.start)
    }

    pub open spec fn length(self) -> Time {
        self.end.spec_minus(self.start)
    }

    /// Whether an instant lies in this stretch: its start does, its end does not.
    pub open spec fn holds(self, at: Time) -> bool {
        self.start.le(at) && at.lt(self.end)
    }

    /// What two stretches share, which may be empty.
    pub open spec fn shared(self, other: Span) -> Span {
        Span { start: self.start.spec_max(other.start), end: self.end.spec_min(other.end) }
    }

    pub open spec fn text(self) -> Seq<char> {
        self.start.text() + "-"@ + self.end.text()
    }

    pub fn new(start: Time, end: Time) -> (r: Span)
        ensures
            r == (Span { start, end }),
    {
        Span { start, end }
    }

    /// The stretch of a duration from an instant on.
    pub fn from_duration(start: Time, duration: Time) -> (r: Span)
        requires
            start.wf(),
            duration.wf(),
            start.sum_fits(duration),
        ensures
            r == (Span { start, end: start.spec_plus(duration) }),
            r.wf(),
    {
        Span { start, end: start.plus(&duration) }
    }

    pub fn is_empty(&self) -> (r: bool)
        ensures
            r == self.empty(),
    {
        !self.start.before(&self.end)
    }

    pub fn duration(&self) -> (r: Time)
        requires
            self.wf(),
            self.measurable(),
        ensures
            r == self.length(),
            r.wf(),
    {
        self.end.minus(&self.start)
    }

    /// What two stretches share, unless that is nothing.
    pub fn intersect(&self, other: &Span) -> (r: Option<Span>)
        ensures
            r is Some <==> !self.shared(*other).empty(),
            r is Some ==> r->0 == self.shared(*other),
    {
        let start = self.start.max(other.start);
        let end = self.end.min(other.end);
        if start.before(&end) {
            Some(Span { start, end })
        } else {
            None
        }
    }

    pub fn overlaps(&self, other: &Span) -> (r: bool)
        ensures
            r == !self.shared(*other).empty(),
    {
        self.intersect(other).is_some()
    }

    /// `start-end`, each in lowest terms.
    pub fn to_text(&self) -> (r: String)
        ensures
            r@ == self.text(),
    {
        let mut out = self.start.to_text();
        out.append("-");
        out.append(self.end.to_text().as_str());
        out
    }
}

/// Order on instants is transitive.
pub proof fn lemma_lt_trans(a: Time, b: Time, c: Time)
    requires
        a.wf(),
        b.wf(),
        c.wf(),
    ensures
        a.lt(b) && b.le(c) ==> a.lt(c),
        a.le(b) && b.lt(c) ==> a.lt(c),
        a.le(b) && b.le(c) ==> a.le(c),
{
    let (an, ad) = (a.secs.num as int, a.secs.den as int);
    let (bn, bd) = (b.secs.num as int, b.secs.den as int);
    let (cn, cd) = (c.secs.num as int, c.secs.den as int);
    if a.lt(b) && b.le(c) {
        assert(an * cd < cn * ad) by (nonlinear_arith)
            requires
                an * bd < bn * ad,
                bn * cd <= cn * bd,
                ad > 0,
                bd > 0,
                cd > 0,
        ;
    }
    if a.le(b) && b.lt(c) {
        assert(an * cd < cn * ad) by (nonlinear_arith)
            requires
                an * bd <= bn * ad,
                bn * cd < cn * bd,
                ad > 0,
                bd > 0,
                cd > 0,
        ;
    }
    if a.le(b) && b.le(c) {
        assert(an * cd <= cn * ad) by (nonlinear_arith)
            requires
                an * bd <= bn * ad,
                bn * cd <= cn * bd,
                ad > 0,
                bd > 0,
                cd > 0,
        ;
    }
}

/// Two stretches share exactly the instants that lie in both.
pub proof fn law_shared_is_what_lies_in_both(a: Span, b: Span, at: Time)
    requires
        a.wf(),
        b.wf(),
        at.wf(),
    ensures
        a.shared(b).holds(at) <==> a.holds(at) && b.holds(at),
{
    lemma_lt_trans(a.start, b.start, at);
    lemma_lt_trans(b.start, a.start, at);
    lemma_lt_trans(at, a.end, b.end);
    lemma_lt_trans(at, b.end, a.end);
}

} // verus!
