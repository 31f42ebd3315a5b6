//! Spans in the order in which they start.

use crate::time::{Span, Time};
use vstd::prelude::*;

verus! {

/// Whether one span stands no later than another: by its start, and then by its end.
pub open spec fn not_after(a: Span, b: Span) -> bool {
    a.start.lt(b.start) || (!b.start.lt(a.start) && a.end.le(b.end))
}

/// Where a span goes among the positions `order` of spans: behind those that stand no later.
pub open spec fn span_slot(spans: Seq<Span>, order: Seq<int>, span: Span) -> int
    decreases order.len(),
{
    if order.len() == 0 || not_after(spans[order.last()], span) {
        order.len() as int
    } else {
        span_slot(spans, order.drop_last(), span)
    }
}

/// The positions of the first `n` spans in the order of time; spans that stand together stay
/// as they were.
pub open spec fn order_of(spans: Seq<Span>, n: int) -> Seq<int>
    decreases n,
{
    if n <= 0 {
        seq![]
    } else {
        let before = order_of(spans, n - 1);
        before.insert(span_slot(spans, before, spans[n - 1]), n - 1)
    }
}

/// The positions of spans in the order of time.
pub open spec fn span_order(spans: Seq<Span>) -> Seq<int> {
    order_of(spans, spans.len() as int)
}

pub open spec fn all_wf(spans: Seq<Span>) -> bool {
    forall|i: int|
        0 <= i < spans.len() ==> (#[trigger] spans[i]).start.wf() && spans[i].end.wf()
}

/// Whether the spans at these positions stand in order.
pub open spec fn stands_in_order(spans: Seq<Span>, order: Seq<int>) -> bool {
    forall|i: int, j: int|
        0 <= i <= j < order.len() ==> not_after(spans[#[trigger] order[i]], spans[#[trigger] order[j]])
}

pub proof fn lemma_le_is_transitive(a: Time, b: Time, c: Time)
    requires
        a.wf(),
        b.wf(),
        c.wf(),
        a.le(b),
        b.le(c),
    ensures
        a.le(c),
        a.lt(b) || b.lt(c) ==> a.lt(c),
{
    let (an, ad) = (a.secs.num as int, a.secs.den as int);
    let (bn, bd) = (b.secs.num as int, b.secs.den as int);
    let (cn, cd) = (c.secs.num as int, c.secs.den as int);
    assert(an * bd * cd <= bn * ad * cd) by (nonlinear_arith)
        requires
            an * bd <= bn * ad,
            cd > 0,
    ;
    assert(bn * cd * ad <= cn * bd * ad) by (nonlinear_arith)
        requires
            bn * cd <= cn * bd,
            ad > 0,
    ;
    assert((an * cd) * bd <= (cn * ad) * bd) by (nonlinear_arith)
        requires
            an * bd * cd <= bn * ad * cd,
            bn * cd * ad <= cn * bd * ad,
    ;
    assert(an * cd <= cn * ad) by (nonlinear_arith)
        requires
            (an * cd) * bd <= (cn * ad) * bd,
            bd > 0,
    ;
    if a.lt(b) {
        assert(an * bd * cd < bn * ad * cd) by (nonlinear_arith)
            requires
                an * bd < bn * ad,
                cd > 0,
        ;
        assert((an * cd) * bd < (cn * ad) * bd) by (nonlinear_arith)
            requires
                an * bd * cd < bn * ad * cd,
                bn * cd * ad <= cn * bd * ad,
        ;
        assert(an * cd < cn * ad) by (nonlinear_arith)
            requires
                (an * cd) * bd < (cn * ad) * bd,
                bd > 0,
        ;
    }
    if b.lt(c) {
        assert(bn * cd * ad < cn * bd * ad) by (nonlinear_arith)
            requires
                bn * cd < cn * bd,
                ad > 0,
        ;
        assert((an * cd) * bd < (cn * ad) * bd) by (nonlinear_arith)
            requires
                an * bd * cd <= bn * ad * cd,
                bn * cd * ad < cn * bd * ad,
        ;
        assert(an * cd < cn * ad) by (nonlinear_arith)
            requires
                (an * cd) * bd < (cn * ad) * bd,
                bd > 0,
        ;
    }
}

proof fn lemma_not_after_is_transitive(a: Span, b: Span, c: Span)
    requires
        a.start.wf(),
        a.end.wf(),
        b.start.wf(),
        b.end.wf(),
        c.start.wf(),
        c.end.wf(),
        not_after(a, b),
        not_after(b, c),
    ensures
        not_after(a, c),
{
    lemma_le_is_transitive(a.start, b.start, c.start);
    if !a.start.lt(c.start) {
        lemma_le_is_transitive(a.end, b.end, c.end);
        assert(!c.start.lt(a.start));
    }
}

/// Where a span goes, everything before it stands no later and everything behind it does
/// not.
proof fn lemma_span_slot(spans: Seq<Span>, order: Seq<int>, span: Span)
    requires
        all_wf(spans),
        span.start.wf(),
        span.end.wf(),
        forall|k: int| 0 <= k < order.len() ==> 0 <= #[trigger] order[k] < spans.len(),
        stands_in_order(spans, order),
    ensures
        0 <= span_slot(spans, order, span) <= order.len(),
        forall|k: int|
            0 <= k < span_slot(spans, order, span) ==> not_after(spans[#[trigger] order[k]], span),
        forall|k: int|
            span_slot(spans, order, span) <= k < order.len() ==> not_after(
                span,
                spans[#[trigger] order[k]],
            ),
    decreases order.len(),
{
    if order.len() > 0 {
        let last = order[order.len() - 1];
        assert(order.last() == last);
        if not_after(spans[last], span) {
            assert forall|k: int| 0 <= k < order.len() implies not_after(
                spans[#[trigger] order[k]],
                span,
            ) by {
                assert(not_after(spans[order[k]], spans[order[order.len() - 1]]));
                lemma_not_after_is_transitive(spans[order[k]], spans[last], span);
            }
        } else {
            let rest = order.drop_last();
            assert forall|k: int| 0 <= k < rest.len() implies 0 <= #[trigger] rest[k]
                < spans.len() by {
                assert(rest[k] == order[k]);
            }
            assert forall|i: int, j: int| 0 <= i <= j < rest.len() implies not_after(
                spans[#[trigger] rest[i]],
                spans[#[trigger] rest[j]],
            ) by {
                assert(rest[i] == order[i] && rest[j] == order[j]);
            }
            lemma_span_slot(spans, rest, span);
            let at = span_slot(spans, rest, span);
            assert forall|k: int| 0 <= k < at implies not_after(
                spans[#[trigger] order[k]],
                span,
            ) by {
                assert(rest[k] == order[k]);
            }
            assert forall|k: int| at <= k < order.len() implies not_after(
                span,
                spans[#[trigger] order[k]],
            ) by {
                if k < rest.len() {
                    assert(rest[k] == order[k]);
                }
            }
        }
    }
}

/// The order of spans holds every position exactly once, and stands in order.
pub proof fn law_span_order(spans: Seq<Span>, n: int)
    requires
        all_wf(spans),
        0 <= n <= spans.len(),
    ensures
        order_of(spans, n).len() == n,
        forall|k: int| 0 <= k < n ==> 0 <= #[trigger] order_of(spans, n)[k] < n,
        forall|i: int, j: int|
            0 <= i < j < n ==> #[trigger] order_of(spans, n)[i] != #[trigger] order_of(spans, n)[j],
        stands_in_order(spans, order_of(spans, n)),
    decreases n,
{
    if n > 0 {
        law_span_order(spans, n - 1);
        let before = order_of(spans, n - 1);
        let span = spans[n - 1];
        lemma_span_slot(spans, before, span);
        let at = span_slot(spans, before, span);
        let all = order_of(spans, n);
        assert forall|k: int| 0 <= k < n implies 0 <= #[trigger] all[k] < n by {
            if k < at {
                assert(all[k] == before[k]);
            } else if k > at {
                assert(all[k] == before[k - 1]);
            }
        }
        assert forall|i: int, j: int| 0 <= i < j < n implies #[trigger] all[i]
            != #[trigger] all[j] by {
            let a = if i < at {
                i
            } else {
                i - 1
            };
            let b = if j < at {
                j
            } else {
                j - 1
            };
            if i != at {
                assert(all[i] == before[a]);
            }
            if j != at {
                assert(all[j] == before[b]);
            }
        }
        assert forall|i: int, j: int| 0 <= i <= j < all.len() implies not_after(
            spans[#[trigger] all[i]],
            spans[#[trigger] all[j]],
        ) by {
            let a = if i < at {
                i
            } else {
                i - 1
            };
            let b = if j < at {
                j
            } else {
                j - 1
            };
            if i != at {
                assert(all[i] == before[a]);
            }
            if j != at {
                assert(all[j] == before[b]);
            }
        }
    }
}

fn stands_before(a: &Span, b: &Span) -> (r: bool)
    requires
        a.start.wf(),
        a.end.wf(),
        b.start.wf(),
        b.end.wf(),
    ensures
        r == not_after(*a, *b),
{
    a.start.before(&b.start) || (!b.start.before(&a.start) && a.end.at_most(&b.end))
}

/// The positions of spans in the order of time.
pub fn order_spans(spans: &Vec<Span>) -> (r: Vec<usize>)
    requires
        all_wf(spans@),
    ensures
        r@.map_values(|k: usize| k as int) == span_order(spans@),
        r@.len() == spans@.len(),
        forall|k: int| 0 <= k < r@.len() ==> (#[trigger] r@[k]) < spans@.len(),
{
    let ghost number = |k: usize| k as int;
    let mut out: Vec<usize> = Vec::new();
    let mut i: usize = 0;
    assert(out@.map_values(number) =~= seq![]);
    while i < spans.len()
        invariant
            i <= spans@.len(),
            all_wf(spans@),
            number == (|k: usize| k as int),
            out@.len() == i,
            out@.map_values(number) == order_of(spans@, i as int),
            forall|k: int| 0 <= k < out@.len() ==> (#[trigger] out@[k]) < spans@.len(),
        decreases spans@.len() - i,
    {
        let ghost sorted = out@.map_values(number);
        let mut at: usize = out.len();
        assert(sorted.take(at as int) =~= sorted);
        while at > 0 && !stands_before(&spans[out[at - 1]], &spans[i])
            invariant
                at <= out@.len(),
                i < spans@.len(),
                all_wf(spans@),
                number == (|k: usize| k as int),
                sorted == out@.map_values(number),
                forall|k: int| 0 <= k < out@.len() ==> (#[trigger] out@[k]) < spans@.len(),
                span_slot(spans@, sorted.take(at as int), spans@[i as int]) == span_slot(
                    spans@,
                    sorted,
                    spans@[i as int],
                ),
            decreases at,
        {
            assert(sorted.take(at as int).drop_last() =~= sorted.take(at - 1));
            assert(sorted.take(at as int).last() == out@[at - 1]);
            at = at - 1;
        }
        proof {
            if at > 0 {
                assert(sorted.take(at as int).last() == out@[at - 1]);
            }
        }
        let ghost before = out@;
        out.insert(at, i);
        proof {
            assert(out@.map_values(number) =~= sorted.insert(at as int, i as int));
            assert forall|k: int| 0 <= k < out@.len() implies (#[trigger] out@[k])
                < spans@.len() by {
                if k < at {
                    assert(out@[k] == before[k]);
                } else if k > at {
                    assert(out@[k] == before[k - 1]);
                }
            }
        }
        i = i + 1;
    }
    out
}

} // verus!
