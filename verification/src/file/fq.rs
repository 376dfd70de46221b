//! The forward-adjustment engine: a merge-walk of a day-bar series with the
//! category-1 corporate-action series of the same security.
//!
//! The walk decides, for every bar and event, which points are emitted and
//! with which flags; each point carries the close of its bar (in hundredths)
//! and, on an ex-dividend point, the raw payload of the applied event. The
//! caller computes the floating-point factor and adjusted prior close from
//! the emitted sequence; those two formulas are the only part of the engine
//! that does not live here.

use vstd::prelude::*;

verus! {

use crate::file::day::Day;
use crate::file::gbbq::Gbbq;

/// The four payload slots of an applied ex-dividend event (raw f32 bits).
#[derive(Debug, Clone, Copy, PartialEq, Eq)]
pub struct EventTerms {
    /// Raw bits: cash dividend per 10 shares.
    pub fh_qltp: u32,
    /// Raw bits: rights-issue price per share.
    pub pgj_qzgb: u32,
    /// Raw bits: bonus shares per 10.
    pub sg_hltp: u32,
    /// Raw bits: rights-issue shares per 10.
    pub pg_hzgb: u32,
}

/// One point of the factor series.
///
/// A trading point stands for one input bar; a non-trading point stands for
/// an event that fell between two trading days (the security was halted on
/// the event date) and carries the date and close of the next bar, as the
/// walk observes them.
#[derive(Debug, Clone, Copy, PartialEq, Eq)]
pub struct FqPoint {
    /// Numeric security code.
    pub code: u32,
    /// `YYYYMMDD` of the bar the point was emitted under.
    pub date: u32,
    /// Close of that bar, in hundredths.
    pub close: u32,
    /// True when the point stands for a trading day.
    pub trading: bool,
    /// True when an ex-dividend event applies at this point.
    pub xdxr: bool,
    /// The applied event's payload, present exactly when `xdxr`.
    pub event: Option<EventTerms>,
}

/// The payload of one event.
pub open spec fn spec_event_terms(g: Gbbq) -> EventTerms {
    EventTerms {
        fh_qltp: g.fh_qltp,
        pgj_qzgb: g.pgj_qzgb,
        sg_hltp: g.sg_hltp,
        pg_hzgb: g.pg_hzgb,
    }
}

/// A non-trading point: an event applied while the security was halted.
pub open spec fn spec_halted_point(d: Day, g: Gbbq) -> FqPoint {
    FqPoint {
        code: d.code,
        date: d.date,
        close: d.close,
        trading: false,
        xdxr: true,
        event: Some(spec_event_terms(g)),
    }
}

/// A trading point on an ex-dividend date.
pub open spec fn spec_event_point(d: Day, g: Gbbq) -> FqPoint {
    FqPoint {
        code: d.code,
        date: d.date,
        close: d.close,
        trading: true,
        xdxr: true,
        event: Some(spec_event_terms(g)),
    }
}

/// An ordinary trading point.
pub open spec fn spec_plain_point(d: Day) -> FqPoint {
    FqPoint {
        code: d.code,
        date: d.date,
        close: d.close,
        trading: true,
        xdxr: false,
        event: None,
    }
}

/// Advance the event cursor: take the next event if one exists, otherwise
/// mark the series exhausted while keeping the last event in hand.
pub open spec fn spec_advance(m: int, k: int, last: bool) -> (int, bool) {
    if k + 1 < m {
        (k + 1, last)
    } else {
        (k, true)
    }
}

/// Consume every event strictly older than the bar date `date`, starting
/// from held cursor `k`; the result is the cursor state when the walk turns
/// to the bar itself.
pub open spec fn spec_consume(g: Seq<Gbbq>, date: u32, k: int, last: bool) -> (int, bool)
    decreases 2 * (g.len() - k) + (if last { 0int } else { 1int }),
{
    if 0 <= k < g.len() && !last && date > g[k].date {
        let a = spec_advance(g.len() as int, k, last);
        spec_consume(g, date, a.0, a.1)
    } else {
        (k, last)
    }
}

/// How many events [`spec_consume`] applies from state `(k, last)`.
pub open spec fn spec_consumed_count(g: Seq<Gbbq>, date: u32, k: int, last: bool) -> int {
    let c = spec_consume(g, date, k, last);
    c.0 - k + if c.1 && !last {
        1int
    } else {
        0int
    }
}

/// The non-trading points emitted while consuming `c` events from cursor
/// `k` under bar `d`.
pub open spec fn spec_halted_points(d: Day, g: Seq<Gbbq>, k: int, c: int) -> Seq<FqPoint> {
    Seq::new(c as nat, |t: int| spec_halted_point(d, g[k + t]))
}

/// The full merge-walk from bar `i` and cursor state `(k, last)`.
///
/// In fresh-from-listing mode (`fresh`), events consumed before the first
/// bar are discarded silently so that the listing-date factor is 1; in
/// seeded-continuation mode they are emitted as non-trading points.
pub open spec fn spec_walk(
    days: Seq<Day>,
    g: Seq<Gbbq>,
    i: int,
    k: int,
    last: bool,
    fresh: bool,
) -> Seq<FqPoint>
    decreases days.len() - i,
{
    if i < 0 || i >= days.len() {
        Seq::empty()
    } else {
        let d = days[i];
        let con = spec_consume(g, d.date, k, last);
        let c = spec_consumed_count(g, d.date, k, last);
        let halted = if fresh && i == 0 {
            Seq::empty()
        } else {
            spec_halted_points(d, g, k, c)
        };
        if 0 <= con.0 < g.len() && d.date == g[con.0].date {
            let a = spec_advance(g.len() as int, con.0, con.1);
            halted + seq![spec_event_point(d, g[con.0])] + spec_walk(days, g, i + 1, a.0, a.1, fresh)
        } else {
            halted + seq![spec_plain_point(d)] + spec_walk(days, g, i + 1, con.0, con.1, fresh)
        }
    }
}

/// The factor series walked from the listing date.
pub open spec fn spec_fq_new(days: Seq<Day>, g: Seq<Gbbq>) -> Seq<FqPoint> {
    spec_walk(days, g, 0, 0, false, true)
}

/// The factor series resumed from a prior session.
pub open spec fn spec_fq_concat(days: Seq<Day>, g: Seq<Gbbq>) -> Seq<FqPoint> {
    spec_walk(days, g, 0, 0, false, false)
}

/// The factor series of a security without corporate actions: one plain
/// trading point per bar.
pub open spec fn spec_fq_no_gbbq(days: Seq<Day>) -> Seq<FqPoint> {
    Seq::new(days.len(), |i: int| spec_plain_point(days[i]))
}

/// The payload of the event at cursor `k`.
fn event_terms(g: &Vec<Gbbq>, k: usize) -> (t: EventTerms)
    requires
        k < g@.len(),
    ensures
        t == spec_event_terms(g@[k as int]),
{
    EventTerms {
        fh_qltp: g[k].fh_qltp,
        pgj_qzgb: g[k].pgj_qzgb,
        sg_hltp: g[k].sg_hltp,
        pg_hzgb: g[k].pg_hzgb,
    }
}

/// The merge-walk over all bars.
fn walk(days: &Vec<Day>, g: &Vec<Gbbq>, fresh: bool) -> (r: Vec<FqPoint>)
    requires
        days@.len() >= 1,
        g@.len() >= 1,
    ensures
        r@ == spec_walk(days@, g@, 0, 0, false, fresh),
{
    let n: usize = days.len();
    let m: usize = g.len();
    let mut out: Vec<FqPoint> = Vec::new();
    let mut k: usize = 0;
    let mut last: bool = false;
    let mut i: usize = 0;
    while i < n
        invariant
            days@.len() == n,
            g@.len() == m,
            1 <= m,
            i <= n,
            k < m,
            out@ + spec_walk(days@, g@, i as int, k as int, last, fresh) == spec_walk(
                days@,
                g@,
                0,
                0,
                false,
                fresh,
            ),
        decreases n - i,
    {
        let d = days[i];
        let ghost k0 = k as int;
        let ghost l0 = last;
        let ghost out0 = out@;
        while !last && d.date > g[k].date
            invariant
                days@.len() == n,
                g@.len() == m,
                1 <= m,
                i < n,
                k < m,
                d == days@[i as int],
                spec_consume(g@, d.date, k as int, last) == spec_consume(g@, d.date, k0, l0),
                k0 <= k,
                !l0 || last,
                l0 ==> k0 == k,
                out@ == out0 + if fresh && i == 0 {
                    Seq::<FqPoint>::empty()
                } else {
                    spec_halted_points(
                        d,
                        g@,
                        k0,
                        k - k0 + if last && !l0 {
                            1int
                        } else {
                            0int
                        },
                    )
                },
            decreases 2 * (m - k) + (if last { 0int } else { 1int }),
        {
            let ghost c_before = k - k0;
            if !(fresh && i == 0) {
                out.push(
                    FqPoint {
                        code: d.code,
                        date: d.date,
                        close: d.close,
                        trading: false,
                        xdxr: true,
                        event: Some(event_terms(g, k)),
                    },
                );
            }
            if k + 1 < m {
                k = k + 1;
            } else {
                last = true;
            }
            proof {
                if !(fresh && i == 0) {
                    let c_after = k - k0 + if last && !l0 {
                        1int
                    } else {
                        0int
                    };
                    assert(out@ =~= out0 + spec_halted_points(d, g@, k0, c_after));
                }
            }
        }
        let ghost con = spec_consume(g@, d.date, k0, l0);
        proof {
            assert(con == (k as int, last));
        }
        if d.date == g[k].date {
            out.push(
                FqPoint {
                    code: d.code,
                    date: d.date,
                    close: d.close,
                    trading: true,
                    xdxr: true,
                    event: Some(event_terms(g, k)),
                },
            );
            if k + 1 < m {
                k = k + 1;
            } else {
                last = true;
            }
        } else {
            out.push(
                FqPoint {
                    code: d.code,
                    date: d.date,
                    close: d.close,
                    trading: true,
                    xdxr: false,
                    event: None,
                },
            );
        }
        proof {
            assert(out@ =~= spec_walk(days@, g@, 0, 0, false, fresh).subrange(
                0,
                out@.len() as int,
            )) by {
                assert(out@ + spec_walk(days@, g@, i + 1, k as int, last, fresh) =~= spec_walk(
                    days@,
                    g@,
                    0,
                    0,
                    false,
                    fresh,
                ));
            }
            assert(out@ + spec_walk(days@, g@, i + 1, k as int, last, fresh) =~= spec_walk(
                days@,
                g@,
                0,
                0,
                false,
                fresh,
            ));
        }
        i = i + 1;
    }
    out
}

impl FqPoint {
    /// Walk the series from the listing date: the first bar's factor is 1,
    /// and events dated before the first bar are discarded.
    /// Returns `None` exactly when either series is empty.
    pub fn new_listing(days: &Vec<Day>, g1: &Vec<Gbbq>) -> (r: Option<Vec<FqPoint>>)
        ensures
            r is Some <==> days@.len() >= 1 && g1@.len() >= 1,
            r matches Some(v) ==> v@ == spec_fq_new(days@, g1@),
    {
        if days.len() == 0 || g1.len() == 0 {
            None
        } else {
            Some(walk(days, g1, true))
        }
    }

    /// Resume the series from a prior session: no listing-date
    /// normalization; events between two trading days emit non-trading
    /// points. Returns `None` exactly when either series is empty.
    pub fn new_seeded(days: &Vec<Day>, g1: &Vec<Gbbq>) -> (r: Option<Vec<FqPoint>>)
        ensures
            r is Some <==> days@.len() >= 1 && g1@.len() >= 1,
            r matches Some(v) ==> v@ == spec_fq_concat(days@, g1@),
    {
        if days.len() == 0 || g1.len() == 0 {
            None
        } else {
            Some(walk(days, g1, false))
        }
    }

    /// The series of a security without corporate actions.
    /// Returns `None` exactly when the bar series is empty.
    pub fn new_no_gbbq(days: &Vec<Day>) -> (r: Option<Vec<FqPoint>>)
        ensures
            r is Some <==> days@.len() >= 1,
            r matches Some(v) ==> v@ == spec_fq_no_gbbq(days@),
    {
        if days.len() == 0 {
            return None;
        }
        let n: usize = days.len();
        let mut out: Vec<FqPoint> = Vec::new();
        let mut i: usize = 0;
        while i < n
            invariant
                days@.len() == n,
                i <= n,
                out@.len() == i,
                forall|t: int| 0 <= t < i ==> out@[t] == spec_plain_point(days@[t]),
            decreases n - i,
        {
            let d = days[i];
            out.push(
                FqPoint {
                    code: d.code,
                    date: d.date,
                    close: d.close,
                    trading: true,
                    xdxr: false,
                    event: None,
                },
            );
            i = i + 1;
        }
        proof {
            assert(out@ =~= spec_fq_no_gbbq(days@));
        }
        Some(out)
    }
}

/// How many points of `s` are trading points.
pub open spec fn count_trading(s: Seq<FqPoint>) -> int
    decreases s.len(),
{
    if s.len() == 0 {
        0
    } else {
        count_trading(s.drop_last()) + if s.last().trading {
            1int
        } else {
            0int
        }
    }
}

proof fn lemma_count_trading_singleton(p: FqPoint)
    ensures
        count_trading(seq![p]) == if p.trading {
            1int
        } else {
            0int
        },
{
    let s = seq![p];
    assert(s.last() == p);
    assert(s.drop_last() =~= Seq::<FqPoint>::empty());
    assert(count_trading(Seq::<FqPoint>::empty()) == 0);
}

proof fn lemma_count_trading_add(a: Seq<FqPoint>, b: Seq<FqPoint>)
    ensures
        count_trading(a + b) == count_trading(a) + count_trading(b),
    decreases b.len(),
{
    if b.len() == 0 {
        assert(a + b =~= a);
    } else {
        lemma_count_trading_add(a, b.drop_last());
        assert((a + b).drop_last() =~= a + b.drop_last());
        assert((a + b).last() == b.last());
    }
}

proof fn lemma_count_trading_halted(d: Day, g: Seq<Gbbq>, k: int, c: int)
    requires
        c >= 0,
    ensures
        count_trading(spec_halted_points(d, g, k, c)) == 0,
    decreases c,
{
    if c > 0 {
        lemma_count_trading_halted(d, g, k, c - 1);
        assert(spec_halted_points(d, g, k, c).drop_last() =~= spec_halted_points(d, g, k, c - 1));
    }
}

proof fn lemma_walk_trading_count(
    days: Seq<Day>,
    g: Seq<Gbbq>,
    i: int,
    k: int,
    last: bool,
    fresh: bool,
)
    requires
        0 <= i,
    ensures
        count_trading(spec_walk(days, g, i, k, last, fresh)) == if i <= days.len() {
            days.len() - i
        } else {
            0int
        },
    decreases days.len() - i,
{
    if i < days.len() {
        let d = days[i];
        let con = spec_consume(g, d.date, k, last);
        let c = spec_consumed_count(g, d.date, k, last);
        let halted = if fresh && i == 0 {
            Seq::<FqPoint>::empty()
        } else {
            spec_halted_points(d, g, k, c)
        };
        lemma_consume_count_nonneg(g, d.date, k, last);
        lemma_count_trading_halted(d, g, k, c);
        if fresh && i == 0 {
            assert(count_trading(halted) == 0);
        }
        if 0 <= con.0 < g.len() && d.date == g[con.0].date {
            let a = spec_advance(g.len() as int, con.0, con.1);
            lemma_walk_trading_count(days, g, i + 1, a.0, a.1, fresh);
            lemma_count_trading_add(halted, seq![spec_event_point(d, g[con.0])]);
            lemma_count_trading_add(
                halted + seq![spec_event_point(d, g[con.0])],
                spec_walk(days, g, i + 1, a.0, a.1, fresh),
            );
            lemma_count_trading_singleton(spec_event_point(d, g[con.0]));
        } else {
            lemma_walk_trading_count(days, g, i + 1, con.0, con.1, fresh);
            lemma_count_trading_add(halted, seq![spec_plain_point(d)]);
            lemma_count_trading_add(
                halted + seq![spec_plain_point(d)],
                spec_walk(days, g, i + 1, con.0, con.1, fresh),
            );
            lemma_count_trading_singleton(spec_plain_point(d));
        }
    }
}

/// The count of consumed events is never negative.
proof fn lemma_consume_count_nonneg(g: Seq<Gbbq>, date: u32, k: int, last: bool)
    ensures
        spec_consumed_count(g, date, k, last) >= 0,
        spec_consume(g, date, k, last).0 >= k,
    decreases 2 * (g.len() - k) + (if last { 0int } else { 1int }),
{
    if 0 <= k < g.len() && !last && date > g[k].date {
        let a = spec_advance(g.len() as int, k, last);
        lemma_consume_count_nonneg(g, date, a.0, a.1);
    }
}

/// Emission count of the engine: however bars and events interleave, and in
/// both modes, the walk emits exactly one trading point per input bar.
pub proof fn lemma_trading_count(days: Seq<Day>, g: Seq<Gbbq>, fresh: bool)
    ensures
        count_trading(spec_walk(days, g, 0, 0, false, fresh)) == days.len(),
{
    lemma_walk_trading_count(days, g, 0, 0, false, fresh);
}

/// Emission count without corporate actions: every point is a trading
/// point, one per input bar.
pub proof fn lemma_trading_count_no_gbbq(days: Seq<Day>)
    ensures
        count_trading(spec_fq_no_gbbq(days)) == days.len(),
        spec_fq_no_gbbq(days).len() == days.len(),
{
    let s = spec_fq_no_gbbq(days);
    assert forall|j: int| 0 <= j < s.len() implies s[j].trading by {}
    lemma_count_all_trading(s);
}

/// How many points of `s` are ex-dividend points.
pub open spec fn count_xdxr(s: Seq<FqPoint>) -> int
    decreases s.len(),
{
    if s.len() == 0 {
        0
    } else {
        count_xdxr(s.drop_last()) + if s.last().xdxr {
            1int
        } else {
            0int
        }
    }
}

proof fn lemma_count_xdxr_singleton(p: FqPoint)
    ensures
        count_xdxr(seq![p]) == if p.xdxr {
            1int
        } else {
            0int
        },
{
    let s = seq![p];
    assert(s.last() == p);
    assert(s.drop_last() =~= Seq::<FqPoint>::empty());
    assert(count_xdxr(Seq::<FqPoint>::empty()) == 0);
}

proof fn lemma_count_xdxr_add(a: Seq<FqPoint>, b: Seq<FqPoint>)
    ensures
        count_xdxr(a + b) == count_xdxr(a) + count_xdxr(b),
    decreases b.len(),
{
    if b.len() == 0 {
        assert(a + b =~= a);
    } else {
        lemma_count_xdxr_add(a, b.drop_last());
        assert((a + b).drop_last() =~= a + b.drop_last());
        assert((a + b).last() == b.last());
    }
}

proof fn lemma_count_xdxr_halted(d: Day, g: Seq<Gbbq>, k: int, c: int)
    requires
        c >= 0,
    ensures
        count_xdxr(spec_halted_points(d, g, k, c)) == c,
    decreases c,
{
    if c > 0 {
        lemma_count_xdxr_halted(d, g, k, c - 1);
        assert(spec_halted_points(d, g, k, c).drop_last() =~= spec_halted_points(d, g, k, c - 1));
    }
}

/// The bar dates rise strictly.
pub open spec fn spec_dates_ascending(days: Seq<Day>) -> bool {
    forall|i: int, j: int| 0 <= i < j < days.len() ==> #[trigger] days[i].date < #[trigger] days[j].date
}

/// The event dates rise strictly.
pub open spec fn spec_events_ascending(g: Seq<Gbbq>) -> bool {
    forall|i: int, j: int| 0 <= i < j < g.len() ==> #[trigger] g[i].date < #[trigger] g[j].date
}

/// How many events from index `lo` on are dated at or before `d`.
pub open spec fn spec_events_le(g: Seq<Gbbq>, lo: int, d: u32) -> int
    decreases g.len() - lo,
{
    if lo < 0 || lo >= g.len() {
        0
    } else {
        (if g[lo].date <= d {
            1int
        } else {
            0int
        }) + spec_events_le(g, lo + 1, d)
    }
}

/// What [`spec_consume`] does to the cursor: the consumed events are the
/// run from `k` of length [`spec_consumed_count`], each strictly older
/// than the bar date.
proof fn lemma_consume_props(g: Seq<Gbbq>, d: u32, k: int, last: bool)
    requires
        0 <= k < g.len(),
    ensures
        ({
            let con = spec_consume(g, d, k, last);
            let c = spec_consumed_count(g, d, k, last);
            &&& k <= con.0 < g.len()
            &&& 0 <= c
            &&& (last ==> con.0 == k && con.1 && c == 0)
            &&& (!last && !con.1 ==> con.0 == k + c && d <= g[con.0].date)
            &&& (!last && con.1 ==> con.0 == g.len() - 1 && c == g.len() - k)
            &&& (forall|t: int| k <= t < k + c ==> #[trigger] g[t].date < d)
        }),
    decreases 2 * (g.len() - k) + (if last { 0int } else { 1int }),
{
    if !last && d > g[k].date {
        let a = spec_advance(g.len() as int, k, last);
        if k + 1 < g.len() {
            lemma_consume_props(g, d, a.0, a.1);
        }
    }
}

/// From an event dated after `d`, no event counts: the dates rise.
proof fn lemma_events_le_zero(g: Seq<Gbbq>, lo: int, d: u32)
    requires
        spec_events_ascending(g),
        0 <= lo,
        lo < g.len() ==> g[lo].date > d,
    ensures
        spec_events_le(g, lo, d) == 0,
    decreases g.len() - lo,
{
    if lo < g.len() {
        if lo + 1 < g.len() {
            assert(g[lo].date < g[lo + 1].date);
        }
        lemma_events_le_zero(g, lo + 1, d);
    }
}

/// A run of events all dated at or before `d` counts one each.
proof fn lemma_events_le_run(g: Seq<Gbbq>, lo: int, mid: int, d: u32)
    requires
        0 <= lo <= mid <= g.len(),
        forall|t: int| lo <= t < mid ==> #[trigger] g[t].date <= d,
    ensures
        spec_events_le(g, lo, d) == (mid - lo) + spec_events_le(g, mid, d),
    decreases mid - lo,
{
    if lo < mid {
        lemma_events_le_run(g, lo + 1, mid, d);
    }
}

/// The ex-dividend emission count of the walk from a mid-walk state: each
/// pending event dated at or before the final bar date is applied exactly
/// once (emitted, or at the first bar of a fresh walk discarded).
proof fn lemma_walk_xdxr_count(
    days: Seq<Day>,
    g: Seq<Gbbq>,
    i: int,
    k: int,
    last: bool,
    fresh: bool,
)
    requires
        spec_dates_ascending(days),
        spec_events_ascending(g),
        0 <= i < days.len(),
        0 <= k < g.len(),
        last ==> g[k].date < days[i].date,
    ensures
        count_xdxr(spec_walk(days, g, i, k, last, fresh)) + (if fresh && i == 0 {
            spec_consumed_count(g, days[0].date, k, last)
        } else {
            0int
        }) == if last {
            0int
        } else {
            spec_events_le(g, k, days[days.len() - 1].date)
        },
    decreases days.len() - i,
{
    let n = days.len() as int;
    let m = g.len() as int;
    let dd = days[n - 1].date;
    let d = days[i];
    let con = spec_consume(g, d.date, k, last);
    let c = spec_consumed_count(g, d.date, k, last);
    lemma_consume_props(g, d.date, k, last);
    assert(d.date <= dd);
    let halted = if fresh && i == 0 {
        Seq::<FqPoint>::empty()
    } else {
        spec_halted_points(d, g, k, c)
    };
    lemma_count_xdxr_halted(d, g, k, c);
    assert(count_xdxr(halted) + (if fresh && i == 0 {
        c
    } else {
        0int
    }) == c);
    if 0 <= con.0 < m && d.date == g[con.0].date {
        // A trading ex-dividend point; the while loop cannot have consumed
        // this event, so the cursor was not exhausted.
        assert(!last);
        assert(!con.1);
        let a = spec_advance(m, con.0, con.1);
        let w = spec_walk(days, g, i + 1, a.0, a.1, fresh);
        lemma_count_xdxr_add(halted, seq![spec_event_point(d, g[con.0])]);
        lemma_count_xdxr_add(halted + seq![spec_event_point(d, g[con.0])], w);
        lemma_count_xdxr_singleton(spec_event_point(d, g[con.0]));
        lemma_events_le_run(g, k, con.0, dd);
        if i + 1 < n {
            if a.1 {
                assert(a.0 == con.0 && a.0 == m - 1);
                assert(g[a.0].date < days[i + 1].date);
                lemma_walk_xdxr_count(days, g, i + 1, a.0, a.1, fresh);
                lemma_events_le_run(g, con.0, m, dd);
            } else {
                lemma_walk_xdxr_count(days, g, i + 1, a.0, a.1, fresh);
                lemma_events_le_run(g, con.0, con.0 + 1, dd);
            }
        } else {
            assert(w =~= Seq::<FqPoint>::empty());
            assert(d.date == dd);
            if a.1 {
                lemma_events_le_run(g, con.0, m, dd);
            } else {
                assert(a.0 == con.0 + 1);
                assert(g[con.0].date < g[a.0].date);
                lemma_events_le_zero(g, a.0, dd);
                lemma_events_le_run(g, con.0, con.0 + 1, dd);
            }
        }
    } else {
        let w = spec_walk(days, g, i + 1, con.0, con.1, fresh);
        lemma_count_xdxr_add(halted, seq![spec_plain_point(d)]);
        lemma_count_xdxr_add(halted + seq![spec_plain_point(d)], w);
        lemma_count_xdxr_singleton(spec_plain_point(d));
        if last {
            assert(c == 0);
            if i + 1 < n {
                assert(days[i].date < days[i + 1].date);
                lemma_walk_xdxr_count(days, g, i + 1, con.0, con.1, fresh);
            } else {
                assert(w =~= Seq::<FqPoint>::empty());
            }
        } else if con.1 {
            // Exhausted during the while loop: every event was consumed.
            lemma_events_le_run(g, k, m, dd);
            if i + 1 < n {
                assert(g[con.0].date < d.date < days[i + 1].date);
                lemma_walk_xdxr_count(days, g, i + 1, con.0, con.1, fresh);
            } else {
                assert(w =~= Seq::<FqPoint>::empty());
            }
        } else {
            // The pending event is strictly newer than this bar.
            assert(d.date < g[con.0].date);
            lemma_events_le_run(g, k, con.0, dd);
            if i + 1 < n {
                lemma_walk_xdxr_count(days, g, i + 1, con.0, con.1, fresh);
            } else {
                assert(w =~= Seq::<FqPoint>::empty());
                assert(d.date == dd);
                lemma_events_le_zero(g, con.0, dd);
            }
        }
    }
}

/// Ex-dividend emission count from the listing date: the emitted
/// ex-dividend points plus the events discarded at the first bar add up to
/// the events dated at or before the last bar, for strictly dated inputs.
pub proof fn lemma_xdxr_count_listing(days: Seq<Day>, g: Seq<Gbbq>)
    requires
        spec_dates_ascending(days),
        spec_events_ascending(g),
        days.len() >= 1,
        g.len() >= 1,
    ensures
        count_xdxr(spec_fq_new(days, g)) + spec_consumed_count(g, days[0].date, 0, false)
            == spec_events_le(g, 0, days[days.len() - 1].date),
{
    lemma_walk_xdxr_count(days, g, 0, 0, false, true);
}

/// Ex-dividend emission count of a seeded continuation: every event dated
/// at or before the last bar is emitted as an ex-dividend point, for
/// strictly dated inputs. When no event predates the first bar, this is
/// the count of events dated within the bar range.
pub proof fn lemma_xdxr_count_seeded(days: Seq<Day>, g: Seq<Gbbq>)
    requires
        spec_dates_ascending(days),
        spec_events_ascending(g),
        days.len() >= 1,
        g.len() >= 1,
    ensures
        count_xdxr(spec_fq_concat(days, g)) == spec_events_le(g, 0, days[days.len() - 1].date),
{
    lemma_walk_xdxr_count(days, g, 0, 0, false, false);
}

/// Numerator of the cumulative factor at point `i` of a no-gbbq series:
/// the factor is the running product of `close / preclose`, the preclose of
/// each point being the close of the point before it (of itself for the
/// first point), so the numerator is the product of the closes up to `i`.
pub open spec fn spec_factor_num(s: Seq<FqPoint>, i: int) -> int
    decreases i,
{
    if i <= 0 {
        s[0].close as int
    } else {
        spec_factor_num(s, i - 1) * s[i].close
    }
}

/// Denominator of the cumulative factor at point `i` of a no-gbbq series:
/// the product of the precloses up to `i`.
pub open spec fn spec_factor_den(s: Seq<FqPoint>, i: int) -> int
    decreases i,
{
    if i <= 0 {
        s[0].close as int
    } else {
        spec_factor_den(s, i - 1) * s[i - 1].close
    }
}

/// Factor ratio without corporate actions: in a no-gbbq series the exact
/// cumulative factor of consecutive points is in the ratio of their closes,
/// `factor_i / factor_{i-1} == close_i / close_{i-1}`, stated here with the
/// factors as exact fractions and the ratio cross-multiplied. A
/// floating-point evaluation of the same products reproduces this only to
/// rounding, which is outside this model.
pub proof fn lemma_no_gbbq_factor_ratio(days: Seq<Day>, i: int)
    requires
        1 <= i < days.len(),
    ensures
        ({
            let s = spec_fq_no_gbbq(days);
            spec_factor_num(s, i) * spec_factor_den(s, i - 1) * s[i - 1].close as int
                == spec_factor_num(s, i - 1) * spec_factor_den(s, i) * s[i].close as int
        }),
{
    let s = spec_fq_no_gbbq(days);
    let n0 = spec_factor_num(s, i - 1);
    let d0 = spec_factor_den(s, i - 1);
    let ci = s[i].close as int;
    let cp = s[i - 1].close as int;
    assert(spec_factor_num(s, i) == n0 * ci);
    assert(spec_factor_den(s, i) == d0 * cp);
    assert((n0 * ci) * d0 * cp == n0 * (d0 * cp) * ci) by (nonlinear_arith);
}

/// The cumulative factor telescopes: at every point of a no-gbbq series the
/// exact factor equals `close_i / close_0`, stated cross-multiplied.
pub proof fn lemma_no_gbbq_factor_telescopes(days: Seq<Day>, i: int)
    requires
        0 <= i < days.len(),
    ensures
        ({
            let s = spec_fq_no_gbbq(days);
            spec_factor_num(s, i) * s[0].close as int == spec_factor_den(s, i) * s[i].close as int
        }),
    decreases i,
{
    let s = spec_fq_no_gbbq(days);
    if i > 0 {
        lemma_no_gbbq_factor_telescopes(days, i - 1);
        let n0 = spec_factor_num(s, i - 1);
        let d0 = spec_factor_den(s, i - 1);
        let c0 = s[0].close as int;
        let ci = s[i].close as int;
        let cp = s[i - 1].close as int;
        assert(n0 * c0 == d0 * cp);
        assert(spec_factor_num(s, i) * c0 == (n0 * c0) * ci) by (nonlinear_arith)
            requires
                spec_factor_num(s, i) == n0 * ci,
        ;
        assert((d0 * cp) * ci == (d0 * cp) * ci);
        assert(spec_factor_den(s, i) * ci == (d0 * cp) * ci) by (nonlinear_arith)
            requires
                spec_factor_den(s, i) == d0 * cp,
        ;
    }
}

proof fn lemma_count_all_trading(s: Seq<FqPoint>)
    requires
        forall|j: int| 0 <= j < s.len() ==> s[j].trading,
    ensures
        count_trading(s) == s.len(),
    decreases s.len(),
{
    if s.len() > 0 {
        lemma_count_all_trading(s.drop_last());
    }
}

} // verus!
