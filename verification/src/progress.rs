//! Reading encoder progress: FFmpeg's `-progress` key/value lines and
//! Ghostscript's page lines, turned into a progress share, speed and remaining time.
use vstd::prelude::*;
use vstd::string::*;
use crate::probe::{all_digits, digits_value, parse_millis, parsed_millis, parsed_u64};
use crate::text::{chars_of, has_prefix, string_of_range, trim, trimmed};

verus! {

/// The signed integer that `s` denotes (as `i64::from_str`): an optional sign and
/// at least one digit, within 64-bit range.
pub open spec fn parsed_i64(s: Seq<char>) -> Option<i64> {
    if s.len() > 0 && s[0] == '-' {
        let d = s.skip(1);
        if d.len() > 0 && all_digits(d) && digits_value(d) <= 0x8000_0000_0000_0000 {
            Some((0 - digits_value(d)) as i64)
        } else {
            None
        }
    } else {
        match parsed_u64(s) {
            Some(v) => if v <= i64::MAX { Some(v as i64) } else { None },
            None => None,
        }
    }
}

/// Parses a signed decimal integer.
pub fn parse_i64(s: &str) -> (r: Option<i64>)
    ensures
        r == parsed_i64(s@),
{
    let v = chars_of(s);
    let n = v.len();
    if n > 0 && v[0] == '-' {
        assert(v@.subrange(1, n as int) =~= s@.skip(1));
        if n == 1 {
            return None;
        }
        match crate::probe::parse_digits(&v, 1, n) {
            Some(d) => {
                if d <= 0x8000_0000_0000_0000 {
                    if d == 0x8000_0000_0000_0000 {
                        Some(i64::MIN)
                    } else {
                        Some(-(d as i64))
                    }
                } else {
                    None
                }
            },
            None => None,
        }
    } else {
        match crate::probe::parse_u64(s) {
            Some(x) => if x <= i64::MAX as u64 { Some(x as i64) } else { None },
            None => None,
        }
    }
}

/// `s` without trailing `x` characters.
pub open spec fn strip_x(s: Seq<char>) -> Seq<char>
    decreases s.len(),
{
    if s.len() > 0 && s.last() == 'x' { strip_x(s.drop_last()) } else { s }
}

/// The speed in a `speed=` value (`1.23x`) in hundredths of real time, when positive.
pub open spec fn parsed_speed(v: Seq<char>) -> Option<u64> {
    match parsed_millis(strip_x(trimmed(v))) {
        Some(ms) => if ms / 10 > 0 { Some(ms / 10) } else { None },
        None => None,
    }
}

fn speed_value(v: &str) -> (r: Option<u64>)
    ensures
        r == parsed_speed(v@),
{
    let t = trim(v);
    let c = chars_of(t.as_str());
    let mut end = c.len();
    assert(c@.take(end as int) =~= c@);
    while end > 0 && c[end - 1] == 'x'
        invariant
            c@ == t@,
            end <= c@.len(),
            strip_x(c@.take(end as int)) == strip_x(t@),
        decreases end,
    {
        assert(c@.take(end as int).drop_last() =~= c@.take(end - 1));
        end = end - 1;
    }
    let s = string_of_range(&c, 0, end);
    assert(s@ =~= c@.take(end as int));
    match parse_millis(s.as_str()) {
        Some(ms) => if ms / 10 > 0 { Some(ms / 10) } else { None },
        None => None,
    }
}

/// What the progress reader remembers between lines of one FFmpeg run.
#[derive(Debug, Clone, Copy, PartialEq, Eq, Structural)]
pub struct ProgressTracker {
    /// Last reported speed, in hundredths of real time.
    pub speed_centi: Option<u64>,
    /// Last reported output time, in microseconds.
    pub out_us: i64,
    /// When a report was last emitted (milliseconds on a monotonic clock).
    pub last_emit_ms: u64,
}

/// A progress report: share done in tenths of a percent, speed in hundredths of
/// real time, remaining time in milliseconds.
#[derive(Debug, Clone, Copy, PartialEq, Eq, Structural)]
pub struct ProgressReport {
    pub permille: u32,
    pub speed_centi: Option<u64>,
    pub eta_ms: Option<u64>,
}

/// The text after `prefix`, when `line` starts with it.
pub open spec fn after_prefix(line: Seq<char>, prefix: Seq<char>) -> Option<Seq<char>> {
    if has_prefix(line, prefix) { Some(line.skip(prefix.len() as int)) } else { None }
}

/// The report for a progress block: `done_us` of `d_ms` done in a run filling
/// `from..to` percent of the bar; the remaining time covers the rest of this run
/// plus the runs after it, at the reported speed (capped at 64 bits).
pub open spec fn report_for(t: ProgressTracker, d_ms: u64, from: u32, to: u32) -> ProgressReport {
    let dd = d_ms as int * 1000;
    let done = if t.out_us < dd { t.out_us as int } else { dd };
    let w = if to - from >= 1 { to - from } else { 1 };
    let rem = if dd - t.out_us > 0 { dd - t.out_us } else { 0 };
    ProgressReport {
        permille: (from * 10 + (to - from) * 10 * done / dd) as u32,
        speed_centi: t.speed_centi,
        eta_ms: match t.speed_centi {
            Some(sp) => {
                let e = (rem * w + (100 - to) * dd) * 100 / (1000 * w * sp);
                Some(if e <= u64::MAX { e as u64 } else { u64::MAX })
            },
            None => None,
        },
    }
}

/// The tracker state and report after one line of FFmpeg's progress output.
pub open spec fn after_line(
    t: ProgressTracker,
    line: Seq<char>,
    now_ms: u64,
    duration_ms: Option<u64>,
    from: u32,
    to: u32,
) -> (ProgressTracker, Option<ProgressReport>) {
    match after_prefix(line, "speed="@) {
        Some(v) => (ProgressTracker { speed_centi: parsed_speed(v), ..t }, None),
        None => {
            let ov = match after_prefix(line, "out_time_us="@) {
                Some(v) => Some(v),
                None => after_prefix(line, "out_time_ms="@),
            };
            match ov {
                Some(v) => match parsed_i64(trimmed(v)) {
                    Some(us) => (ProgressTracker { out_us: if us >= 0 { us } else { 0 }, ..t }, None),
                    None => (t, None),
                },
                None => if has_prefix(line, "progress="@) && (match duration_ms {
                    Some(d) => d > 0,
                    None => false,
                }) && (if now_ms >= t.last_emit_ms { now_ms - t.last_emit_ms } else { 0 }) > 150 {
                    (
                        ProgressTracker { last_emit_ms: now_ms, ..t },
                        Some(report_for(t, duration_ms->0, from, to)),
                    )
                } else {
                    (t, None)
                },
            }
        },
    }
}

fn strip(line: &str, prefix: &str) -> (r: Option<String>)
    ensures
        match after_prefix(line@, prefix@) {
            Some(v) => r matches Some(x) && x@ == v,
            None => r is None,
        },
{
    if crate::text::starts_with(line, prefix) {
        let c = chars_of(line);
        let n = prefix.unicode_len();
        let r = string_of_range(&c, n, c.len());
        assert(r@ =~= line@.skip(n as int));
        Some(r)
    } else {
        None
    }
}

impl ProgressTracker {
    /// The tracker's invariant: the output time is not negative and a known speed
    /// is positive.
    pub open spec fn wf(self) -> bool {
        self.out_us >= 0 && !(self.speed_centi == Some(0u64))
    }

    /// A tracker for a run that started at `start_ms`.
    pub fn new(start_ms: u64) -> (t: ProgressTracker)
        ensures
            t == (ProgressTracker { speed_centi: None, out_us: 0, last_emit_ms: start_ms }),
            t.wf(),
    {
        ProgressTracker { speed_centi: None, out_us: 0, last_emit_ms: start_ms }
    }

    /// Reads one line of FFmpeg's `-progress` output, read at `now_ms`, for a run
    /// filling `from..to` percent of the bar over `duration_ms`. Gives a report at
    /// the end of a block, at most every 150 ms, when the duration is known.
    pub fn on_line(&mut self, line: &str, now_ms: u64, duration_ms: Option<u64>, from: u32, to: u32) -> (r: Option<ProgressReport>)
        requires
            from <= to <= 100,
            old(self).wf(),
        ensures
            final(self).wf(),
            (*final(self), r) == after_line(*old(self), line@, now_ms, duration_ms, from, to),
    {
        proof {
            reveal_strlit("speed=");
            reveal_strlit("out_time_us=");
            reveal_strlit("out_time_ms=");
            reveal_strlit("progress=");
        }
        if let Some(v) = strip(line, "speed=") {
            self.speed_centi = speed_value(v.as_str());
            return None;
        }
        let ov = match strip(line, "out_time_us=") {
            Some(v) => Some(v),
            None => strip(line, "out_time_ms="),
        };
        if let Some(v) = ov {
            let t = trim(v.as_str());
            if let Some(us) = parse_i64(t.as_str()) {
                self.out_us = if us >= 0 { us } else { 0 };
            }
            return None;
        }
        let is_block = crate::text::starts_with(line, "progress=");
        let d = match duration_ms {
            Some(d) => d,
            None => 0,
        };
        let since = if now_ms >= self.last_emit_ms { now_ms - self.last_emit_ms } else { 0 };
        if is_block && d > 0 && since > 150 {
            let rep = report(*self, d, from, to);
            self.last_emit_ms = now_ms;
            Some(rep)
        } else {
            None
        }
    }
}

fn report(t: ProgressTracker, d_ms: u64, from: u32, to: u32) -> (r: ProgressReport)
    requires
        from <= to <= 100,
        d_ms > 0,
        t.wf(),
    ensures
        r == report_for(t, d_ms, from, to),
{
    let dd: i128 = d_ms as i128 * 1000;
    let out: i128 = t.out_us as i128;
    let done: i128 = if out < dd { out } else { dd };
    let span: i128 = (to - from) as i128;
    let w: i128 = if span >= 1 { span } else { 1 };
    let rem: i128 = if dd - out > 0 { dd - out } else { 0 };
    proof {
        lemma_share_bounds(span as int, done as int, dd as int);
    }
    let share: i128 = span * 10 * done / dd;
    let permille = (from as i128) * 10 + share;
    let eta = match t.speed_centi {
        Some(sp) => {
            proof {
                lemma_eta_bounds(rem as int, w as int, (100 - to) as int, dd as int, sp as int);
            }
            let num: i128 = (rem * w + (100 - to) as i128 * dd) * 100;
            let den: i128 = 1000 * w * sp as i128;
            let e: i128 = num / den;
            Some(if e <= u64::MAX as i128 { e as u64 } else { u64::MAX })
        },
        None => None,
    };
    ProgressReport { permille: permille as u32, speed_centi: t.speed_centi, eta_ms: eta }
}

proof fn lemma_share_bounds(span: int, done: int, dd: int)
    requires
        0 <= span <= 100,
        0 <= done <= dd,
        0 < dd,
    ensures
        0 <= span * 10 * done <= 1000 * dd,
        0 <= span * 10 * done / dd <= 10 * span,
{
    assert(0 <= span * 10 * done <= 1000 * dd) by (nonlinear_arith)
        requires
            0 <= span <= 100,
            0 <= done <= dd,
    ;
    assert(span * 10 * done <= (10 * span) * dd) by (nonlinear_arith)
        requires
            0 <= span,
            0 <= done <= dd,
    ;
    assert(0 <= span * 10 * done / dd <= 10 * span) by (nonlinear_arith)
        requires
            0 <= span * 10 * done <= (10 * span) * dd,
            0 < dd,
    ;
}

proof fn lemma_eta_bounds(rem: int, w: int, left: int, dd: int, sp: int)
    requires
        0 <= rem <= dd,
        1 <= w <= 100,
        0 <= left <= 100,
        0 < dd <= 0xffff_ffff_ffff_ffff * 1000,
        1 <= sp <= 0xffff_ffff_ffff_ffff,
    ensures
        0 <= rem * w + left * dd <= 200 * dd,
        0 < 1000 * w * sp <= 100_000 * 0xffff_ffff_ffff_ffff,
        (rem * w + left * dd) * 100 <= 20000 * dd,
{
    assert(0 <= rem * w <= 100 * dd) by (nonlinear_arith)
        requires
            0 <= rem <= dd,
            1 <= w <= 100,
    ;
    assert(0 <= left * dd <= 100 * dd) by (nonlinear_arith)
        requires
            0 <= left <= 100,
            0 < dd,
    ;
    assert(0 < 1000 * w * sp <= 100_000 * 0xffff_ffff_ffff_ffff) by (nonlinear_arith)
        requires
            1 <= w <= 100,
            1 <= sp <= 0xffff_ffff_ffff_ffff,
    ;
}


/// A progress report of a run that fills `from..to` percent of the bar stays
/// within that share of the bar.
pub proof fn law_report_within_range(t: ProgressTracker, d_ms: u64, from: u32, to: u32)
    requires
        from <= to <= 100,
        d_ms > 0,
        t.wf(),
    ensures
        from * 10 <= report_for(t, d_ms, from, to).permille <= to * 10,
{
    let dd = d_ms as int * 1000;
    let done = if t.out_us < dd { t.out_us as int } else { dd };
    lemma_share_bounds((to - from) as int, done, dd);
}

/// Within one run, a later output time never gives a smaller share.
pub proof fn law_report_monotone(t1: ProgressTracker, t2: ProgressTracker, d_ms: u64, from: u32, to: u32)
    requires
        from <= to <= 100,
        d_ms > 0,
        t1.wf(),
        t2.wf(),
        t1.out_us <= t2.out_us,
    ensures
        report_for(t1, d_ms, from, to).permille <= report_for(t2, d_ms, from, to).permille,
{
    let dd = d_ms as int * 1000;
    let d1 = if t1.out_us < dd { t1.out_us as int } else { dd };
    let d2 = if t2.out_us < dd { t2.out_us as int } else { dd };
    let span = (to - from) as int;
    lemma_share_bounds(span, d1, dd);
    lemma_share_bounds(span, d2, dd);
    assert(span * 10 * d1 <= span * 10 * d2) by (nonlinear_arith)
        requires
            0 <= span,
            d1 <= d2,
    ;
    assert(span * 10 * d1 / dd <= span * 10 * d2 / dd) by (nonlinear_arith)
        requires
            0 <= span * 10 * d1 <= span * 10 * d2,
            0 < dd,
    ;
}

/// Whether a Ghostscript output line announces a page (`Page N`, leading white
/// space allowed).
pub open spec fn is_page_line(line: Seq<char>) -> bool {
    has_prefix(crate::text::trim_start_seq(line), "Page "@)
}

/// Whether a Ghostscript output line announces a page.
pub fn page_line(line: &str) -> (r: bool)
    ensures
        r == is_page_line(line@),
{
    let v = chars_of(line);
    let mut a: usize = 0;
    assert(v@.skip(0) =~= v@);
    while a < v.len() && crate::text::is_whitespace(v[a])
        invariant
            v@ == line@,
            a <= v@.len(),
            crate::text::trim_start_seq(v@.skip(a as int)) == crate::text::trim_start_seq(line@),
        decreases v@.len() - a,
    {
        assert(v@.skip(a as int).skip(1) =~= v@.skip(a + 1));
        a = a + 1;
    }
    let rest = string_of_range(&v, a, v.len());
    assert(rest@ =~= v@.skip(a as int));
    crate::text::starts_with(rest.as_str(), "Page ")
}

/// Ghostscript progress in tenths of a percent after `page` pages: the share of
/// the page count when known (at most all of it), else 3% a page up to 90%.
pub open spec fn page_permille(page: u32, pages: Option<u32>) -> u64 {
    match pages {
        Some(total) => if total > 0 {
            if page >= total { 1000 } else { (page as int * 1000 / total as int) as u64 }
        } else {
            if page * 30 <= 900 { (page * 30) as u64 } else { 900 }
        },
        None => if page * 30 <= 900 { (page * 30) as u64 } else { 900 },
    }
}

/// Ghostscript progress in tenths of a percent after `page` pages.
pub fn gs_progress(page: u32, pages: Option<u32>) -> (r: u64)
    ensures
        r == page_permille(page, pages),
        r <= 1000,
{
    let guess: u64 = if (page as u64) * 30 <= 900 { (page as u64) * 30 } else { 900 };
    match pages {
        Some(total) => if total > 0 {
            if page >= total {
                1000
            } else {
                let r = (page as u64) * 1000 / (total as u64);
                assert(r <= 1000) by (nonlinear_arith)
                    requires
                        r as int == (page as int) * 1000 / (total as int),
                        page < total,
                        0 < total,
                ;
                r
            }
        } else {
            guess
        },
        None => guess,
    }
}

} // verus!
