//! What the measuring tools count: gaps between input reports, calls that block,
//! and the moving pattern they light the pads with.

use vstd::prelude::*;

use crate::protocol::{add_time, elapsed, time_after, time_since, HID_REPORT_INPUT_STATE};

verus! {

/// Width of a histogram bucket (microseconds).
pub const BUCKET_US: u64 = 100;

/// Buckets of the histogram.
pub const NUM_BUCKETS: usize = 200;

/// Most buckets that the live view shows.
pub const TUI_MAX_BUCKETS: usize = 50;

/// Fewest buckets that the live view shows.
pub const MIN_SHOW_BUCKETS: usize = 20;

/// Length of the longest bar.
pub const BAR_WIDTH: usize = 28;

/// Time over which the report rate is taken (nanoseconds).
pub const RATE_WINDOW: u64 = 500_000_000;

/// Nanoseconds in a microsecond.
pub const NANOS_PER_US: u64 = 1000;

/// Input reports of a pad and the gaps between them.
pub struct PadStats {
    pub connected: bool,
    pub reports: u64,
    pub last_ts: Option<u64>,
    /// How many gaps there were of each width.
    pub buckets: Vec<u64>,
    /// Gaps wider than the histogram.
    pub overflow: u64,
    pub min_us: u64,
    pub max_us: u64,
    pub sum_us: u64,
    pub interval_count: u64,
    pub window_start: u64,
    pub window_reports: u64,
}

/// Input reports and gaps as a value.
#[verifier::ext_equal]
pub ghost struct StatsView {
    pub connected: bool,
    pub reports: u64,
    pub last_ts: Option<u64>,
    pub buckets: Seq<u64>,
    pub overflow: u64,
    pub min_us: u64,
    pub max_us: u64,
    pub sum_us: u64,
    pub interval_count: u64,
    pub window_start: u64,
    pub window_reports: u64,
}

impl View for PadStats {
    type V = StatsView;

    open spec fn view(&self) -> StatsView {
        StatsView {
            connected: self.connected,
            reports: self.reports,
            last_ts: self.last_ts,
            buckets: self.buckets@,
            overflow: self.overflow,
            min_us: self.min_us,
            max_us: self.max_us,
            sum_us: self.sum_us,
            interval_count: self.interval_count,
            window_start: self.window_start,
            window_reports: self.window_reports,
        }
    }
}

/// No reports yet.
pub open spec fn no_stats(connected: bool, now: u64) -> StatsView {
    StatsView {
        connected,
        reports: 0,
        last_ts: None,
        buckets: Seq::new(NUM_BUCKETS as nat, |i: int| 0u64),
        overflow: 0,
        min_us: u64::MAX,
        max_us: 0,
        sum_us: 0,
        interval_count: 0,
        window_start: now,
        window_reports: 0,
    }
}

/// One more than a count, which stops at its end.
pub open spec fn one_more(n: u64) -> u64 {
    time_after(n, 1)
}

/// Statistics with one more gap.
pub open spec fn with_gap(s: StatsView, us: u64) -> StatsView {
    let i = us / BUCKET_US;
    StatsView {
        buckets: if i < NUM_BUCKETS {
            s.buckets.update(i as int, one_more(s.buckets[i as int]))
        } else {
            s.buckets
        },
        overflow: if i < NUM_BUCKETS {
            s.overflow
        } else {
            one_more(s.overflow)
        },
        min_us: if us < s.min_us {
            us
        } else {
            s.min_us
        },
        max_us: if us > s.max_us {
            us
        } else {
            s.max_us
        },
        sum_us: time_after(s.sum_us, us),
        interval_count: one_more(s.interval_count),
        ..s
    }
}

/// Statistics with one more report, before the rate window is looked at.
pub open spec fn with_report(s: StatsView, now: u64) -> StatsView {
    let s1 = StatsView {
        reports: one_more(s.reports),
        window_reports: one_more(s.window_reports),
        ..s
    };
    let s2 = match s.last_ts {
        Some(t) => with_gap(s1, (elapsed(now, t) / NANOS_PER_US) as u64),
        None => s1,
    };
    StatsView { last_ts: Some(now), ..s2 }
}

/// The last of the first `n` buckets with gaps in it; 0 if there is none.
pub open spec fn last_used(buckets: Seq<u64>, n: int) -> int
    decreases n,
{
    if n <= 0 {
        0
    } else if buckets[n - 1] > 0 {
        n - 1
    } else {
        last_used(buckets, n - 1)
    }
}

/// Finds the last of the first `n` buckets with gaps in it; 0 if there is none.
fn find_last_used(buckets: &Vec<u64>, n: usize) -> (r: usize)
    requires
        n <= buckets@.len(),
    ensures
        r == last_used(buckets@, n as int),
        r <= n,
{
    let mut i: usize = n;
    while i > 0
        invariant
            i <= n <= buckets@.len(),
            last_used(buckets@, n as int) == last_used(buckets@, i as int),
        decreases i,
    {
        if buckets[i - 1] > 0 {
            return i - 1;
        }
        i = i - 1;
    }
    0
}

/// The largest of the first `n` counts, at least 1.
pub open spec fn tallest(buckets: Seq<u64>, n: int) -> u64
    decreases n,
{
    if n <= 0 {
        1
    } else if buckets[n - 1] > tallest(buckets, n - 1) {
        buckets[n - 1]
    } else {
        tallest(buckets, n - 1)
    }
}

/// The sum of the counts from bucket `n` on; it stops at the end of the counter.
pub open spec fn count_from(buckets: Seq<u64>, n: int) -> u64
    decreases buckets.len() - n,
{
    if n >= buckets.len() {
        0
    } else {
        time_after(count_from(buckets, n + 1), buckets[n])
    }
}

impl PadStats {
    /// The histogram has all its buckets.
    pub open spec fn wf(&self) -> bool {
        self.buckets@.len() == NUM_BUCKETS
    }

    /// No reports yet.
    pub fn new(now: u64) -> (s: Self)
        ensures
            s.wf(),
            s@ == no_stats(false, now),
    {
        let s = PadStats {
            connected: false,
            reports: 0,
            last_ts: None,
            buckets: vec![0u64;200],
            overflow: 0,
            min_us: u64::MAX,
            max_us: 0,
            sum_us: 0,
            interval_count: 0,
            window_start: now,
            window_reports: 0,
        };
        assert(s@ =~= no_stats(false, now));
        s
    }

    /// Forgets all reports.
    pub fn reset(&mut self, now: u64)
        ensures
            final(self).wf(),
            final(self)@ == no_stats(old(self)@.connected, now),
    {
        let connected = self.connected;
        *self = PadStats::new(now);
        self.connected = connected;
        assert(self@ =~= no_stats(connected, now));
    }

    fn add_gap(&mut self, us: u64)
        requires
            old(self).wf(),
        ensures
            final(self).wf(),
            final(self)@ == with_gap(old(self)@, us),
    {
        let i: u64 = us / BUCKET_US;
        if i < NUM_BUCKETS as u64 {
            let i: usize = i as usize;
            self.buckets[i] = add_time(self.buckets[i], 1);
        } else {
            self.overflow = add_time(self.overflow, 1);
        }
        if us < self.min_us {
            self.min_us = us;
        }
        if us > self.max_us {
            self.max_us = us;
        }
        self.sum_us = add_time(self.sum_us, us);
        self.interval_count = add_time(self.interval_count, 1);
    }

    /// Counts a report. About twice a second it hands out the reports of the last
    /// window and its length in nanoseconds, from which the rate can be told.
    pub fn on_report(&mut self, now: u64) -> (rate: Option<(u64, u64)>)
        requires
            old(self).wf(),
        ensures
            final(self).wf(),
            ({
                let s = with_report(old(self)@, now);
                let passed = elapsed(now, s.window_start);
                if passed >= RATE_WINDOW {
                    &&& rate == Some((s.window_reports, passed))
                    &&& final(self)@ == (StatsView { window_start: now, window_reports: 0, ..s })
                } else {
                    &&& rate is None
                    &&& final(self)@ == s
                }
            }),
            rate is Some <==> now - old(self)@.window_start >= 500_000_000,
    {
        self.reports = add_time(self.reports, 1);
        self.window_reports = add_time(self.window_reports, 1);
        if let Some(last) = self.last_ts {
            self.add_gap(time_since(now, last) / NANOS_PER_US);
        }
        self.last_ts = Some(now);
        let passed: u64 = time_since(now, self.window_start);
        if passed >= RATE_WINDOW {
            let reports: u64 = self.window_reports;
            self.window_start = now;
            self.window_reports = 0;
            Some((reports, passed))
        } else {
            None
        }
    }

    /// How many buckets the live view shows: those with gaps in them and a few
    /// more.
    pub fn tui_show_buckets(&self) -> (n: usize)
        requires
            self.wf(),
        ensures
            n == {
                let m = last_used(self@.buckets, TUI_MAX_BUCKETS as int) + 3;
                if m < MIN_SHOW_BUCKETS {
                    MIN_SHOW_BUCKETS as int
                } else if m > TUI_MAX_BUCKETS {
                    TUI_MAX_BUCKETS as int
                } else {
                    m
                }
            },
            20 <= n <= 50,
            n == 20 || n == 50 || n == last_used(self@.buckets, 50) + 3,
    {
        let n: usize = find_last_used(&self.buckets, TUI_MAX_BUCKETS) + 3;
        if n < MIN_SHOW_BUCKETS {
            MIN_SHOW_BUCKETS
        } else if n > TUI_MAX_BUCKETS {
            TUI_MAX_BUCKETS
        } else {
            n
        }
    }

    /// How many buckets the summary shows.
    pub fn summary_show_buckets(&self) -> (n: usize)
        requires
            self.wf(),
        ensures
            n == {
                let m = last_used(self@.buckets, NUM_BUCKETS as int) + 2;
                if m > NUM_BUCKETS {
                    NUM_BUCKETS as int
                } else {
                    m
                }
            },
    {
        let n: usize = find_last_used(&self.buckets, NUM_BUCKETS) + 2;
        if n > NUM_BUCKETS {
            NUM_BUCKETS
        } else {
            n
        }
    }

    /// The tallest of the first buckets, at least 1.
    pub fn tallest_bucket(&self, show: usize) -> (max: u64)
        requires
            self.wf(),
            show <= NUM_BUCKETS,
        ensures
            max == tallest(self@.buckets, show as int),
            max >= 1,
    {
        let mut max: u64 = 1;
        let mut i: usize = 0;
        while i < show
            invariant
                i <= show <= NUM_BUCKETS,
                self.wf(),
                max == tallest(self@.buckets, i as int),
                max >= 1,
            decreases show - i,
        {
            if self.buckets[i] > max {
                max = self.buckets[i];
            }
            i = i + 1;
        }
        max
    }

    /// Gaps wider than the first buckets.
    pub fn hidden_gaps(&self, show: usize) -> (n: u64)
        requires
            self.wf(),
            show <= NUM_BUCKETS,
        ensures
            n == time_after(count_from(self@.buckets, show as int), self@.overflow),
    {
        let mut n: u64 = 0;
        let mut i: usize = NUM_BUCKETS;
        while i > show
            invariant
                show <= i <= NUM_BUCKETS,
                self.wf(),
                n == count_from(self@.buckets, i as int),
            decreases i - show,
        {
            i = i - 1;
            n = add_time(n, self.buckets[i]);
        }
        add_time(n, self.overflow)
    }
}

/// The length of a histogram bar: the tallest has full length.
pub fn bar_length(count: u64, max: u64) -> (n: usize)
    requires
        count <= max,
        max >= 1,
    ensures
        n == count * BAR_WIDTH / max as int,
        n == count * 28 / max as int,
        n <= BAR_WIDTH,
{
    assert(0 <= count * 28 <= u64::MAX * 28) by (nonlinear_arith)
        requires
            0 <= count <= u64::MAX,
    ;
    let wide: u128 = (count as u128) * (BAR_WIDTH as u128);
    let n: u128 = wide / (max as u128);
    assert(n <= 28) by (nonlinear_arith)
        requires
            n == (count * 28) / max as int,
            count <= max,
            max >= 1,
    ;
    n as usize
}

// ─── Blocking calls ──────────────────────────────────────────────────────────

/// Read calls and what they brought.
pub struct ReadTally {
    pub attempts: u64,
    pub with_data: u64,
    pub input_reports: u64,
    pub max_us: u64,
}

impl ReadTally {
    /// No calls yet.
    pub fn new() -> (t: Self)
        ensures
            t.attempts == 0,
            t.with_data == 0,
            t.input_reports == 0,
            t.max_us == 0,
    {
        ReadTally { attempts: 0, with_data: 0, input_reports: 0, max_us: 0 }
    }

    /// Counts a call that took `us` microseconds and brought `packet`; a failed
    /// call brought nothing.
    pub fn note(&mut self, packet: &[u8], us: u64)
        ensures
            final(self).attempts == one_more(old(self).attempts),
            final(self).with_data == if packet@.len() > 0 {
                one_more(old(self).with_data)
            } else {
                old(self).with_data
            },
            final(self).input_reports == if packet@.len() > 0 && packet@[0]
                == HID_REPORT_INPUT_STATE {
                one_more(old(self).input_reports)
            } else {
                old(self).input_reports
            },
            final(self).max_us == if us > old(self).max_us {
                us
            } else {
                old(self).max_us
            },
    {
        if us > self.max_us {
            self.max_us = us;
        }
        self.attempts = add_time(self.attempts, 1);
        if packet.len() > 0 {
            self.with_data = add_time(self.with_data, 1);
            if packet[0] == HID_REPORT_INPUT_STATE {
                self.input_reports = add_time(self.input_reports, 1);
            }
        }
    }
}

/// Write calls.
pub struct WriteTally {
    pub writes: u64,
    pub errors: u64,
    pub max_us: u64,
}

impl WriteTally {
    /// No calls yet.
    pub fn new() -> (t: Self)
        ensures
            t.writes == 0,
            t.errors == 0,
            t.max_us == 0,
    {
        WriteTally { writes: 0, errors: 0, max_us: 0 }
    }

    /// Counts a call that took `us` microseconds.
    pub fn note(&mut self, failed: bool, us: u64)
        ensures
            final(self).writes == one_more(old(self).writes),
            final(self).errors == if failed {
                one_more(old(self).errors)
            } else {
                old(self).errors
            },
            final(self).max_us == if us > old(self).max_us {
                us
            } else {
                old(self).max_us
            },
    {
        if failed {
            self.errors = add_time(self.errors, 1);
        }
        if us > self.max_us {
            self.max_us = us;
        }
        self.writes = add_time(self.writes, 1);
    }
}

// ─── Light pattern ───────────────────────────────────────────────────────────

/// Brightness of the lit panel.
pub const MOVING_BRIGHTNESS: u8 = 96;

/// A frame that lights one panel of both pads, the next one with each tick.
pub open spec fn moving_light(tick: int) -> Seq<u8> {
    Seq::new(
        1350,
        |i: int|
            if (i % 675) / 75 == tick % 9 {
                MOVING_BRIGHTNESS
            } else {
                0u8
            },
    )
}

/// Makes a frame that lights one panel of both pads.
pub fn moving_frame(tick: usize) -> (frame: Vec<u8>)
    ensures
        frame@ == moving_light(tick as int),
{
    let panel: usize = tick % 9;
    let mut frame: Vec<u8> = Vec::new();
    let mut i: usize = 0;
    while i < 1350
        invariant
            i <= 1350,
            panel == tick % 9,
            frame@.len() == i,
            forall|j: int| 0 <= j < i ==> frame@[j] == moving_light(tick as int)[j],
        decreases 1350 - i,
    {
        if (i % 675) / 75 == panel {
            frame.push(MOVING_BRIGHTNESS);
        } else {
            frame.push(0);
        }
        i = i + 1;
    }
    assert(frame@ =~= moving_light(tick as int));
    frame
}

/// Where a gap between two reports is counted: buckets of 100 microseconds, 200 of them;
/// 20 milliseconds and more are only counted as such.
pub proof fn law_gap_by_number(s: StatsView, us: u64, i: int)
    requires
        s.buckets.len() == 200,
        0 <= i < 200,
        s.buckets[i] < u64::MAX,
        s.overflow < u64::MAX,
    ensures
        100 * i <= us < 100 * i + 100 ==> with_gap(s, us).buckets[i] == s.buckets[i] + 1,
        !(100 * i <= us < 100 * i + 100) ==> with_gap(s, us).buckets[i] == s.buckets[i],
        us >= 20_000 ==> with_gap(s, us).overflow == s.overflow + 1,
        us < 20_000 ==> with_gap(s, us).overflow == s.overflow,
        with_gap(s, us).min_us <= us <= with_gap(s, us).max_us,
{
}

/// The moving pattern lights one panel of each pad, all its LEDs alike, and the next one
/// with each tick.
pub proof fn law_moving_light_by_number(tick: int, pad: int, panel: int, k: int)
    requires
        0 <= tick,
        0 <= pad < 2,
        0 <= panel < 9,
        0 <= k < 75,
    ensures
        moving_light(tick).len() == 1350,
        moving_light(tick)[675 * pad + 75 * panel + k] == if tick % 9 == panel {
            96int
        } else {
            0int
        },
{
    let i = 675 * pad + 75 * panel + k;
    assert(i % 675 == 75 * panel + k);
    assert((75 * panel + k) / 75 == panel);
}

/// Gaps are counted in microseconds of a clock in nanoseconds; the first report makes none.
pub proof fn law_reports_by_number(s: StatsView, now: u64)
    requires
        s.reports < u64::MAX,
    ensures
        with_report(s, now).reports == s.reports + 1,
        with_report(s, now).last_ts == Some(now),
        s.last_ts is None ==> with_report(s, now).buckets == s.buckets && with_report(
            s,
            now,
        ).interval_count == s.interval_count,
        s.last_ts is Some && s.last_ts->0 <= now ==> ({
            let us = ((now - s.last_ts->0) / 1000) as u64;
            &&& with_report(s, now).buckets == with_gap(s, us).buckets
            &&& with_report(s, now).max_us == with_gap(s, us).max_us
            &&& with_report(s, now).sum_us == with_gap(s, us).sum_us
        }),
{
}

} // verus!
