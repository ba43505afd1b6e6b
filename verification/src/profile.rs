//! How long background threads hold the shared state lock.
//!
//! Each place that holds the lock adds its times to a bucket; once a second the
//! buckets are summed up and emptied. Nothing is recorded while profiling is off.

use vstd::prelude::*;

use crate::protocol::{elapsed, time_since};

verus! {

/// A place where a background thread holds the shared state lock.
#[derive(Clone, Copy, Debug, PartialEq, Eq, Structural)]
pub enum Site {
    UsbPoll,
    MainUpdate,
    AnimInputs,
    AnimLights,
    ConnectCheck,
    ConnectSetup,
}

/// Number of places.
pub const SITE_COUNT: usize = 6;

/// Time between two reports (nanoseconds).
pub const REPORT_INTERVAL: u64 = 1_000_000_000;

/// The index of a place.
pub open spec fn site_index(site: Site) -> int {
    match site {
        Site::UsbPoll => 0,
        Site::MainUpdate => 1,
        Site::AnimInputs => 2,
        Site::AnimLights => 3,
        Site::ConnectCheck => 4,
        Site::ConnectSetup => 5,
    }
}

/// The name of a place.
pub open spec fn name_of_site(i: int) -> Seq<char> {
    if i == 0 {
        "usb_poll"@
    } else if i == 1 {
        "main_update"@
    } else if i == 2 {
        "anim_inputs"@
    } else if i == 3 {
        "anim_lights"@
    } else if i == 4 {
        "connect_check"@
    } else {
        "connect_setup"@
    }
}

impl Site {
    /// The index of the place.
    pub fn index(self) -> (i: usize)
        ensures
            i == site_index(self),
            i < SITE_COUNT,
    {
        match self {
            Site::UsbPoll => 0,
            Site::MainUpdate => 1,
            Site::AnimInputs => 2,
            Site::AnimLights => 3,
            Site::ConnectCheck => 4,
            Site::ConnectSetup => 5,
        }
    }
}

/// The name of the place with an index.
pub fn site_name(i: usize) -> (name: &'static str)
    ensures
        name@ == name_of_site(i as int),
{
    if i == 0 {
        "usb_poll"
    } else if i == 1 {
        "main_update"
    } else if i == 2 {
        "anim_inputs"
    } else if i == 3 {
        "anim_lights"
    } else if i == 4 {
        "connect_check"
    } else {
        "connect_setup"
    }
}

/// Whether a setting turns profiling on: it is not empty and not `0`.
pub fn is_enabled(value: &str) -> (r: bool)
    ensures
        r == (value@.len() > 0 && value@ != "0"@),
{
    let n: usize = value.unicode_len();
    proof {
        reveal_strlit("0");
    }
    if n == 1 && value.get_char(0) == '0' {
        assert(value@ =~= "0"@);
        false
    } else {
        assert(value@ == "0"@ ==> value@[0] == '0');
        n > 0
    }
}

/// The holds of one place since the last report.
#[derive(Clone, Copy, Debug, PartialEq, Eq, Structural)]
pub struct Bucket {
    pub sum_ns: u64,
    pub max_ns: u64,
    pub count: u64,
}

/// An empty bucket.
pub open spec fn empty_bucket() -> Bucket {
    Bucket { sum_ns: 0, max_ns: 0, count: 0 }
}

/// A bucket with one more hold in it. Sum and count wrap around.
pub open spec fn with_hold(b: Bucket, ns: u64) -> Bucket {
    Bucket {
        sum_ns: b.sum_ns.wrapping_add(ns),
        max_ns: if ns > b.max_ns {
            ns
        } else {
            b.max_ns
        },
        count: b.count.wrapping_add(1),
    }
}

impl Bucket {
    /// An empty bucket.
    pub fn new() -> (b: Self)
        ensures
            b == empty_bucket(),
    {
        Bucket { sum_ns: 0, max_ns: 0, count: 0 }
    }

    /// Adds a hold.
    pub fn record(&mut self, ns: u64)
        ensures
            *final(self) == with_hold(*old(self), ns),
    {
        self.sum_ns = self.sum_ns.wrapping_add(ns);
        if ns > self.max_ns {
            self.max_ns = ns;
        }
        self.count = self.count.wrapping_add(1);
    }

    /// Hands out what is in the bucket and empties it.
    pub fn take(&mut self) -> (b: Bucket)
        ensures
            b == *old(self),
            *final(self) == empty_bucket(),
    {
        let b = *self;
        *self = Bucket::new();
        b
    }
}

/// A hold of the lock that has not ended yet.
#[derive(Debug)]
pub struct HoldGuard {
    pub start: u64,
    pub site: usize,
}

/// Begins to time a hold; nothing while profiling is off.
pub fn hold(site: Site, enabled: bool, now: u64) -> (guard: Option<HoldGuard>)
    ensures
        match guard {
            Some(g) => enabled && g.start == now && g.site == site_index(site),
            None => !enabled,
        },
{
    if enabled {
        Some(HoldGuard { start: now, site: site.index() })
    } else {
        None
    }
}

/// The holds of all places.
pub struct LockProfile {
    pub enabled: bool,
    pub buckets: Vec<Bucket>,
    pub last_report: Option<u64>,
}

/// What a place's bucket held.
#[derive(Clone, Copy, Debug, PartialEq, Eq, Structural)]
pub struct SiteSummary {
    pub site: usize,
    pub holds: Bucket,
}

/// The summaries of the first `n` places that had holds.
pub open spec fn summaries(buckets: Seq<Bucket>, n: int) -> Seq<SiteSummary>
    decreases n,
{
    if n <= 0 {
        Seq::empty()
    } else if buckets[n - 1].count == 0 {
        summaries(buckets, n - 1)
    } else {
        summaries(buckets, n - 1).push(
            SiteSummary { site: (n - 1) as usize, holds: buckets[n - 1] },
        )
    }
}

impl LockProfile {
    /// There is a bucket for each place.
    pub open spec fn wf(&self) -> bool {
        self.buckets@.len() == SITE_COUNT
    }

    /// A profile without holds.
    pub fn new(enabled: bool) -> (p: Self)
        ensures
            p.wf(),
            p.enabled == enabled,
            p.buckets@ == Seq::new(SITE_COUNT as nat, |i: int| empty_bucket()),
            p.last_report is None,
    {
        let buckets: Vec<Bucket> = vec![Bucket { sum_ns: 0, max_ns: 0, count: 0 };6];
        assert(buckets@ =~= Seq::new(SITE_COUNT as nat, |i: int| empty_bucket()));
        LockProfile { enabled, buckets, last_report: None }
    }

    /// Ends a hold and adds it to its place's bucket.
    pub fn release(&mut self, guard: HoldGuard, now: u64)
        requires
            old(self).wf(),
            guard.site < SITE_COUNT,
        ensures
            final(self).wf(),
            final(self).buckets@ == old(self).buckets@.update(
                guard.site as int,
                with_hold(
                    old(self).buckets@[guard.site as int],
                    elapsed(now, guard.start),
                ),
            ),
            final(self).enabled == old(self).enabled,
            final(self).last_report == old(self).last_report,
    {
        self.buckets[guard.site].record(time_since(now, guard.start));
    }
}

/// Whether a report is due: profiling is on and the last report, or the first time
/// anyone asked, was a second ago.
pub open spec fn report_is_due(p: LockProfile, now: u64) -> bool {
    p.enabled && p.last_report is Some && elapsed(now, p.last_report->0) >= REPORT_INTERVAL
}

/// Sums up and empties the buckets if a report is due. Places without holds are
/// left out.
pub fn maybe_report(profile: &mut LockProfile, now: u64) -> (report: Option<Vec<SiteSummary>>)
    requires
        old(profile).wf(),
    ensures
        final(profile).wf(),
        final(profile).enabled == old(profile).enabled,
        match report {
            Some(lines) => report_is_due(*old(profile), now) && lines@ == summaries(
                old(profile).buckets@,
                SITE_COUNT as int,
            ) && final(profile).buckets@ == Seq::new(
                SITE_COUNT as nat,
                |i: int| empty_bucket(),
            ) && final(profile).last_report == Some(now),
            None => !report_is_due(*old(profile), now) && final(profile).buckets@ == old(
                profile,
            ).buckets@ && final(profile).last_report == if old(profile).enabled && old(
                profile,
            ).last_report is None {
                Some(now)
            } else {
                old(profile).last_report
            },
        },
{
    if !profile.enabled {
        return None;
    }
    match profile.last_report {
        Some(last) => {
            if time_since(now, last) < REPORT_INTERVAL {
                return None;
            }
        },
        None => {
            profile.last_report = Some(now);
            return None;
        },
    }
    profile.last_report = Some(now);
    let ghost buckets = profile.buckets@;
    let mut lines: Vec<SiteSummary> = Vec::new();
    let mut i: usize = 0;
    assert(lines@ =~= summaries(buckets, 0));
    while i < SITE_COUNT
        invariant
            i <= SITE_COUNT,
            profile.wf(),
            buckets.len() == SITE_COUNT,
            profile.enabled == old(profile).enabled,
            profile.last_report == Some(now),
            lines@ == summaries(buckets, i as int),
            forall|j: int| 0 <= j < i ==> profile.buckets@[j] == empty_bucket(),
            forall|j: int| i <= j < SITE_COUNT ==> profile.buckets@[j] == buckets[j],
        decreases SITE_COUNT - i,
    {
        let holds = profile.buckets[i].take();
        if holds.count != 0 {
            lines.push(SiteSummary { site: i, holds });
        }
        i = i + 1;
    }
    assert(profile.buckets@ =~= Seq::new(SITE_COUNT as nat, |i: int| empty_bucket()));
    Some(lines)
}

/// Nothing is reported while profiling is off, however long ago the last report was.
pub proof fn law_profiling_off_is_silent(p: LockProfile, now: u64)
    requires
        !p.enabled,
    ensures
        !report_is_due(p, now),
{
}

/// Holds add up: after two of them a bucket has two more, is longer by both, and knows the
/// longest.
pub proof fn law_holds_add_up(b: Bucket, x: u64, y: u64)
    requires
        b.sum_ns + x + y <= u64::MAX,
        b.count + 2 <= u64::MAX,
    ensures
        ({
            let after = with_hold(with_hold(b, x), y);
            &&& after.sum_ns == b.sum_ns + x + y
            &&& after.count == b.count + 2
            &&& after.max_ns >= x && after.max_ns >= y && after.max_ns >= b.max_ns
            &&& after.max_ns == x || after.max_ns == y || after.max_ns == b.max_ns
        }),
{
}

/// A report is due a second after the last one, in nanoseconds.
pub proof fn law_report_by_number(p: LockProfile, now: u64)
    requires
        p.enabled,
        p.last_report is Some,
    ensures
        report_is_due(p, now) <==> now - p.last_report->0 >= 1_000_000_000,
{
}

/// A summary names its place: each tells the holds of the place it names, which has some,
/// and they come in the order of the places.
pub proof fn law_summaries_name_their_place(buckets: Seq<Bucket>, n: int, i: int)
    requires
        0 <= n <= buckets.len() <= usize::MAX,
        0 <= i < summaries(buckets, n).len(),
    ensures
        ({
            let s = summaries(buckets, n)[i];
            &&& s.site < n
            &&& s.holds == buckets[s.site as int]
            &&& s.holds.count > 0
            &&& i > 0 ==> summaries(buckets, n)[i - 1].site < s.site
        }),
    decreases n,
{
    if n > 0 {
        if i < summaries(buckets, n - 1).len() {
            law_summaries_name_their_place(buckets, n - 1, i);
        } else if i > 0 {
            law_summaries_name_their_place(buckets, n - 1, i - 1);
        }
    }
}

} // verus!
