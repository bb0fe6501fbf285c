//! Activity metrics reporting.

use vstd::prelude::*;

use crate::text::{chars_eq_str, chars_of, find_char, first_index_of, str_eq, string_from, sub_chars};
use crate::variation::{last_value, lemma_last_value_update};

verus! {

/// A counter set for a single data file or variation module. Counters wrap
/// around at `u64::MAX`.
#[derive(Debug, Default, Clone, Copy, PartialEq, Eq)]
pub struct Metrics {
    pub transport_calls: u64,
    pub datafile_calls: u64,
    pub datafile_failures: u64,
    pub varbind_count: u64,
    pub variation_calls: u64,
    pub variation_failures: u64,
}

impl Metrics {
    /// All counters at zero.
    pub open spec fn zero() -> Metrics {
        Metrics {
            transport_calls: 0,
            datafile_calls: 0,
            datafile_failures: 0,
            varbind_count: 0,
            variation_calls: 0,
            variation_failures: 0,
        }
    }

    pub fn new() -> (r: Metrics)
        ensures
            r == Metrics::zero(),
    {
        Metrics {
            transport_calls: 0,
            datafile_calls: 0,
            datafile_failures: 0,
            varbind_count: 0,
            variation_calls: 0,
            variation_failures: 0,
        }
    }

    pub fn transport_calls(&self) -> (r: u64)
        ensures
            r == self.transport_calls,
    {
        self.transport_calls
    }

    pub fn datafile_calls(&self) -> (r: u64)
        ensures
            r == self.datafile_calls,
    {
        self.datafile_calls
    }

    pub fn varbind_count(&self) -> (r: u64)
        ensures
            r == self.varbind_count,
    {
        self.varbind_count
    }
}

/// The counters after one update: each flag counts one call, and the
/// var-bind count grows by `n`.
pub open spec fn bumped(
    m: Option<Metrics>,
    transport_call: bool,
    datafile_call: bool,
    datafile_failure: bool,
    n: u64,
) -> Metrics {
    let b = match m {
        Some(x) => x,
        None => Metrics::zero(),
    };
    Metrics {
        transport_calls: if transport_call {
            b.transport_calls.wrapping_add(1)
        } else {
            b.transport_calls
        },
        datafile_calls: if datafile_call {
            b.datafile_calls.wrapping_add(1)
        } else {
            b.datafile_calls
        },
        datafile_failures: if datafile_failure {
            b.datafile_failures.wrapping_add(1)
        } else {
            b.datafile_failures
        },
        varbind_count: b.varbind_count.wrapping_add(n),
        variation_calls: b.variation_calls,
        variation_failures: b.variation_failures,
    }
}

/// One call of [`ReportingManager::update`]: the data file and what is
/// counted for it.
pub struct MetricsUpdate {
    pub data_file: Seq<char>,
    pub transport_call: bool,
    pub datafile_call: bool,
    pub datafile_failure: bool,
    pub varbind_count: u64,
}

/// `after` holds the metrics of `before` with update `u` applied: the file
/// that `u` names has its counters bumped, every other file keeps its own.
pub open spec fn update_step(
    before: Seq<(Seq<char>, Metrics)>,
    after: Seq<(Seq<char>, Metrics)>,
    u: MetricsUpdate,
) -> bool {
    forall|k: Seq<char>|
        #![trigger last_value(after, k)]
        last_value(after, k) == if k == u.data_file {
            Some(
                bumped(
                    last_value(before, k),
                    u.transport_call,
                    u.datafile_call,
                    u.datafile_failure,
                    u.varbind_count,
                ),
            )
        } else {
            last_value(before, k)
        }
}

/// For a file, over a series of updates: whether any update names it, how
/// many of those flag a transport call, a data-file call and a data-file
/// failure, and the sum of their var-bind counts.
pub open spec fn tally(us: Seq<MetricsUpdate>, f: Seq<char>) -> (bool, nat, nat, nat, nat)
    decreases us.len(),
{
    if us.len() == 0 {
        (false, 0, 0, 0, 0)
    } else {
        let (t, a, b, c, d) = tally(us.drop_last(), f);
        let u = us.last();
        if u.data_file == f {
            (
                true,
                a + if u.transport_call {
                    1nat
                } else {
                    0nat
                },
                b + if u.datafile_call {
                    1nat
                } else {
                    0nat
                },
                c + if u.datafile_failure {
                    1nat
                } else {
                    0nat
                },
                d + u.varbind_count as nat,
            )
        } else {
            (t, a, b, c, d)
        }
    }
}

/// `n` modulo 2^64.
pub open spec fn wrap64(n: nat) -> u64 {
    (n % 0x1_0000_0000_0000_0000) as u64
}

/// The metrics of a file after a series of updates that start from no
/// metrics: its counts, each modulo 2^64; none if no update names it.
pub open spec fn tallied(us: Seq<MetricsUpdate>, f: Seq<char>) -> Option<Metrics> {
    let (t, a, b, c, d) = tally(us, f);
    if t {
        Some(
            Metrics {
                transport_calls: wrap64(a),
                datafile_calls: wrap64(b),
                datafile_failures: wrap64(c),
                varbind_count: wrap64(d),
                variation_calls: 0,
                variation_failures: 0,
            },
        )
    } else {
        None
    }
}

/// Central reporting manager: accumulates metrics per data file; a JSON
/// reporter has the metrics written to a file when they are flushed.
pub struct ReportingManager {
    /// Metrics by data file; a later pair overrides an earlier one.
    pub metrics: Vec<(String, Metrics)>,
    /// Where a JSON reporter writes; `None` discards the metrics.
    pub json_path: Option<String>,
    /// A reporter that flushed metrics are handed to.
    pub reporter: Option<Box<dyn Reporter>>,
}

impl ReportingManager {
    /// The metrics by data file name.
    pub open spec fn view(&self) -> Seq<(Seq<char>, Metrics)> {
        Seq::new(self.metrics@.len(), |i: int| (self.metrics@[i].0@, self.metrics@[i].1))
    }

    /// Create a manager whose flushed metrics are handed to `reporter`. The
    /// manager holds a reporter; that it is the very one given is not stated
    /// (Verus does not follow a `Box<dyn Reporter>` through the move).
    pub fn new(reporter: Box<dyn Reporter>) -> (r: ReportingManager)
        ensures
            r.view() == Seq::<(Seq<char>, Metrics)>::empty(),
            r.json_path is None,
            r.reporter is Some,
    {
        let r = ReportingManager { metrics: Vec::new(), json_path: None, reporter: Some(reporter) };
        assert(r.view() =~= Seq::<(Seq<char>, Metrics)>::empty());
        r
    }

    /// Create a manager that silently discards all metrics.
    pub fn null() -> (r: ReportingManager)
        ensures
            r.view() == Seq::<(Seq<char>, Metrics)>::empty(),
            r.json_path is None,
            r.reporter is None,
    {
        let r = ReportingManager { metrics: Vec::new(), json_path: None, reporter: None };
        assert(r.view() =~= Seq::<(Seq<char>, Metrics)>::empty());
        r
    }

    /// Create a manager that writes JSON metrics to a file.
    pub fn json(path: &str) -> (r: ReportingManager)
        ensures
            r.view() == Seq::<(Seq<char>, Metrics)>::empty(),
            r.json_path matches Some(p) && p@ == path@,
            r.reporter is None,
    {
        let r = ReportingManager {
            metrics: Vec::new(),
            json_path: Some(crate::text::copy_string(path)),
            reporter: None,
        };
        assert(r.view() =~= Seq::<(Seq<char>, Metrics)>::empty());
        r
    }

    /// The position of the last pair for `name`.
    fn find_last(&self, name: &str) -> (r: Option<usize>)
        ensures
            r matches Some(i) ==> i < self.view().len() && self.view()[i as int].0 == name@
                && forall|j: int| i < j < self.view().len() ==> self.view()[j].0 != name@,
            r is None ==> forall|j: int| 0 <= j < self.view().len() ==> self.view()[j].0 != name@,
    {
        let mut i: usize = self.metrics.len();
        while i > 0
            invariant
                i <= self.metrics@.len(),
                forall|j: int| i <= j < self.view().len() ==> self.view()[j].0 != name@,
            decreases i,
        {
            if str_eq(self.metrics[i - 1].0.as_str(), name) {
                return Some(i - 1);
            }
            i -= 1;
        }
        None
    }

    /// Update metrics for a data file.
    pub fn update(
        &mut self,
        data_file: &str,
        transport_call: bool,
        datafile_call: bool,
        datafile_failure: bool,
        varbind_count: u64,
    )
        ensures
            final(self).json_path == old(self).json_path,
            final(self).reporter == old(self).reporter,
            update_step(
                old(self).view(),
                final(self).view(),
                MetricsUpdate {
                    data_file: data_file@,
                    transport_call,
                    datafile_call,
                    datafile_failure,
                    varbind_count,
                },
            ),
    {
        let ghost v0 = self.view();
        let found = self.find_last(data_file);
        if let Some(k) = found {
            let old_m = self.metrics[k].1;
            proof {
                lemma_last_value_update(v0, k as int, old_m);
                assert(v0.update(k as int, (v0[k as int].0, old_m)) =~= v0);
            }
            let m = Metrics {
                transport_calls: if transport_call {
                    old_m.transport_calls.wrapping_add(1)
                } else {
                    old_m.transport_calls
                },
                datafile_calls: if datafile_call {
                    old_m.datafile_calls.wrapping_add(1)
                } else {
                    old_m.datafile_calls
                },
                datafile_failures: if datafile_failure {
                    old_m.datafile_failures.wrapping_add(1)
                } else {
                    old_m.datafile_failures
                },
                varbind_count: old_m.varbind_count.wrapping_add(varbind_count),
                variation_calls: old_m.variation_calls,
                variation_failures: old_m.variation_failures,
            };
            let name = crate::text::copy_string(data_file);
            self.metrics.set(k, (name, m));
            proof {
                lemma_last_value_update(v0, k as int, m);
                assert(self.view() =~= v0.update(k as int, (v0[k as int].0, m)));
            }
        } else {
            proof {
                crate::variation::lemma_last_value_absent(v0, data_file@);
            }
            let b = Metrics::new();
            let m = Metrics {
                transport_calls: if transport_call {
                    1
                } else {
                    0
                },
                datafile_calls: if datafile_call {
                    1
                } else {
                    0
                },
                datafile_failures: if datafile_failure {
                    1
                } else {
                    0
                },
                varbind_count: varbind_count,
                variation_calls: b.variation_calls,
                variation_failures: b.variation_failures,
            };
            self.metrics.push((crate::text::copy_string(data_file), m));
            proof {
                assert(self.view() =~= v0.push((data_file@, m)));
                assert(self.view().drop_last() =~= v0);
            }
        }
    }

    /// A copy of the metrics, as they stand.
    pub fn snapshot(&self) -> (r: Vec<(String, Metrics)>)
        ensures
            metrics_view(r@) == self.view(),
    {
        let mut out: Vec<(String, Metrics)> = Vec::new();
        let mut i: usize = 0;
        while i < self.metrics.len()
            invariant
                i <= self.metrics@.len(),
                out@.len() == i,
                Seq::new(out@.len(), |j: int| (out@[j].0@, out@[j].1)) == self.view().take(i as int),
            decreases self.metrics@.len() - i,
        {
            let name = crate::text::copy_string(self.metrics[i].0.as_str());
            out.push((name, self.metrics[i].1));
            assert(out@[i as int].0@ == self.view()[i as int].0);
            assert(Seq::new(out@.len(), |j: int| (out@[j].0@, out@[j].1)) =~= self.view().take(
                i + 1,
            ));
            i += 1;
        }
        assert(self.view().take(self.metrics@.len() as int) =~= self.view());
        out
    }

    /// Flush the accumulated metrics. A manager made with a reporter hands it
    /// a snapshot of them, and returns that same snapshot; a manager with a
    /// JSON file returns its path and a snapshot to write there; any other
    /// manager discards them. No counter changes. (That the reporter is
    /// called is not stated: a report call on a user's `dyn Reporter` leaves
    /// nothing that a contract can speak of.)
    pub fn flush(&self) -> (r: Flushed)
        ensures
            match r {
                Flushed::Reported(s) => self.reporter is Some && metrics_view(s@) == self.view(),
                Flushed::Json(p, s) => self.reporter is None && (self.json_path matches Some(q)
                    && p@ == q@) && metrics_view(s@) == self.view(),
                Flushed::Discarded => discards(*self),
            },
    {
        if let Some(rep) = &self.reporter {
            let snap = self.snapshot();
            rep.report(&snap);
            return Flushed::Reported(snap);
        }
        match &self.json_path {
            None => Flushed::Discarded,
            Some(p) => Flushed::Json(crate::text::copy_string(p.as_str()), self.snapshot()),
        }
    }
}

/// What a flush did with the metrics.
pub enum Flushed {
    /// The manager has no reporter and no JSON file: the metrics are
    /// discarded.
    Discarded,
    /// This snapshot of the metrics was handed to the manager's reporter.
    Reported(Vec<(String, Metrics)>),
    /// The metrics are to be written as JSON to this file.
    Json(String, Vec<(String, Metrics)>),
}

/// A list of metrics by data file, as texts and counters.
pub open spec fn metrics_view(v: Seq<(String, Metrics)>) -> Seq<(Seq<char>, Metrics)> {
    Seq::new(v.len(), |i: int| (v[i].0@, v[i].1))
}

/// The manager has neither a reporter nor a JSON file, so its metrics go
/// nowhere.
pub open spec fn discards(m: ReportingManager) -> bool {
    m.reporter is None && m.json_path is None
}

/// Where the metrics of a reporting method go: `json` writes them to
/// `/tmp/snmpsim-metrics.json`, `json:<path>` to `<path>`; any other method
/// discards them (`None`).
pub open spec fn reporting_target(method: Seq<char>) -> Option<Seq<char>> {
    match first_index_of(method, ':') {
        Some(k) => if method.take(k) == "json"@ {
            Some(method.skip(k + 1))
        } else {
            None
        },
        None => if method == "json"@ {
            Some("/tmp/snmpsim-metrics.json"@)
        } else {
            None
        },
    }
}

/// The reporting manager for a reporting method (`null`, `json` or
/// `json:<path>`).
pub fn configure_reporting(method: &str) -> (r: ReportingManager)
    ensures
        r.view() == Seq::<(Seq<char>, Metrics)>::empty(),
        match reporting_target(method@) {
            Some(p) => r.json_path matches Some(q) && q@ == p,
            None => r.json_path is None,
        },
        r.reporter is None,
{
    let m = chars_of(method);
    match find_char(m.as_slice(), ':') {
        Some(k) => {
            assert(k < m@.len() && m@.len() == m.len());
            let head = sub_chars(m.as_slice(), 0, k);
            proof {
                assert(head@ =~= method@.take(k as int));
            }
            if chars_eq_str(head.as_slice(), "json") {
                let tail = sub_chars(m.as_slice(), k + 1, m.len());
                proof {
                    assert(tail@ =~= method@.skip(k + 1));
                }
                let path = string_from(tail.as_slice());
                ReportingManager::json(path.as_str())
            } else {
                ReportingManager::null()
            }
        },
        None => {
            if str_eq(method, "json") {
                ReportingManager::json("/tmp/snmpsim-metrics.json")
            } else {
                ReportingManager::null()
            }
        },
    }
}

/// Where accumulated metrics are delivered.
pub trait Reporter: Send + Sync {
    /// Deliver the metrics of each data file.
    fn report(&self, metrics: &Vec<(String, Metrics)>);
}

/// Discards all metrics.
pub struct NullReporter;

impl Reporter for NullReporter {
    fn report(&self, metrics: &Vec<(String, Metrics)>) {
    }
}

// ─── Laws ────────────────────────────────────────────────────────────────────

proof fn lemma_tally_untouched(us: Seq<MetricsUpdate>, f: Seq<char>)
    ensures
        !tally(us, f).0 ==> tally(us, f) == (false, 0nat, 0nat, 0nat, 0nat),
    decreases us.len(),
{
    if us.len() > 0 {
        lemma_tally_untouched(us.drop_last(), f);
    }
}

proof fn lemma_wrap_add(a: nat, d: u64)
    ensures
        wrap64(a).wrapping_add(d) == wrap64(a + d as nat),
{
    let m: int = 0x1_0000_0000_0000_0000;
    let x: int = (a as int) % m;
    vstd::arithmetic::div_mod::lemma_add_mod_noop_right(d as int, a as int, m);
    assert((d + x) % m == (a + d) % m);
    if x + d < m {
        vstd::arithmetic::div_mod::lemma_small_mod((x + d) as nat, m as nat);
    } else {
        vstd::arithmetic::div_mod::lemma_mod_add_multiples_vanish(x + d - m, m);
        vstd::arithmetic::div_mod::lemma_small_mod((x + d - m) as nat, m as nat);
    }
}

proof fn lemma_tally_prefix(
    views: Seq<Seq<(Seq<char>, Metrics)>>,
    us: Seq<MetricsUpdate>,
    f: Seq<char>,
    i: int,
)
    requires
        views.len() == us.len() + 1,
        0 <= i <= us.len(),
        forall|k: Seq<char>| #[trigger] last_value(views[0], k) is None,
        forall|j: int| 0 <= j < us.len() ==> #[trigger] update_step(views[j], views[j + 1], us[j]),
    ensures
        last_value(views[i], f) == tallied(us.take(i), f),
    decreases i,
{
    if i == 0 {
        assert(us.take(0) =~= Seq::<MetricsUpdate>::empty());
        assert(last_value(views[0], f) is None);
    } else {
        lemma_tally_prefix(views, us, f, i - 1);
        let p = us.take(i - 1);
        assert(us.take(i).drop_last() =~= p);
        assert(us.take(i).last() == us[i - 1]);
        let j = i - 1;
        assert(update_step(views[j], views[j + 1], us[j]));
        assert(j + 1 == i);
        assert(last_value(views[i], f) == if f == us[i - 1].data_file {
            Some(
                bumped(
                    last_value(views[i - 1], f),
                    us[i - 1].transport_call,
                    us[i - 1].datafile_call,
                    us[i - 1].datafile_failure,
                    us[i - 1].varbind_count,
                ),
            )
        } else {
            last_value(views[i - 1], f)
        });
        lemma_tally_untouched(p, f);
        let (t, a, b, c, d) = tally(p, f);
        lemma_wrap_add(a, 1);
        lemma_wrap_add(b, 1);
        lemma_wrap_add(c, 1);
        lemma_wrap_add(d, us[i - 1].varbind_count);
        assert(wrap64(0) == 0);
    }
}

/// Flushed metrics count the updates: for a manager that starts with no
/// metrics (as `new`, `null` and `json` make it) and goes through a series
/// of `update` calls (`views[j]` its metrics before call `j`), the metrics
/// it then holds, and hands out when flushed, give each file the number of
/// its updates that flagged a transport call, a data-file call and a
/// data-file failure and the sum of its var-bind counts, each modulo 2^64;
/// a file that no update named has none.
pub proof fn lemma_updates_tally(
    views: Seq<Seq<(Seq<char>, Metrics)>>,
    us: Seq<MetricsUpdate>,
    f: Seq<char>,
)
    requires
        views.len() == us.len() + 1,
        forall|k: Seq<char>| #[trigger] last_value(views[0], k) is None,
        forall|j: int| 0 <= j < us.len() ==> #[trigger] update_step(views[j], views[j + 1], us[j]),
    ensures
        last_value(views[us.len() as int], f) == tallied(us, f),
{
    lemma_tally_prefix(views, us, f, us.len() as int);
    assert(us.take(us.len() as int) =~= us);
}

/// A manager made by `null` discards everything: through any series of
/// `update` calls (`ms[j]` the manager before call `j`; an update keeps the
/// reporter and the JSON path) it keeps neither a reporter nor a JSON file,
/// so a flush at any point hands the metrics to no one and writes nothing.
pub proof fn lemma_null_discards(ms: Seq<ReportingManager>)
    requires
        ms.len() > 0,
        discards(ms[0]),
        forall|j: int|
            0 <= j < ms.len() - 1 ==> (#[trigger] ms[j + 1]).reporter == ms[j].reporter
                && ms[j + 1].json_path == ms[j].json_path,
    ensures
        forall|j: int| 0 <= j < ms.len() ==> discards(#[trigger] ms[j]),
{
    assert forall|j: int| 0 <= j < ms.len() implies discards(#[trigger] ms[j]) by {
        lemma_discards_prefix(ms, j);
    }
}

proof fn lemma_discards_prefix(ms: Seq<ReportingManager>, j: int)
    requires
        0 <= j < ms.len(),
        discards(ms[0]),
        forall|k: int|
            0 <= k < ms.len() - 1 ==> (#[trigger] ms[k + 1]).reporter == ms[k].reporter
                && ms[k + 1].json_path == ms[k].json_path,
    ensures
        discards(ms[j]),
    decreases j,
{
    if j > 0 {
        lemma_discards_prefix(ms, j - 1);
        let k = j - 1;
        assert(ms[k + 1].reporter == ms[k].reporter);
    }
}

} // verus!
