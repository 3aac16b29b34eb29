//! The recording accumulator: all mutable state of one recording window.
//!
//! A window owns one [`TestCase`]: per-guest energy series, the temperature
//! series, and the window's start and end timestamps. Series are append-only
//! and never truncated or reordered; both timestamps are set exactly once
//! per window in normal operation. Derived metrics are exact quotients;
//! persistence is rendered as a deterministic plan of metric files that the
//! unverified shell writes to disk.

use vstd::prelude::*;
use crate::errors::AgentError;
use crate::num::{scaled_dec, scaled_dec_signed, PowerRate, TempMean};
use crate::strutil::str_eq;

verus! {

/// Sum of an energy series, in microjoules.
pub open spec fn sum_u64(s: Seq<u64>) -> int
    decreases s.len(),
{
    if s.len() == 0 {
        0
    } else {
        sum_u64(s.drop_last()) + s.last()
    }
}

/// Sum of a temperature series, in millidegrees.
pub open spec fn sum_i64(s: Seq<i64>) -> int
    decreases s.len(),
{
    if s.len() == 0 {
        0
    } else {
        sum_i64(s.drop_last()) + s.last()
    }
}

/// An energy sum lies between zero and `len * u64::MAX`.
pub proof fn lemma_sum_u64_bounds(s: Seq<u64>)
    ensures
        0 <= sum_u64(s) <= s.len() * (u64::MAX as int),
    decreases s.len(),
{
    if s.len() == 0 {
    } else {
        lemma_sum_u64_bounds(s.drop_last());
        let n = s.len() - 1;
        assert((n + 1) * (u64::MAX as int) == n * (u64::MAX as int) + u64::MAX as int)
            by (nonlinear_arith);
    }
}

/// A temperature sum lies between `len * i64::MIN` and `len * i64::MAX`.
pub proof fn lemma_sum_i64_bounds(s: Seq<i64>)
    ensures
        s.len() * (i64::MIN as int) <= sum_i64(s) <= s.len() * (i64::MAX as int),
    decreases s.len(),
{
    if s.len() == 0 {
    } else {
        lemma_sum_i64_bounds(s.drop_last());
        let n = s.len() - 1;
        assert((n + 1) * (i64::MIN as int) == n * (i64::MIN as int) + i64::MIN as int)
            by (nonlinear_arith);
        assert((n + 1) * (i64::MAX as int) == n * (i64::MAX as int) + i64::MAX as int)
            by (nonlinear_arith);
    }
}

/// Index of the first entry keyed `k` in the guest association list, or the
/// list's length when no entry is keyed `k`.
pub open spec fn key_index(vms: Seq<(Seq<char>, Seq<u64>)>, k: Seq<char>) -> int
    decreases vms.len(),
{
    if vms.len() == 0 {
        0
    } else if vms[0].0 == k {
        0
    } else {
        1 + key_index(vms.subrange(1, vms.len() as int), k)
    }
}

/// Some entry of the guest association list is keyed `k`.
pub open spec fn has_key(vms: Seq<(Seq<char>, Seq<u64>)>, k: Seq<char>) -> bool {
    key_index(vms, k) < vms.len()
}

/// The series stored under key `k`.
pub open spec fn series_of(vms: Seq<(Seq<char>, Seq<u64>)>, k: Seq<char>) -> Seq<u64> {
    vms[key_index(vms, k)].1
}

/// `key_index` points at the first entry keyed `k`: everything before it is
/// keyed otherwise, and when it is in range it is keyed `k`.
pub proof fn lemma_key_index(vms: Seq<(Seq<char>, Seq<u64>)>, k: Seq<char>)
    ensures
        0 <= key_index(vms, k) <= vms.len(),
        key_index(vms, k) < vms.len() ==> vms[key_index(vms, k)].0 == k,
        forall|j: int| 0 <= j < key_index(vms, k) ==> vms[j].0 != k,
    decreases vms.len(),
{
    if vms.len() == 0 {
    } else if vms[0].0 == k {
    } else {
        let rest = vms.subrange(1, vms.len() as int);
        lemma_key_index(rest, k);
        let ki = key_index(vms, k);
        assert forall|j: int| 0 <= j < ki implies vms[j].0 != k by {
            if j > 0 {
                assert(vms[j] == rest[j - 1]);
            }
        }
        if ki < vms.len() {
            assert(vms[ki] == rest[ki - 1]);
        }
    }
}

/// Appending one energy share: extends the guest's series when the guest is
/// already known, otherwise appends a fresh singleton entry at the end.
pub open spec fn add_energy_spec(
    vms: Seq<(Seq<char>, Seq<u64>)>,
    k: Seq<char>,
    uj: u64,
) -> Seq<(Seq<char>, Seq<u64>)> {
    if has_key(vms, k) {
        let i = key_index(vms, k);
        vms.update(i, (vms[i].0, vms[i].1.push(uj)))
    } else {
        vms.push((k, seq![uj]))
    }
}

/// Mathematical image of a [`TestCase`].
pub struct TestCaseView {
    pub test_name: Seq<char>,
    pub vms: Seq<(Seq<char>, Seq<u64>)>,
    pub temps: Seq<i64>,
    pub start_recording_s: Option<u64>,
    pub end_recording_s: Option<u64>,
    pub store_base_path: Seq<char>,
}

impl TestCaseView {
    /// Guest keys are unique, and no sample is recorded before the window
    /// has started.
    pub open spec fn wf(&self) -> bool {
        &&& (forall|i: int, j: int|
            0 <= i < j < self.vms.len() ==> (#[trigger] self.vms[i]).0 != (#[trigger] self.vms[j]).0)
        &&& ((self.vms.len() > 0 || self.temps.len() > 0) ==> self.start_recording_s is Some)
    }

    /// The recording has started.
    pub open spec fn started(&self) -> bool {
        self.start_recording_s is Some
    }
}

/// Length of the finalized window in whole seconds, or `None` when the
/// window was never finalized or its end lies before its start.
pub open spec fn duration_of(v: TestCaseView) -> Option<u64> {
    match (v.start_recording_s, v.end_recording_s) {
        (Some(s), Some(e)) => if e >= s {
            Some((e - s) as u64)
        } else {
            None
        },
        _ => None,
    }
}

/// One metric file of the persistence plan: a value rendered as decimal
/// ASCII, to be written (overwritten, not appended) under a per-guest
/// directory.
#[derive(Debug)]
pub struct MetricFile {
    /// Target directory: `<storage base>/<guest name>`.
    pub directory: String,
    /// File name inside the directory.
    pub file_name: String,
    /// Exact bytes of the file.
    pub contents: Vec<u8>,
}

/// Mathematical image of a [`MetricFile`].
pub struct MetricFileView {
    pub directory: Seq<char>,
    pub file_name: Seq<char>,
    pub contents: Seq<u8>,
}

impl View for MetricFile {
    type V = MetricFileView;

    open spec fn view(&self) -> MetricFileView {
        MetricFileView {
            directory: self.directory@,
            file_name: self.file_name@,
            contents: self.contents@,
        }
    }
}

impl DeepView for MetricFile {
    type V = MetricFileView;

    open spec fn deep_view(&self) -> MetricFileView {
        self.view()
    }
}

/// Finalized window length, as a plain value (zero when undefined).
pub open spec fn duration_val(v: TestCaseView) -> u64 {
    match duration_of(v) {
        Some(d) => d,
        None => 0,
    }
}

/// Bytes of a guest's power file: its energy sum over the window length.
pub open spec fn watt_contents(v: TestCaseView, series: Seq<u64>) -> Seq<u8>
    recommends
        duration_val(v) > 0,
{
    scaled_dec(sum_u64(series) as nat, duration_val(v) as nat)
}

/// Bytes of a guest's temperature file: the mean of the window's series.
pub open spec fn temp_contents(v: TestCaseView) -> Seq<u8>
    recommends
        v.temps.len() > 0,
{
    scaled_dec_signed(sum_i64(v.temps), v.temps.len() as nat)
}

/// The per-guest target directory.
pub open spec fn guest_dir(v: TestCaseView, name: Seq<char>) -> Seq<char> {
    v.store_base_path + "/"@ + name
}

/// The plan's files for the first `n` guests, two per guest, in the
/// guests' insertion order.
pub open spec fn plan_entries(v: TestCaseView, n: int) -> Seq<MetricFileView>
    decreases n,
{
    if n <= 0 {
        Seq::empty()
    } else {
        plan_entries(v, n - 1) + seq![
            MetricFileView {
                directory: guest_dir(v, v.vms[n - 1].0),
                file_name: "consumed_watt"@,
                contents: watt_contents(v, v.vms[n - 1].1),
            },
            MetricFileView {
                directory: guest_dir(v, v.vms[n - 1].0),
                file_name: "avg_temp"@,
                contents: temp_contents(v),
            },
        ]
    }
}

/// The whole persistence plan.
pub open spec fn persist_plan(v: TestCaseView) -> Seq<MetricFileView> {
    plan_entries(v, v.vms.len() as int)
}

/// What persisting a window yields: an empty plan for a window that saw no
/// guest; otherwise the full plan, provided the window was finalized with a
/// positive duration and holds at least one temperature sample.
pub open spec fn persist_outcome(v: TestCaseView) -> Result<Seq<MetricFileView>, AgentError> {
    if v.vms.len() == 0 {
        Ok(Seq::empty())
    } else {
        match duration_of(v) {
            None => Err(AgentError::NotFinalized),
            Some(d) => if d == 0 {
                Err(AgentError::ArithmeticUndefined)
            } else if v.temps.len() == 0 {
                Err(AgentError::NoData)
            } else {
                Ok(persist_plan(v))
            },
        }
    }
}

/// The persistence plan is a function of the accumulator state alone: two
/// plans taken from equal states are identical, byte for byte. Persisting
/// does not mutate the accumulator, so persisting twice with no intervening
/// mutation writes byte-identical files.
pub proof fn lemma_persist_deterministic(v1: TestCaseView, v2: TestCaseView)
    requires
        v1 == v2,
    ensures
        persist_outcome(v1) == persist_outcome(v2),
{
}

/// One recording window's mutable state.
pub struct TestCase {
    test_name: String,
    vms: Vec<(String, Vec<u64>)>,
    temps: Vec<i64>,
    start_recording_s: Option<u64>,
    end_recording_s: Option<u64>,
    store_base_path: String,
}

impl View for TestCase {
    type V = TestCaseView;

    closed spec fn view(&self) -> TestCaseView {
        TestCaseView {
            test_name: self.test_name@,
            vms: self.vms.deep_view(),
            temps: self.temps@,
            start_recording_s: self.start_recording_s,
            end_recording_s: self.end_recording_s,
            store_base_path: self.store_base_path@,
        }
    }
}

/// Index of the first entry of `vms` keyed `name`, or `vms`'s length.
fn find_vm(vms: &Vec<(String, Vec<u64>)>, name: &str) -> (r: usize)
    ensures
        r == key_index(vms.deep_view(), name@),
{
    proof {
        lemma_key_index(vms.deep_view(), name@);
    }
    let n = vms.len();
    let mut i: usize = 0;
    while i < n
        invariant
            0 <= i <= n,
            n == vms@.len(),
            vms.deep_view().len() == vms@.len(),
            forall|j: int| 0 <= j < i ==> vms.deep_view()[j].0 != name@,
            0 <= key_index(vms.deep_view(), name@) <= vms.deep_view().len(),
            key_index(vms.deep_view(), name@) < vms.deep_view().len()
                ==> vms.deep_view()[key_index(vms.deep_view(), name@)].0 == name@,
            forall|j: int| 0 <= j < key_index(vms.deep_view(), name@)
                ==> vms.deep_view()[j].0 != name@,
        decreases n - i,
    {
        proof {
            assert(vms.deep_view()[i as int].0 == vms@[i as int].0@);
        }
        if str_eq(vms[i].0.as_str(), name) {
            proof {
                let ki = key_index(vms.deep_view(), name@);
                if ki < i {
                    assert(vms.deep_view()[ki].0 == name@);
                }
                if ki > i {
                    assert(vms.deep_view()[i as int].0 != name@);
                }
            }
            return i;
        }
        i = i + 1;
    }
    n
}

/// Sum of an energy series; fits a `u128` because the series' length and
/// each sample are bounded by the machine word.
fn sum_series(series: &Vec<u64>) -> (s: u128)
    ensures
        s as int == sum_u64(series@),
{
    let n = series.len();
    let mut s: u128 = 0;
    let mut i: usize = 0;
    while i < n
        invariant
            0 <= i <= n,
            n == series@.len(),
            s as int == sum_u64(series@.subrange(0, i as int)),
            0 <= s as int <= (i as int) * (u64::MAX as int),
        decreases n - i,
    {
        proof {
            assert(series@.subrange(0, i + 1).drop_last() =~= series@.subrange(0, i as int));
            let c = i as int;
            assert((c + 1) * (u64::MAX as int) == c * (u64::MAX as int) + u64::MAX as int)
                by (nonlinear_arith);
            assert((c + 1) * (u64::MAX as int) <= u128::MAX) by (nonlinear_arith)
                requires 0 <= c < usize::MAX as int <= u64::MAX as int;
        }
        s = s + series[i] as u128;
        i = i + 1;
    }
    proof {
        assert(series@.subrange(0, n as int) =~= series@);
    }
    s
}

impl TestCase {
    /// A fresh, empty accumulator for the window named `test_case_name`,
    /// persisting under `store_base_path`.
    pub fn new(test_case_name: String, store_base_path: String) -> (r: TestCase)
        ensures
            r@ == (TestCaseView {
                test_name: test_case_name@,
                vms: Seq::empty(),
                temps: Seq::empty(),
                start_recording_s: None,
                end_recording_s: None,
                store_base_path: store_base_path@,
            }),
            r@.wf(),
    {
        let r = TestCase {
            test_name: test_case_name,
            vms: Vec::new(),
            temps: Vec::new(),
            start_recording_s: None,
            end_recording_s: None,
            store_base_path,
        };
        proof {
            assert(r@.vms =~= Seq::<(Seq<char>, Seq<u64>)>::empty());
        }
        r
    }

    /// Marks the window as started at `now_s` (seconds since the epoch). A
    /// second call silently overwrites the start.
    pub fn start_recording(&mut self, now_s: u64)
        ensures
            final(self)@ == (TestCaseView {
                start_recording_s: Some(now_s),
                ..old(self)@
            }),
            old(self)@.wf() ==> final(self)@.wf(),
    {
        self.start_recording_s = Some(now_s);
    }

    /// Marks the window as finished at `now_s` (seconds since the epoch).
    pub fn stop_recording(&mut self, now_s: u64)
        ensures
            final(self)@ == (TestCaseView {
                end_recording_s: Some(now_s),
                ..old(self)@
            }),
            old(self)@.wf() ==> final(self)@.wf(),
    {
        self.end_recording_s = Some(now_s);
    }

    /// Appends one temperature sample (millidegrees) to the window.
    pub fn add_temp_measurement(&mut self, temperature: i64)
        requires
            old(self)@.wf(),
            old(self)@.started(),
        ensures
            final(self)@ == (TestCaseView {
                temps: old(self)@.temps.push(temperature),
                ..old(self)@
            }),
            final(self)@.wf(),
    {
        self.temps.push(temperature);
    }

    /// Appends one energy share (microjoules) to `vm_name`'s series,
    /// creating the series on the guest's first appearance.
    pub fn add_energy(&mut self, vm_name: String, uj: u64)
        requires
            old(self)@.wf(),
            old(self)@.started(),
        ensures
            final(self)@ == (TestCaseView {
                vms: add_energy_spec(old(self)@.vms, vm_name@, uj),
                ..old(self)@
            }),
            final(self)@.wf(),
    {
        proof {
            lemma_key_index(self@.vms, vm_name@);
        }
        let i = find_vm(&self.vms, vm_name.as_str());
        if i < self.vms.len() {
            let ghost oldvms = self@.vms;
            self.vms[i].1.push(uj);
            proof {
                assert(self.vms.deep_view() =~~= oldvms.update(
                    i as int,
                    (oldvms[i as int].0, oldvms[i as int].1.push(uj)),
                ));
                assert(self@.wf());
            }
        } else {
            let ghost oldvms = self@.vms;
            let mut series: Vec<u64> = Vec::new();
            series.push(uj);
            self.vms.push((vm_name, series));
            proof {
                assert(series@ =~= seq![uj]);
                assert(self.vms.deep_view() =~~= oldvms.push((vm_name@, seq![uj])));
                assert forall|a: int, b: int|
                    0 <= a < b < self@.vms.len() implies (#[trigger] self@.vms[a]).0
                    != (#[trigger] self@.vms[b]).0 by {
                    if b < self@.vms.len() - 1 {
                    } else {
                        assert(self@.vms[a].0 == oldvms[a].0);
                    }
                }
            }
        }
    }

    /// The exact mean of the temperature series; `NoData` when the series
    /// is still empty, so no undefined value can ever reach a metric file.
    pub fn get_avg_temp(&self) -> (r: Result<TempMean, AgentError>)
        ensures
            match r {
                Ok(m) => self@.temps.len() > 0 && m.samples as nat == self@.temps.len()
                    && m.sum_millidegrees as int == sum_i64(self@.temps) && m.wf(),
                Err(e) => e == AgentError::NoData && self@.temps.len() == 0,
            },
    {
        let n = self.temps.len();
        if n == 0 {
            return Err(AgentError::NoData);
        }
        let mut s: i128 = 0;
        let mut i: usize = 0;
        while i < n
            invariant
                0 <= i <= n,
                n == self@.temps.len(),
                s as int == sum_i64(self@.temps.subrange(0, i as int)),
                (i as int) * (i64::MIN as int) <= s as int <= (i as int) * (i64::MAX as int),
            decreases n - i,
        {
            proof {
                assert(self@.temps.subrange(0, i + 1).drop_last() =~= self@.temps.subrange(
                    0,
                    i as int,
                ));
                let c = i as int;
                assert((c + 1) * (i64::MIN as int) == c * (i64::MIN as int) + i64::MIN as int)
                    by (nonlinear_arith);
                assert((c + 1) * (i64::MAX as int) == c * (i64::MAX as int) + i64::MAX as int)
                    by (nonlinear_arith);
                assert((c + 1) * (i64::MIN as int) >= i128::MIN) by (nonlinear_arith)
                    requires 0 <= c <= u64::MAX as int;
                assert((c + 1) * (i64::MAX as int) <= i128::MAX) by (nonlinear_arith)
                    requires 0 <= c <= u64::MAX as int;
            }
            s = s + self.temps[i] as i128;
            i = i + 1;
        }
        proof {
            assert(self@.temps.subrange(0, n as int) =~= self@.temps);
        }
        Ok(TempMean { sum_millidegrees: s, samples: n as u64 })
    }

    /// Length of the finalized window in whole seconds; `NotFinalized` when
    /// the window was never finished or its end lies before its start.
    pub fn get_test_duration(&self) -> (r: Result<u64, AgentError>)
        ensures
            match duration_of(self@) {
                Some(d) => r == Ok::<u64, AgentError>(d),
                None => r == Err::<u64, AgentError>(AgentError::NotFinalized),
            },
    {
        match (self.start_recording_s, self.end_recording_s) {
            (Some(s), Some(e)) => if e >= s {
                Ok(e - s)
            } else {
                Err(AgentError::NotFinalized)
            },
            _ => Err(AgentError::NotFinalized),
        }
    }

    /// The guest's exact average power over the window: the sum of its
    /// energy series over the window length. `UnknownGuest` for a guest
    /// never observed; `NotFinalized` and `ArithmeticUndefined` when the
    /// window length is missing or zero.
    pub fn get_watt_consumed_by_vm(&self, vm_name: String) -> (r: Result<PowerRate, AgentError>)
        ensures
            match r {
                Ok(p) => has_key(self@.vms, vm_name@) && duration_of(self@) == Some(p.seconds)
                    && p.seconds > 0
                    && p.microjoules as int == sum_u64(series_of(self@.vms, vm_name@)) && p.wf(),
                Err(e) => if !has_key(self@.vms, vm_name@) {
                    e == AgentError::UnknownGuest
                } else {
                    match duration_of(self@) {
                        None => e == AgentError::NotFinalized,
                        Some(d) => d == 0 && e == AgentError::ArithmeticUndefined,
                    }
                },
            },
    {
        let i = find_vm(&self.vms, vm_name.as_str());
        proof {
            lemma_key_index(self@.vms, vm_name@);
        }
        if i >= self.vms.len() {
            return Err(AgentError::UnknownGuest);
        }
        let d = match self.get_test_duration() {
            Ok(d) => d,
            Err(_) => {
                return Err(AgentError::NotFinalized);
            },
        };
        if d == 0 {
            return Err(AgentError::ArithmeticUndefined);
        }
        let s = sum_series(&self.vms[i].1);
        proof {
            assert(self.vms.deep_view()[i as int].1 == self.vms@[i as int].1@);
        }
        Ok(PowerRate { microjoules: s, seconds: d })
    }

    /// The window's persistence plan: for every guest with a series, its
    /// average power and the window's average temperature, rendered as the
    /// exact bytes of two metric files under the guest's directory. The
    /// plan depends only on the accumulator state, so persisting twice with
    /// no intervening mutation writes byte-identical files.
    pub fn store_test_data(&self) -> (r: Result<Vec<MetricFile>, AgentError>)
        ensures
            match r {
                Ok(files) => persist_outcome(self@) == Ok::<Seq<MetricFileView>, AgentError>(
                    files.deep_view(),
                ),
                Err(e) => persist_outcome(self@) == Err::<Seq<MetricFileView>, AgentError>(e),
            },
    {
        let mut files: Vec<MetricFile> = Vec::new();
        let n = self.vms.len();
        if n == 0 {
            proof {
                assert(files.deep_view() =~= Seq::<MetricFileView>::empty());
            }
            return Ok(files);
        }
        let d = match self.get_test_duration() {
            Ok(d) => d,
            Err(_) => {
                return Err(AgentError::NotFinalized);
            },
        };
        if d == 0 {
            return Err(AgentError::ArithmeticUndefined);
        }
        let mean = match self.get_avg_temp() {
            Ok(m) => m,
            Err(_) => {
                return Err(AgentError::NoData);
            },
        };
        let mut i: usize = 0;
        while i < n
            invariant
                0 <= i <= n,
                n == self@.vms.len(),
                self.vms@.len() == n,
                duration_of(self@) == Some(d),
                d > 0,
                mean.samples as nat == self@.temps.len(),
                mean.sum_millidegrees as int == sum_i64(self@.temps),
                mean.wf(),
                files.deep_view() == plan_entries(self@, i as int),
            decreases n - i,
        {
            let dir = self.store_base_path.clone().concat("/").concat(self.vms[i].0.as_str());
            proof {
                assert(self.vms.deep_view()[i as int].0 == self.vms@[i as int].0@);
                assert(self.vms.deep_view()[i as int].1 == self.vms@[i as int].1@);
                assert(dir@ =~= guest_dir(self@, self@.vms[i as int].0));
            }
            let s = sum_series(&self.vms[i].1);
            let power = PowerRate { microjoules: s, seconds: d };
            let watt_file = MetricFile {
                directory: dir.clone(),
                file_name: String::from_str("consumed_watt"),
                contents: power.render(),
            };
            let temp_file = MetricFile {
                directory: dir,
                file_name: String::from_str("avg_temp"),
                contents: mean.render(),
            };
            files.push(watt_file);
            files.push(temp_file);
            proof {
                assert(files.deep_view() =~= plan_entries(self@, i + 1));
            }
            i = i + 1;
        }
        proof {
            assert(files.deep_view() == persist_plan(self@));
        }
        Ok(files)
    }
}

} // verus!
