//! The attribution sampler: one tick of proportional energy attribution.
//!
//! Each tick the unverified shell refreshes the counter subsystem and hands
//! in a [`TickSample`]: the host-wide energy delta (as the counter's decimal
//! text), the host-wide CPU-time delta in jiffies, a snapshot of every live
//! process's sample history (newest first), and the enumerated thermal
//! zones. [`QemuExporter::iteration`] filters the histories to qemu guest
//! processes, computes each guest's CPU-time delta, derives its
//! proportional share of the host energy delta, and records the shares and
//! one temperature sample into the active [`TestCase`].
//!
//! Degradation favours forward progress: an absent or malformed counter
//! value, a too-short history, a zero host-time delta or an unrepresentable
//! share each skip only the affected contribution, never the tick or the
//! window.

use vstd::prelude::*;
use vstd::arithmetic::div_mod::{
    lemma_div_is_ordered, lemma_div_multiples_vanish, lemma_div_of0,
    lemma_fundamental_div_mod, lemma_mod_bound, lemma_multiply_divide_le,
};
use vstd::arithmetic::mul::{
    lemma_mul_inequality, lemma_mul_is_distributive_add, lemma_mul_nonnegative,
};
use crate::num::{all_dec_digits, dec_val, parse_u64};
use crate::strutil::{first_at_or_after, has_prefix, has_substring, str_contains, str_has_prefix, str_find_from};
use crate::testcase::{
    add_energy_spec, has_key, key_index, lemma_key_index, sum_u64, TestCase, TestCaseView,
};
use crate::thermal::{read_temp, zones_average, zones_count, ThermalZone, ThermalZoneView};

verus! {

/// Number of sampling ticks in one recording window.
pub const TICKS_PER_WINDOW: u64 = 12;

/// One entry of a process's sample history: the process's cumulative CPU
/// time and the command line observed with it (`None` when the process
/// exited while its command line was being read).
#[derive(Clone, Debug)]
pub struct ProcessRecord {
    /// Cumulative CPU time of the process, in jiffies.
    pub total_time_jiffies: u64,
    /// Command-line tokens, or `None` when the read failed.
    pub cmdline: Option<Vec<String>>,
}

/// Mathematical image of a [`ProcessRecord`].
pub struct ProcessRecordView {
    pub total_time_jiffies: u64,
    pub cmdline: Option<Seq<Seq<char>>>,
}

impl View for ProcessRecord {
    type V = ProcessRecordView;

    open spec fn view(&self) -> ProcessRecordView {
        ProcessRecordView {
            total_time_jiffies: self.total_time_jiffies,
            cmdline: match self.cmdline {
                Some(ref toks) => Some(toks.deep_view()),
                None => None,
            },
        }
    }
}

impl DeepView for ProcessRecord {
    type V = ProcessRecordView;

    open spec fn deep_view(&self) -> ProcessRecordView {
        self.view()
    }
}

/// The host-wide energy consumed since the previous sample, as the counter
/// subsystem reports it: a decimal text in microjoules, with the sample's
/// timestamp.
pub struct EnergyDelta {
    /// Microjoules since the previous sample, as decimal ASCII text.
    pub value_text: String,
    /// Timestamp of the sample, in seconds since the epoch.
    pub timestamp_s: u64,
}

/// Mathematical image of an [`EnergyDelta`].
pub struct EnergyDeltaView {
    pub value_text: Seq<char>,
    pub timestamp_s: u64,
}

impl View for EnergyDelta {
    type V = EnergyDeltaView;

    open spec fn view(&self) -> EnergyDeltaView {
        EnergyDeltaView { value_text: self.value_text@, timestamp_s: self.timestamp_s }
    }
}

/// Everything one sampling tick reads from the outside world.
pub struct TickSample {
    /// Host-wide energy delta; `None` until the counter subsystem has
    /// accumulated two samples.
    pub energy_delta: Option<EnergyDelta>,
    /// Host-wide aggregate CPU-time delta in jiffies; `None` on cold start.
    pub time_delta: Option<u64>,
    /// Sample history of every live process, newest entry first.
    pub processes: Vec<Vec<ProcessRecord>>,
    /// Enumerated thermal zones; `None` when the zone directory could not
    /// be enumerated.
    pub thermal_zones: Option<Vec<ThermalZone>>,
}

/// Mathematical image of a [`TickSample`].
pub struct TickSampleView {
    pub energy_delta: Option<EnergyDeltaView>,
    pub time_delta: Option<u64>,
    pub processes: Seq<Seq<ProcessRecordView>>,
    pub thermal_zones: Option<Seq<ThermalZoneView>>,
}

impl View for TickSample {
    type V = TickSampleView;

    open spec fn view(&self) -> TickSampleView {
        TickSampleView {
            energy_delta: match self.energy_delta {
                Some(ref ed) => Some(ed@),
                None => None,
            },
            time_delta: self.time_delta,
            processes: self.processes.deep_view(),
            thermal_zones: match self.thermal_zones {
                Some(ref zs) => Some(zs.deep_view()),
                None => None,
            },
        }
    }
}

/// The host-wide deltas one tick attributes against, when the tick can
/// attribute at all: the CPU-time delta in jiffies and the energy delta in
/// microjoules, the latter parsed from the counter's decimal text. `None`
/// when either delta is absent or the text is malformed or out of range;
/// such a tick skips attribution but still samples the temperature.
pub open spec fn tick_energy_inputs(s: TickSampleView) -> Option<(u64, u64)> {
    match (s.energy_delta, s.time_delta) {
        (Some(ed), Some(t)) => if ed.value_text.len() > 0 && all_dec_digits(ed.value_text)
            && dec_val(ed.value_text) <= u64::MAX {
            Some((t, dec_val(ed.value_text) as u64))
        } else {
            None
        },
        _ => None,
    }
}

/// What one guest history contributes in one tick: the guest's identity and
/// its energy share `guest_time_delta * e / t`, in microjoules. `None` when
/// the history is too short, the host time delta is zero, the command line
/// was unreadable, the jiffies counter went backwards, or the share does
/// not fit a `u64`: every such case skips only this contribution.
pub open spec fn history_contribution(h: Seq<ProcessRecordView>, t: u64, e: u64) -> Option<
    (Seq<char>, u64),
> {
    if h.len() < 2 || t == 0 {
        None
    } else {
        match h[0].cmdline {
            None => None,
            Some(toks) => {
                if h[0].total_time_jiffies < h[1].total_time_jiffies {
                    None
                } else {
                    let d = h[0].total_time_jiffies - h[1].total_time_jiffies;
                    let s = (d as int) * (e as int) / (t as int);
                    if s > u64::MAX {
                        None
                    } else {
                        Some((vm_name_of_cmdline(toks), s as u64))
                    }
                }
            },
        }
    }
}

/// Applying one contribution to the guest series.
pub open spec fn apply_contribution(
    vms: Seq<(Seq<char>, Seq<u64>)>,
    c: Option<(Seq<char>, u64)>,
) -> Seq<(Seq<char>, Seq<u64>)> {
    match c {
        Some(p) => add_energy_spec(vms, p.0, p.1),
        None => vms,
    }
}

/// Applying the contributions of all histories, in order.
pub open spec fn apply_all(
    vms: Seq<(Seq<char>, Seq<u64>)>,
    hs: Seq<Seq<ProcessRecordView>>,
    t: u64,
    e: u64,
) -> Seq<(Seq<char>, Seq<u64>)>
    decreases hs.len(),
{
    if hs.len() == 0 {
        vms
    } else {
        apply_all(
            apply_contribution(vms, history_contribution(hs[0], t, e)),
            hs.subrange(1, hs.len() as int),
            t,
            e,
        )
    }
}

/// The guest series after one tick: unchanged when the tick cannot
/// attribute, otherwise every qemu history's contribution applied in order.
pub open spec fn tick_vms(vms: Seq<(Seq<char>, Seq<u64>)>, s: TickSampleView) -> Seq<
    (Seq<char>, Seq<u64>),
> {
    match tick_energy_inputs(s) {
        None => vms,
        Some(te) => apply_all(vms, filter_qemu(s.processes), te.0, te.1),
    }
}

/// The temperature scalar one tick records: the truncated mean of the
/// readable zones, with a fallback of zero when the zones could not be
/// enumerated or none was readable.
pub open spec fn tick_temperature(zones: Option<Seq<ThermalZoneView>>) -> i64 {
    match zones {
        None => 0,
        Some(zs) => if zones_count(zs) == 0 {
            0
        } else {
            zones_average(zs) as i64
        },
    }
}

/// A command-line token assigning the guest name: `guest=<name>[,...]`.
pub open spec fn is_guest_token(t: Seq<char>) -> bool {
    has_prefix(t, "guest="@)
}

/// The name carried by a guest token: the characters after `guest=` and
/// before the first comma.
pub open spec fn guest_name_of_token(t: Seq<char>) -> Seq<char>
    recommends
        is_guest_token(t),
{
    t.subrange(6, first_at_or_after(t, ',', 6))
}

/// The guest identity a command line resolves to: the name of its first
/// guest token, or the empty identity when no token assigns one (all
/// unmatched guest-like processes aggregate under the empty-string bucket).
pub open spec fn vm_name_of_cmdline(toks: Seq<Seq<char>>) -> Seq<char>
    decreases toks.len(),
{
    if toks.len() == 0 {
        Seq::empty()
    } else if is_guest_token(toks[0]) {
        guest_name_of_token(toks[0])
    } else {
        vm_name_of_cmdline(toks.subrange(1, toks.len() as int))
    }
}

/// A history belongs to a qemu guest process: its newest record's command
/// line was readable and some token carries the qemu marker.
pub open spec fn is_qemu_history(h: Seq<ProcessRecordView>) -> bool {
    h.len() > 0 && (match h[0].cmdline {
        Some(toks) => exists|k: int|
            0 <= k < toks.len() && has_substring(#[trigger] toks[k], "qemu-system"@),
        None => false,
    })
}

/// The histories that look like qemu guest processes, in their original
/// order.
pub open spec fn filter_qemu(ps: Seq<Seq<ProcessRecordView>>) -> Seq<Seq<ProcessRecordView>>
    decreases ps.len(),
{
    if ps.len() == 0 {
        Seq::empty()
    } else if is_qemu_history(ps[0]) {
        seq![ps[0]] + filter_qemu(ps.subrange(1, ps.len() as int))
    } else {
        filter_qemu(ps.subrange(1, ps.len() as int))
    }
}

/// Every filtered history is a qemu history.
pub proof fn lemma_filter_qemu_all(ps: Seq<Seq<ProcessRecordView>>)
    ensures
        forall|i: int| 0 <= i < filter_qemu(ps).len() ==> is_qemu_history(#[trigger] filter_qemu(ps)[i]),
    decreases ps.len(),
{
    if ps.len() == 0 {
    } else {
        let rest = ps.subrange(1, ps.len() as int);
        lemma_filter_qemu_all(rest);
        if is_qemu_history(ps[0]) {
            assert forall|i: int| 0 <= i < filter_qemu(ps).len() implies is_qemu_history(
                #[trigger] filter_qemu(ps)[i],
            ) by {
                if i == 0 {
                    assert(filter_qemu(ps)[0] == ps[0]);
                } else {
                    assert(filter_qemu(ps)[i] == filter_qemu(rest)[i - 1]);
                }
            }
        } else {
            assert forall|i: int| 0 <= i < filter_qemu(ps).len() implies is_qemu_history(
                #[trigger] filter_qemu(ps)[i],
            ) by {
                assert(filter_qemu(ps)[i] == filter_qemu(rest)[i]);
            }
        }
    }
}

/// Whether `h` is a qemu guest history.
fn history_is_qemu(h: &Vec<ProcessRecord>) -> (r: bool)
    ensures
        r == is_qemu_history(h.deep_view()),
{
    if h.len() == 0 {
        return false;
    }
    proof {
        assert(h.deep_view()[0] == h@[0].deep_view());
    }
    match &h[0].cmdline {
        None => false,
        Some(toks) => {
            let m = toks.len();
            let mut k: usize = 0;
            while k < m
                invariant
                    0 <= k <= m,
                    m == toks@.len(),
                    toks.deep_view().len() == m,
                    forall|j: int| 0 <= j < k
                        ==> !has_substring(#[trigger] toks.deep_view()[j], "qemu-system"@),
                    h.deep_view()[0].cmdline == Some(toks.deep_view()),
                    h.deep_view().len() == h@.len() > 0,
                decreases m - k,
            {
                proof {
                    assert(toks.deep_view()[k as int] == toks@[k as int]@);
                }
                if str_contains(toks[k].as_str(), "qemu-system") {
                    proof {
                        let dh = h.deep_view();
                        match dh[0].cmdline {
                            Some(toks2) => {
                                assert(toks2 == toks.deep_view());
                                assert(has_substring(toks2[k as int], "qemu-system"@));
                                assert(is_qemu_history(dh));
                            },
                            None => {
                                assert(false);
                            },
                        }
                    }
                    return true;
                }
                k = k + 1;
            }
            false
        },
    }
}

/// The exporter that drives qemu guest attribution. It holds the window's
/// fixed tick count; all per-window state lives in the [`TestCase`] that
/// the protocol driver owns.
pub struct QemuExporter {
    /// Number of sampling ticks one recording window runs.
    pub ticks_per_window: u64,
}

impl QemuExporter {
    /// A new exporter with the default window length.
    pub fn new() -> (r: QemuExporter)
        ensures
            r.ticks_per_window == TICKS_PER_WINDOW,
    {
        QemuExporter { ticks_per_window: TICKS_PER_WINDOW }
    }

    /// Resolves the guest identity from a process's command-line tokens:
    /// the value of the first `guest=` assignment, up to the first comma,
    /// or the empty identity when no token assigns a name.
    pub fn get_vm_name_from_cmdline(cmdline: &[String]) -> (r: String)
        ensures
            r@ == vm_name_of_cmdline(cmdline.deep_view()),
    {
        proof {
            reveal_strlit("guest=");
        }
        let n = cmdline.len();
        proof {
            assert(cmdline.deep_view().subrange(0, n as int) =~= cmdline.deep_view());
        }
        let mut i: usize = 0;
        while i < n
            invariant
                0 <= i <= n,
                n == cmdline@.len(),
                cmdline.deep_view().len() == n,
                vm_name_of_cmdline(cmdline.deep_view()) == vm_name_of_cmdline(
                    cmdline.deep_view().subrange(i as int, n as int),
                ),
                "guest="@.len() == 6,
            decreases n - i,
        {
            let t = &cmdline[i];
            proof {
                assert(cmdline.deep_view()[i as int] == cmdline@[i as int]@);
                assert(cmdline.deep_view().subrange(i as int, n as int)[0] == t@);
            }
            if str_has_prefix(t.as_str(), "guest=") {
                let j = str_find_from(t.as_str(), ',', 6);
                let name = t.as_str().substring_char(6, j);
                proof {
                    assert(name@ == guest_name_of_token(t@));
                }
                return String::from_str(name);
            }
            proof {
                let suf = cmdline.deep_view().subrange(i as int, n as int);
                assert(suf.subrange(1, suf.len() as int) =~~= cmdline.deep_view().subrange(
                    i + 1,
                    n as int,
                ));
            }
            i = i + 1;
        }
        proof {
            assert(cmdline.deep_view().subrange(n as int, n as int).len() == 0);
        }
        String::new()
    }

    /// Keeps the sample histories that look like qemu guest processes, in
    /// their original order.
    pub fn filter_qemu_vm_processes(processes: Vec<Vec<ProcessRecord>>) -> (r: Vec<
        Vec<ProcessRecord>,
    >)
        ensures
            r.deep_view() == filter_qemu(processes.deep_view()),
    {
        let ghost orig = processes.deep_view();
        let mut rest = processes;
        let mut out: Vec<Vec<ProcessRecord>> = Vec::new();
        while rest.len() > 0
            invariant
                filter_qemu(orig) == out.deep_view() + filter_qemu(rest.deep_view()),
            decreases rest.len(),
        {
            let ghost pre = rest.deep_view();
            let ghost outpre = out.deep_view();
            let h = rest.remove(0);
            proof {
                assert(rest.deep_view() =~~= pre.subrange(1, pre.len() as int));
                assert(pre[0] == h.deep_view());
            }
            if history_is_qemu(&h) {
                out.push(h);
                proof {
                    assert(out.deep_view() =~~= outpre.push(pre[0]));
                    assert(outpre.push(pre[0]) =~~= outpre + seq![pre[0]]);
                    assert(outpre + (seq![pre[0]] + filter_qemu(rest.deep_view())) =~~= (outpre
                        + seq![pre[0]]) + filter_qemu(rest.deep_view()));
                }
            }
        }
        proof {
            assert(rest.deep_view().len() == 0);
            assert(out.deep_view() + filter_qemu(rest.deep_view()) =~~= out.deep_view());
        }
        out
    }

    /// One sampling tick: attributes the host's energy delta to the qemu
    /// guests in proportion to their CPU-time share, and records one
    /// temperature sample. An absent or malformed counter value skips
    /// attribution for the tick; a degraded thermal source records a zero
    /// fallback; the tick itself never fails.
    pub fn iteration(&self, test_case: &mut TestCase, sample: TickSample)
        requires
            old(test_case)@.wf(),
            old(test_case)@.started(),
        ensures
            final(test_case)@.wf(),
            final(test_case)@ == (TestCaseView {
                vms: tick_vms(old(test_case)@.vms, sample@),
                temps: old(test_case)@.temps.push(tick_temperature(sample@.thermal_zones)),
                ..old(test_case)@
            }),
    {
        let ghost sv = sample@;
        let ghost v0 = test_case@;
        let TickSample { energy_delta, time_delta, processes, thermal_zones } = sample;
        let temp = match read_temp(&thermal_zones) {
            Ok(v) => v,
            Err(_) => 0,
        };
        proof {
            assert(temp == tick_temperature(sv.thermal_zones));
        }
        let inputs: Option<(u64, u64)> = match (&energy_delta, &time_delta) {
            (Some(ed), Some(t)) => match parse_u64(ed.value_text.as_str()) {
                Some(e) => Some((*t, e)),
                None => None,
            },
            _ => None,
        };
        proof {
            assert(inputs == tick_energy_inputs(sv));
        }
        match inputs {
            None => {},
            Some((t, e)) => {
                let filtered = Self::filter_qemu_vm_processes(processes);
                let ghost fd = filtered.deep_view();
                let n = filtered.len();
                proof {
                    assert(fd.subrange(0, n as int) =~= fd);
                }
                let mut i: usize = 0;
                while i < n
                    invariant
                        0 <= i <= n,
                        n == filtered@.len(),
                        fd.len() == n,
                        fd == filtered.deep_view(),
                        test_case@.wf(),
                        test_case@.started(),
                        test_case@ == (TestCaseView { vms: test_case@.vms, ..v0 }),
                        apply_all(v0.vms, fd, t, e) == apply_all(
                            test_case@.vms,
                            fd.subrange(i as int, n as int),
                            t,
                            e,
                        ),
                    decreases n - i,
                {
                    let ghost vmspre = test_case@.vms;
                    let ghost hv = fd[i as int];
                    let ghost suf = fd.subrange(i as int, n as int);
                    proof {
                        assert(suf[0] == hv);
                        assert(suf.subrange(1, suf.len() as int) =~~= fd.subrange(
                            i + 1,
                            n as int,
                        ));
                        assert(hv == filtered@[i as int].deep_view());
                    }
                    let h = &filtered[i];
                    if h.len() >= 2 && t > 0 {
                        proof {
                            assert(hv.len() == h@.len());
                            assert(hv[0] == h@[0].deep_view());
                            assert(hv[1] == h@[1].deep_view());
                        }
                        let cur = h[0].total_time_jiffies;
                        let prev = h[1].total_time_jiffies;
                        if cur >= prev {
                            match &h[0].cmdline {
                                Some(toks) => {
                                    let d = cur - prev;
                                    proof {
                                        assert((d as int) * (e as int) <= (u64::MAX as int) * (
                                        u64::MAX as int)) by (nonlinear_arith)
                                            requires d <= u64::MAX, e <= u64::MAX;
                                    }
                                    let num = (d as u128) * (e as u128);
                                    let s = num / (t as u128);
                                    if s <= u64::MAX as u128 {
                                        let toks_slice = toks.as_slice();
                                        let name = Self::get_vm_name_from_cmdline(toks_slice);
                                        proof {
                                            assert(toks_slice.deep_view()
                                                =~~= toks.deep_view());
                                            assert(hv[0].cmdline == Some(toks.deep_view()));
                                            assert(history_contribution(hv, t, e) == Some(
                                                (name@, s as u64),
                                            ));
                                        }
                                        test_case.add_energy(name, s as u64);
                                    } else {
                                        proof {
                                            assert(history_contribution(hv, t, e) is None);
                                        }
                                    }
                                },
                                None => {
                                    proof {
                                        assert(history_contribution(hv, t, e) is None);
                                    }
                                },
                            }
                        } else {
                            proof {
                                assert(history_contribution(hv, t, e) is None);
                            }
                        }
                    } else {
                        proof {
                            assert(history_contribution(hv, t, e) is None);
                        }
                    }
                    proof {
                        assert(test_case@.vms == apply_contribution(
                            vmspre,
                            history_contribution(hv, t, e),
                        ));
                        assert(apply_all(vmspre, suf, t, e) == apply_all(
                            test_case@.vms,
                            fd.subrange(i + 1, n as int),
                            t,
                            e,
                        ));
                    }
                    i = i + 1;
                }
                proof {
                    assert(fd.subrange(n as int, n as int).len() == 0);
                    assert(test_case@.vms == apply_all(v0.vms, fd, t, e));
                }
            },
        }
        test_case.add_temp_measurement(temp);
    }
}

/// Total energy recorded across all guest series, in microjoules.
pub open spec fn total_energy(vms: Seq<(Seq<char>, Seq<u64>)>) -> int
    decreases vms.len(),
{
    if vms.len() == 0 {
        0
    } else {
        total_energy(vms.drop_last()) + sum_u64(vms.last().1)
    }
}

/// The energy one contribution adds, in microjoules.
pub open spec fn contribution_amount(c: Option<(Seq<char>, u64)>) -> int {
    match c {
        Some(p) => p.1 as int,
        None => 0,
    }
}

/// The CPU-time delta behind one counted contribution; zero for a history
/// that contributes nothing.
pub open spec fn contribution_delta(h: Seq<ProcessRecordView>, t: u64, e: u64) -> int {
    match history_contribution(h, t, e) {
        Some(p) => h[0].total_time_jiffies - h[1].total_time_jiffies,
        None => 0,
    }
}

/// Sum of the energy shares all histories contribute in one tick.
pub open spec fn sum_contributions(hs: Seq<Seq<ProcessRecordView>>, t: u64, e: u64) -> int
    decreases hs.len(),
{
    if hs.len() == 0 {
        0
    } else {
        contribution_amount(history_contribution(hs[0], t, e)) + sum_contributions(
            hs.subrange(1, hs.len() as int),
            t,
            e,
        )
    }
}

/// Sum of the CPU-time deltas behind all counted contributions.
pub open spec fn sum_deltas(hs: Seq<Seq<ProcessRecordView>>, t: u64, e: u64) -> int
    decreases hs.len(),
{
    if hs.len() == 0 {
        0
    } else {
        contribution_delta(hs[0], t, e) + sum_deltas(hs.subrange(1, hs.len() as int), t, e)
    }
}

/// Extending one guest's series adds exactly that share to the total.
proof fn lemma_total_energy_update(vms: Seq<(Seq<char>, Seq<u64>)>, i: int, uj: u64)
    requires
        0 <= i < vms.len(),
    ensures
        total_energy(vms.update(i, (vms[i].0, vms[i].1.push(uj)))) == total_energy(vms) + uj,
    decreases vms.len(),
{
    let upd = vms.update(i, (vms[i].0, vms[i].1.push(uj)));
    if i == vms.len() - 1 {
        assert(upd.drop_last() =~~= vms.drop_last());
        assert(upd.last() == (vms[i].0, vms[i].1.push(uj)));
        assert(vms[i].1.push(uj).drop_last() =~~= vms[i].1);
        assert(sum_u64(vms[i].1.push(uj)) == sum_u64(vms[i].1) + uj);
    } else {
        let prev = vms.drop_last();
        lemma_total_energy_update(prev, i, uj);
        assert(upd.drop_last() =~~= prev.update(i, (prev[i].0, prev[i].1.push(uj))));
        assert(upd.last() == vms.last());
    }
}

/// Opening a fresh singleton series adds exactly that share to the total.
proof fn lemma_total_energy_push(vms: Seq<(Seq<char>, Seq<u64>)>, k: Seq<char>, uj: u64)
    ensures
        total_energy(vms.push((k, seq![uj]))) == total_energy(vms) + uj,
{
    let p = vms.push((k, seq![uj]));
    assert(p.drop_last() =~~= vms);
    assert(p.last() == (k, seq![uj]));
    assert(seq![uj].drop_last() =~~= Seq::<u64>::empty());
    assert(sum_u64(Seq::<u64>::empty()) == 0);
    assert(sum_u64(seq![uj]) == uj);
}

/// Recording one share adds exactly that share to the total.
proof fn lemma_add_energy_total(vms: Seq<(Seq<char>, Seq<u64>)>, k: Seq<char>, uj: u64)
    ensures
        total_energy(add_energy_spec(vms, k, uj)) == total_energy(vms) + uj,
{
    if has_key(vms, k) {
        lemma_key_index(vms, k);
        lemma_total_energy_update(vms, key_index(vms, k), uj);
    } else {
        lemma_total_energy_push(vms, k, uj);
    }
}

/// A tick adds to the total exactly the sum of its contributions.
proof fn lemma_apply_all_total(
    vms: Seq<(Seq<char>, Seq<u64>)>,
    hs: Seq<Seq<ProcessRecordView>>,
    t: u64,
    e: u64,
)
    ensures
        total_energy(apply_all(vms, hs, t, e)) == total_energy(vms) + sum_contributions(hs, t, e),
    decreases hs.len(),
{
    if hs.len() == 0 {
    } else {
        let rest = hs.subrange(1, hs.len() as int);
        match history_contribution(hs[0], t, e) {
            Some(p) => {
                lemma_add_energy_total(vms, p.0, p.1);
                lemma_apply_all_total(add_energy_spec(vms, p.0, p.1), rest, t, e);
            },
            None => {
                lemma_apply_all_total(vms, rest, t, e);
            },
        }
    }
}

/// Truncating division is superadditive over a common positive divisor.
proof fn lemma_div_superadd(a: int, b: int, t: int)
    requires
        a >= 0,
        b >= 0,
        t > 0,
    ensures
        a / t + b / t <= (a + b) / t,
{
    lemma_fundamental_div_mod(a, t);
    lemma_fundamental_div_mod(b, t);
    lemma_mod_bound(a, t);
    lemma_mod_bound(b, t);
    lemma_mul_is_distributive_add(t, a / t, b / t);
    assert(t * (a / t + b / t) <= a + b);
    lemma_div_multiples_vanish(a / t + b / t, t);
    lemma_div_is_ordered(t * (a / t + b / t), a + b, t);
}

/// The shares of a tick sum to at most the floor of the counted time
/// deltas' proportional share of the energy delta.
proof fn lemma_contributions_le(hs: Seq<Seq<ProcessRecordView>>, t: u64, e: u64)
    requires
        t > 0,
    ensures
        0 <= sum_deltas(hs, t, e),
        sum_contributions(hs, t, e) <= sum_deltas(hs, t, e) * (e as int) / (t as int),
    decreases hs.len(),
{
    if hs.len() == 0 {
        lemma_div_of0(t as int);
    } else {
        let rest = hs.subrange(1, hs.len() as int);
        lemma_contributions_le(rest, t, e);
        let d0 = contribution_delta(hs[0], t, e);
        let amt = contribution_amount(history_contribution(hs[0], t, e));
        match history_contribution(hs[0], t, e) {
            Some(p) => {
                assert(amt == d0 * (e as int) / (t as int));
            },
            None => {
                lemma_div_of0(t as int);
                assert(amt == 0 && d0 == 0);
            },
        }
        let a = d0 * (e as int);
        let b = sum_deltas(rest, t, e) * (e as int);
        lemma_mul_nonnegative(d0, e as int);
        lemma_mul_nonnegative(sum_deltas(rest, t, e), e as int);
        lemma_div_superadd(a, b, t as int);
        assert((d0 + sum_deltas(rest, t, e)) * (e as int) == d0 * (e as int) + sum_deltas(
            rest,
            t,
            e,
        ) * (e as int)) by (nonlinear_arith);
    }
}

/// Energy is conserved by attribution: in any tick whose counted guests'
/// CPU-time deltas together do not exceed the host-wide CPU-time delta, the
/// guests' energy shares together never exceed the host's energy delta for
/// the tick — the host CPU time that no guest accounts for simply remains
/// unassigned.
pub proof fn lemma_tick_attribution_bounded(
    vms: Seq<(Seq<char>, Seq<u64>)>,
    hs: Seq<Seq<ProcessRecordView>>,
    t: u64,
    e: u64,
)
    requires
        t > 0,
        sum_deltas(hs, t, e) <= t as int,
    ensures
        total_energy(apply_all(vms, hs, t, e)) <= total_energy(vms) + e,
{
    lemma_apply_all_total(vms, hs, t, e);
    lemma_contributions_le(hs, t, e);
    let sd = sum_deltas(hs, t, e);
    lemma_mul_inequality(sd, t as int, e as int);
    lemma_multiply_divide_le(sd * (e as int), t as int, e as int);
}

/// The same conservation law, stated over a whole sampling tick: a tick
/// that attributes (its deltas present and parseable, the host time delta
/// positive, the counted guests' deltas within it) raises the recorded
/// total by at most the tick's energy delta; a tick that cannot attribute
/// leaves the guest series untouched.
pub proof fn lemma_iteration_conserves_energy(vms: Seq<(Seq<char>, Seq<u64>)>, s: TickSampleView)
    requires
        match tick_energy_inputs(s) {
            Some(te) => te.0 > 0 && sum_deltas(filter_qemu(s.processes), te.0, te.1)
                <= te.0 as int,
            None => true,
        },
    ensures
        match tick_energy_inputs(s) {
            Some(te) => total_energy(tick_vms(vms, s)) <= total_energy(vms) + te.1,
            None => tick_vms(vms, s) == vms,
        },
{
    match tick_energy_inputs(s) {
        Some(te) => {
            lemma_tick_attribution_bounded(vms, filter_qemu(s.processes), te.0, te.1);
        },
        None => {},
    }
}

} // verus!
