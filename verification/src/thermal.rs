//! Thermal-zone aggregation: one ambient temperature scalar per sampling
//! tick, averaged over every readable zone.
//!
//! A zone is readable when its device name does not mark it as a cooling
//! pseudo-zone, its value file could be read, and the file's text is a
//! well-formed decimal numeral in millidegrees. Unreadable zones are
//! skipped; a missing zone directory or an empty readable set degrades the
//! tick instead of aborting it.

use vstd::prelude::*;
use vstd::arithmetic::div_mod::lemma_multiply_divide_le;
use crate::errors::AgentError;
use crate::num::{is_dec_int, int_val, parse_i64};
use crate::strutil::{has_substring, without_trailing_newline, str_contains, strip_trailing_newline};

verus! {

/// One thermal-zone pseudo-device, as handed in by the unverified shell:
/// the device name and the raw text of its value file, if it could be read.
pub struct ThermalZone {
    /// Zone device name; names marking cooling devices are excluded.
    pub name: String,
    /// Raw contents of the zone's value file; `None` when the read failed.
    pub reading: Option<String>,
}

/// Mathematical image of a [`ThermalZone`].
pub struct ThermalZoneView {
    pub name: Seq<char>,
    pub reading: Option<Seq<char>>,
}

impl View for ThermalZone {
    type V = ThermalZoneView;

    open spec fn view(&self) -> ThermalZoneView {
        ThermalZoneView {
            name: self.name@,
            reading: match self.reading {
                Some(s) => Some(s@),
                None => None,
            },
        }
    }
}

impl DeepView for ThermalZone {
    type V = ThermalZoneView;

    open spec fn deep_view(&self) -> ThermalZoneView {
        self.view()
    }
}

/// The millidegree value a zone contributes, or `None` when the zone is
/// excluded (a cooling device) or unreadable (no text, malformed text, or a
/// value outside the `i64` range).
pub open spec fn zone_value(z: ThermalZoneView) -> Option<i64> {
    if has_substring(z.name, "cooling"@) {
        None
    } else {
        match z.reading {
            Some(text) => {
                let t = without_trailing_newline(text);
                if is_dec_int(t) && i64::MIN <= int_val(t) <= i64::MAX {
                    Some(int_val(t) as i64)
                } else {
                    None
                }
            },
            None => None,
        }
    }
}

/// Sum of the contributions of all readable zones, in millidegrees.
pub open spec fn zones_sum(zs: Seq<ThermalZoneView>) -> int
    decreases zs.len(),
{
    if zs.len() == 0 {
        0
    } else {
        zones_sum(zs.drop_last()) + (match zone_value(zs.last()) {
            Some(v) => v as int,
            None => 0,
        })
    }
}

/// Number of readable zones.
pub open spec fn zones_count(zs: Seq<ThermalZoneView>) -> nat
    decreases zs.len(),
{
    if zs.len() == 0 {
        0
    } else {
        zones_count(zs.drop_last()) + (match zone_value(zs.last()) {
            Some(v) => 1nat,
            None => 0nat,
        })
    }
}

/// Quotient truncated toward zero, as the sampled scalar is reported.
pub open spec fn trunc_div(a: int, d: int) -> int
    recommends
        d > 0,
{
    if a >= 0 {
        a / d
    } else {
        -((-a) / d)
    }
}

/// The scalar one tick samples: the mean of the readable zones' values,
/// truncated to whole millidegrees.
pub open spec fn zones_average(zs: Seq<ThermalZoneView>) -> int
    recommends
        zones_count(zs) > 0,
{
    trunc_div(zones_sum(zs), zones_count(zs) as int)
}

/// The sum of readable-zone values stays between `count * i64::MIN` and
/// `count * i64::MAX`, so the running sum and the mean stay representable.
proof fn lemma_zones_sum_bounds(zs: Seq<ThermalZoneView>)
    ensures
        zones_count(zs) as int * (i64::MIN as int) <= zones_sum(zs)
            <= zones_count(zs) as int * (i64::MAX as int),
    decreases zs.len(),
{
    if zs.len() == 0 {
    } else {
        lemma_zones_sum_bounds(zs.drop_last());
        let c0 = zones_count(zs.drop_last()) as int;
        let c1 = zones_count(zs) as int;
        match zone_value(zs.last()) {
            Some(v) => {
                assert(c1 == c0 + 1);
                assert((c0 + 1) * (i64::MIN as int) == c0 * (i64::MIN as int) + i64::MIN as int)
                    by (nonlinear_arith);
                assert((c0 + 1) * (i64::MAX as int) == c0 * (i64::MAX as int) + i64::MAX as int)
                    by (nonlinear_arith);
            },
            None => {},
        }
    }
}

/// One tick of the temperature sampler over the enumerated zones.
///
/// `zones` is `None` when the zone directory could not be enumerated at
/// all: that is reported as `SensorUnavailable`. An enumeration with no
/// readable zone leaves the mean undefined and is reported as
/// `ArithmeticUndefined`. Otherwise the exact truncated mean of all
/// readable zones is returned. The caller records a fallback of zero for
/// either error, so a tick is never aborted by the thermal source.
pub fn read_temp(zones: &Option<Vec<ThermalZone>>) -> (r: Result<i64, AgentError>)
    ensures
        match zones {
            None => r == Err::<i64, AgentError>(AgentError::SensorUnavailable),
            Some(zs) => {
                if zones_count(zs.deep_view()) == 0 {
                    r == Err::<i64, AgentError>(AgentError::ArithmeticUndefined)
                } else {
                    r == Ok::<i64, AgentError>(zones_average(zs.deep_view()) as i64)
                        && zones_average(zs.deep_view()) == r->Ok_0 as int
                }
            },
        },
{
    let zs = match zones {
        Some(zs) => zs,
        None => {
            return Err(AgentError::SensorUnavailable);
        },
    };
    let n = zs.len();
    let mut sum: i128 = 0;
    let mut cnt: u64 = 0;
    let mut i: usize = 0;
    while i < n
        invariant
            0 <= i <= n,
            n == zs@.len(),
            cnt <= i,
            sum == zones_sum(zs.deep_view().subrange(0, i as int)),
            cnt == zones_count(zs.deep_view().subrange(0, i as int)),
        decreases n - i,
    {
        let z = &zs[i];
        proof {
            assert(zs.deep_view().subrange(0, i + 1).drop_last() =~= zs.deep_view().subrange(
                0,
                i as int,
            ));
            assert(zs.deep_view().subrange(0, i + 1).last() == zs[i as int].deep_view());
        }
        let mut val: Option<i64> = None;
        if !str_contains(z.name.as_str(), "cooling") {
            match &z.reading {
                Some(text) => {
                    let stripped = strip_trailing_newline(text.as_str());
                    val = parse_i64(stripped);
                },
                None => {},
            }
        }
        proof {
            assert(val == zone_value(zs[i as int].deep_view()));
        }
        match val {
            Some(v) => {
                proof {
                    lemma_zones_sum_bounds(zs.deep_view().subrange(0, i as int));
                    let c = cnt as int;
                    assert((c + 1) * (i64::MIN as int) == c * (i64::MIN as int) + i64::MIN as int)
                        by (nonlinear_arith);
                    assert((c + 1) * (i64::MAX as int) == c * (i64::MAX as int) + i64::MAX as int)
                        by (nonlinear_arith);
                    assert((c + 1) * (i64::MIN as int) >= i128::MIN) by (nonlinear_arith)
                        requires 0 <= c <= u64::MAX as int;
                    assert((c + 1) * (i64::MAX as int) <= i128::MAX) by (nonlinear_arith)
                        requires 0 <= c <= u64::MAX as int;
                }
                sum = sum + v as i128;
                cnt = cnt + 1;
            },
            None => {},
        }
        i = i + 1;
    }
    proof {
        assert(zs.deep_view().subrange(0, n as int) =~= zs.deep_view());
    }
    if cnt == 0 {
        return Err(AgentError::ArithmeticUndefined);
    }
    proof {
        lemma_zones_sum_bounds(zs.deep_view());
    }
    if sum >= 0 {
        proof {
            lemma_multiply_divide_le(sum as int, cnt as int, i64::MAX as int);
        }
        let q = (sum as u128) / (cnt as u128);
        Ok(q as i64)
    } else {
        let mag: u128 = ((-(sum + 1)) as u128) + 1;
        proof {
            assert(mag == -(sum as int));
            lemma_multiply_divide_le(mag as int, cnt as int, -(i64::MIN as int));
        }
        let q = mag / (cnt as u128);
        if q == 9223372036854775808u128 {
            Ok(i64::MIN)
        } else {
            Ok(-(q as i64))
        }
    }
}

} // verus!
