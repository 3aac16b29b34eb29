//! Core of an energy-observability agent for qemu/kvm hosts.
//!
//! The agent samples host-wide hardware energy counters and attributes the
//! incremental consumption to individual guest virtual machines, in
//! proportion to each guest's share of host CPU time between samples.
//! Results accumulate over one bounded recording window and are rendered as
//! per-guest metric files that a guest can mount and read as if it were bare
//! metal.
//!
//! This crate holds the verified core: the recording accumulator
//! ([`testcase::TestCase`]), the per-tick attribution step
//! ([`qemu::QemuExporter::iteration`]), the thermal-zone aggregation
//! ([`thermal`]), the control-protocol state machine ([`protocol`]), and the
//! decimal text handling ([`num`]). Reading the hardware counters, the
//! process table, the clock and the network, and writing the metric files,
//! are left to a thin unverified shell around this library.

pub mod errors;
pub mod num;
pub mod protocol;
pub mod qemu;
pub mod strutil;
pub mod testcase;
pub mod thermal;
