//! Attribution-sampler behaviour: guest-identity parsing, process
//! filtering, proportional shares, degradation on missing data, thermal
//! aggregation, decimal text, and the control protocol.

use scaphandre::errors::AgentError;
use scaphandre::num::{parse_i64, parse_u64};
use scaphandre::protocol::{ProtocolAction, ProtocolDriver, SessionState};
use scaphandre::qemu::{EnergyDelta, ProcessRecord, QemuExporter, TickSample};
use scaphandre::testcase::TestCase;
use scaphandre::thermal::{read_temp, ThermalZone};

fn s(text: &str) -> String {
    String::from(text)
}

fn guest_record(jiffies: u64, name: &str) -> ProcessRecord {
    ProcessRecord {
        total_time_jiffies: jiffies,
        cmdline: Some(vec![
            s("/usr/bin/qemu-system-x86_64"),
            s("-name"),
            format!("guest={},debug-threads=on", name),
        ]),
    }
}

fn fresh_case() -> TestCase {
    TestCase::new(s("small"), s("/run/metrics/small"))
}

#[test]
fn guest_identity_from_cmdline() {
    let cmdline = vec![s("-name"), s("guest=myvm,debug-threads=on")];
    assert_eq!(QemuExporter::get_vm_name_from_cmdline(&cmdline), "myvm");
}

#[test]
fn guest_identity_without_token_is_empty_bucket() {
    let cmdline = vec![s("/usr/bin/qemu-system-x86_64"), s("-m"), s("2048")];
    assert_eq!(QemuExporter::get_vm_name_from_cmdline(&cmdline), "");
}

#[test]
fn guest_identity_without_comma() {
    let cmdline = vec![s("guest=plain")];
    assert_eq!(QemuExporter::get_vm_name_from_cmdline(&cmdline), "plain");
}

#[test]
fn filter_keeps_only_qemu_processes() {
    let qemu = vec![guest_record(10, "vm1")];
    let other = vec![ProcessRecord {
        total_time_jiffies: 5,
        cmdline: Some(vec![s("/usr/bin/bash")]),
    }];
    let unreadable = vec![ProcessRecord { total_time_jiffies: 5, cmdline: None }];
    let kept = QemuExporter::filter_qemu_vm_processes(vec![qemu, other, unreadable]);
    assert_eq!(kept.len(), 1);
    assert_eq!(kept[0][0].total_time_jiffies, 10);
}

#[test]
fn attribution_shares_are_proportional() {
    // host energy delta 100000 uJ over 100 jiffies; guestA advanced 30,
    // guestB 70: shares 30000 and 70000, together the whole delta.
    let exporter = QemuExporter::new();
    let mut tc = fresh_case();
    tc.start_recording(100);
    let sample = TickSample {
        energy_delta: Some(EnergyDelta { value_text: s("100000"), timestamp_s: 100 }),
        time_delta: Some(100),
        processes: vec![
            vec![guest_record(130, "guestA"), guest_record(100, "guestA")],
            vec![guest_record(170, "guestB"), guest_record(100, "guestB")],
        ],
        thermal_zones: None,
    };
    exporter.iteration(&mut tc, sample);
    tc.stop_recording(101);
    let pa = tc.get_watt_consumed_by_vm(s("guestA")).unwrap();
    let pb = tc.get_watt_consumed_by_vm(s("guestB")).unwrap();
    assert_eq!(pa.microjoules, 30_000u128);
    assert_eq!(pb.microjoules, 70_000u128);
    assert_eq!(pa.microjoules + pb.microjoules, 100_000u128);
}

#[test]
fn attribution_truncates_and_never_overclaims() {
    // 100 uJ over 3 jiffies, three guests of 1 jiffy each: 33 uJ per guest,
    // 99 uJ in total, less than the measured 100.
    let exporter = QemuExporter::new();
    let mut tc = fresh_case();
    tc.start_recording(0);
    let sample = TickSample {
        energy_delta: Some(EnergyDelta { value_text: s("100"), timestamp_s: 0 }),
        time_delta: Some(3),
        processes: vec![
            vec![guest_record(11, "g1"), guest_record(10, "g1")],
            vec![guest_record(21, "g2"), guest_record(20, "g2")],
            vec![guest_record(31, "g3"), guest_record(30, "g3")],
        ],
        thermal_zones: None,
    };
    exporter.iteration(&mut tc, sample);
    tc.stop_recording(1);
    let mut total = 0u128;
    for g in ["g1", "g2", "g3"] {
        total += tc.get_watt_consumed_by_vm(s(g)).unwrap().microjoules;
    }
    assert_eq!(total, 99u128);
    assert!(total <= 100);
}

#[test]
fn tick_without_energy_delta_still_samples_temperature() {
    let exporter = QemuExporter::new();
    let mut tc = fresh_case();
    tc.start_recording(0);
    let sample = TickSample {
        energy_delta: None,
        time_delta: Some(100),
        processes: vec![vec![guest_record(30, "vm"), guest_record(10, "vm")]],
        thermal_zones: Some(vec![ThermalZone {
            name: s("thermal_zone0"),
            reading: Some(s("45000\n")),
        }]),
    };
    exporter.iteration(&mut tc, sample);
    tc.stop_recording(1);
    assert_eq!(tc.get_watt_consumed_by_vm(s("vm")).unwrap_err(), AgentError::UnknownGuest);
    let m = tc.get_avg_temp().unwrap();
    assert_eq!(m.sum_millidegrees, 45_000i128);
    assert_eq!(m.samples, 1);
}

#[test]
fn tick_with_malformed_counter_text_skips_attribution() {
    let exporter = QemuExporter::new();
    let mut tc = fresh_case();
    tc.start_recording(0);
    let sample = TickSample {
        energy_delta: Some(EnergyDelta { value_text: s("12.5e3"), timestamp_s: 0 }),
        time_delta: Some(100),
        processes: vec![vec![guest_record(30, "vm"), guest_record(10, "vm")]],
        thermal_zones: None,
    };
    exporter.iteration(&mut tc, sample);
    tc.stop_recording(1);
    assert_eq!(tc.get_watt_consumed_by_vm(s("vm")).unwrap_err(), AgentError::UnknownGuest);
}

#[test]
fn tick_with_zero_host_delta_never_divides() {
    let exporter = QemuExporter::new();
    let mut tc = fresh_case();
    tc.start_recording(0);
    let sample = TickSample {
        energy_delta: Some(EnergyDelta { value_text: s("100000"), timestamp_s: 0 }),
        time_delta: Some(0),
        processes: vec![vec![guest_record(30, "vm"), guest_record(10, "vm")]],
        thermal_zones: None,
    };
    exporter.iteration(&mut tc, sample);
    tc.stop_recording(1);
    assert_eq!(tc.get_watt_consumed_by_vm(s("vm")).unwrap_err(), AgentError::UnknownGuest);
}

#[test]
fn short_history_contributes_nothing() {
    let exporter = QemuExporter::new();
    let mut tc = fresh_case();
    tc.start_recording(0);
    let sample = TickSample {
        energy_delta: Some(EnergyDelta { value_text: s("100000"), timestamp_s: 0 }),
        time_delta: Some(100),
        processes: vec![vec![guest_record(30, "young")]],
        thermal_zones: None,
    };
    exporter.iteration(&mut tc, sample);
    tc.stop_recording(1);
    assert_eq!(
        tc.get_watt_consumed_by_vm(s("young")).unwrap_err(),
        AgentError::UnknownGuest
    );
}

#[test]
fn thermal_mean_excludes_cooling_and_unreadable_zones() {
    let zones = vec![
        ThermalZone { name: s("thermal_zone0"), reading: Some(s("45000\n")) },
        ThermalZone { name: s("cooling_device0"), reading: Some(s("99999\n")) },
        ThermalZone { name: s("thermal_zone1"), reading: Some(s("47000")) },
        ThermalZone { name: s("thermal_zone2"), reading: None },
        ThermalZone { name: s("thermal_zone3"), reading: Some(s("not a number")) },
    ];
    assert_eq!(read_temp(&Some(zones)).unwrap(), 46_000);
}

#[test]
fn thermal_source_unavailable_is_reported() {
    assert_eq!(read_temp(&None).unwrap_err(), AgentError::SensorUnavailable);
}

#[test]
fn thermal_mean_with_no_readable_zone_is_undefined() {
    let zones = vec![ThermalZone { name: s("cooling_device0"), reading: Some(s("1")) }];
    assert_eq!(read_temp(&Some(zones)).unwrap_err(), AgentError::ArithmeticUndefined);
}

#[test]
fn counter_text_parses_strictly() {
    assert_eq!(parse_u64("100000"), Some(100_000));
    assert_eq!(parse_u64("0"), Some(0));
    assert_eq!(parse_u64(""), None);
    assert_eq!(parse_u64("12a"), None);
    assert_eq!(parse_u64("-1"), None);
    assert_eq!(parse_u64("18446744073709551615"), Some(u64::MAX));
    assert_eq!(parse_u64("18446744073709551616"), None);
}

#[test]
fn signed_text_parses_strictly() {
    assert_eq!(parse_i64("-45000"), Some(-45_000));
    assert_eq!(parse_i64("45000"), Some(45_000));
    assert_eq!(parse_i64("-"), None);
    assert_eq!(parse_i64("9223372036854775807"), Some(i64::MAX));
    assert_eq!(parse_i64("-9223372036854775808"), Some(i64::MIN));
    assert_eq!(parse_i64("-9223372036854775809"), None);
}

#[test]
fn every_tick_appends_one_temperature() {
    let exporter = QemuExporter::new();
    let mut tc = fresh_case();
    tc.start_recording(0);
    for _ in 0..3 {
        let sample = TickSample {
            energy_delta: None,
            time_delta: None,
            processes: Vec::new(),
            thermal_zones: None,
        };
        exporter.iteration(&mut tc, sample);
    }
    let m = tc.get_avg_temp().unwrap();
    assert_eq!(m.samples, 3);
    assert_eq!(m.sum_millidegrees, 0);
    assert_eq!(m.render(), b"0.000".to_vec());
}

#[test]
fn protocol_window_scenario() {
    let mut d = ProtocolDriver::new(1);
    assert_eq!(d.handle_line("startTestReq"), ProtocolAction::BeginRecording);
    assert_eq!(d.state, SessionState::Recording);
    d.window_finished();
    assert_eq!(d.state, SessionState::AwaitingCommand);
    assert_eq!(d.handle_line("finished recording"), ProtocolAction::CloseSession);
    assert_eq!(d.state, SessionState::SessionClosed);
}

#[test]
fn protocol_advances_configurations() {
    let mut d = ProtocolDriver::new(2);
    assert_eq!(d.handle_line("finished recording"), ProtocolAction::NextConfiguration);
    assert_eq!(d.state, SessionState::AwaitingCommand);
    assert_eq!(d.configs_remaining, 1);
    assert_eq!(d.handle_line("finished recording"), ProtocolAction::CloseSession);
    assert_eq!(d.state, SessionState::SessionClosed);
}

#[test]
fn protocol_aborts_on_unknown_token() {
    let mut d = ProtocolDriver::new(1);
    assert_eq!(d.handle_line("startTestReq "), ProtocolAction::Abort);
    assert_eq!(d.state, SessionState::SessionClosed);
}
