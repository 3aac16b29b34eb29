//! Recording-accumulator behaviour: exact means, durations, guest series,
//! error conditions, and the deterministic persistence plan.

use scaphandre::errors::AgentError;
use scaphandre::testcase::TestCase;

fn s(text: &str) -> String {
    String::from(text)
}

fn fresh_case() -> TestCase {
    TestCase::new(s("small"), s("/var/lib/libvirt/mount/scaphandre/small"))
}

#[test]
fn average_power_is_exact_quotient() {
    let mut tc = fresh_case();
    tc.start_recording(100);
    tc.add_energy(s("vm1"), 50_000);
    tc.add_energy(s("vm1"), 50_000);
    tc.stop_recording(104);
    let p = tc.get_watt_consumed_by_vm(s("vm1")).unwrap();
    assert_eq!(p.microjoules, 100_000u128);
    assert_eq!(p.seconds, 4);
    assert_eq!(p.render(), b"25000.000".to_vec());
}

#[test]
fn average_power_unknown_guest() {
    let mut tc = fresh_case();
    tc.start_recording(100);
    tc.add_energy(s("vm1"), 1);
    tc.stop_recording(101);
    assert_eq!(
        tc.get_watt_consumed_by_vm(s("other")).unwrap_err(),
        AgentError::UnknownGuest
    );
}

#[test]
fn average_power_needs_finalized_window() {
    let mut tc = fresh_case();
    tc.start_recording(100);
    tc.add_energy(s("vm1"), 1);
    assert_eq!(
        tc.get_watt_consumed_by_vm(s("vm1")).unwrap_err(),
        AgentError::NotFinalized
    );
    tc.stop_recording(100);
    assert_eq!(
        tc.get_watt_consumed_by_vm(s("vm1")).unwrap_err(),
        AgentError::ArithmeticUndefined
    );
}

#[test]
fn duration_errors_until_stopped() {
    let mut tc = fresh_case();
    assert_eq!(tc.get_test_duration().unwrap_err(), AgentError::NotFinalized);
    tc.start_recording(100);
    assert_eq!(tc.get_test_duration().unwrap_err(), AgentError::NotFinalized);
    tc.stop_recording(112);
    assert_eq!(tc.get_test_duration().unwrap(), 12);
}

#[test]
fn duration_rejects_end_before_start() {
    let mut tc = fresh_case();
    tc.start_recording(200);
    tc.stop_recording(150);
    assert_eq!(tc.get_test_duration().unwrap_err(), AgentError::NotFinalized);
}

#[test]
fn average_temperature_is_arithmetic_mean() {
    let mut tc = fresh_case();
    tc.start_recording(100);
    tc.add_temp_measurement(1000);
    tc.add_temp_measurement(2000);
    tc.add_temp_measurement(4000);
    let m = tc.get_avg_temp().unwrap();
    assert_eq!(m.sum_millidegrees, 7000i128);
    assert_eq!(m.samples, 3);
    assert_eq!(m.render(), b"2333.333".to_vec());
}

#[test]
fn average_temperature_of_empty_series_is_no_data() {
    let tc = fresh_case();
    assert_eq!(tc.get_avg_temp().unwrap_err(), AgentError::NoData);
}

#[test]
fn negative_temperatures_render_signed() {
    let mut tc = fresh_case();
    tc.start_recording(100);
    tc.add_temp_measurement(-7000);
    tc.add_temp_measurement(0);
    tc.add_temp_measurement(0);
    let m = tc.get_avg_temp().unwrap();
    assert_eq!(m.sum_millidegrees, -7000i128);
    assert_eq!(m.render(), b"-2333.333".to_vec());
}

#[test]
fn persist_plan_lists_two_files_per_guest() {
    let mut tc = fresh_case();
    tc.start_recording(100);
    tc.add_energy(s("vmA"), 30_000);
    tc.add_energy(s("vmB"), 70_000);
    tc.add_temp_measurement(46_000);
    tc.stop_recording(101);
    let files = tc.store_test_data().unwrap();
    assert_eq!(files.len(), 4);
    assert_eq!(files[0].directory, "/var/lib/libvirt/mount/scaphandre/small/vmA");
    assert_eq!(files[0].file_name, "consumed_watt");
    assert_eq!(files[0].contents, b"30000.000".to_vec());
    assert_eq!(files[1].directory, "/var/lib/libvirt/mount/scaphandre/small/vmA");
    assert_eq!(files[1].file_name, "avg_temp");
    assert_eq!(files[1].contents, b"46000.000".to_vec());
    assert_eq!(files[2].directory, "/var/lib/libvirt/mount/scaphandre/small/vmB");
    assert_eq!(files[2].file_name, "consumed_watt");
    assert_eq!(files[2].contents, b"70000.000".to_vec());
    assert_eq!(files[3].file_name, "avg_temp");
}

#[test]
fn persist_twice_is_byte_identical() {
    let mut tc = fresh_case();
    tc.start_recording(100);
    tc.add_energy(s("vmA"), 12_345);
    tc.add_energy(s("vmB"), 99_999);
    tc.add_temp_measurement(45_123);
    tc.add_temp_measurement(45_321);
    tc.stop_recording(107);
    let first = tc.store_test_data().unwrap();
    let second = tc.store_test_data().unwrap();
    assert_eq!(first.len(), second.len());
    for (a, b) in first.iter().zip(second.iter()) {
        assert_eq!(a.directory, b.directory);
        assert_eq!(a.file_name, b.file_name);
        assert_eq!(a.contents, b.contents);
    }
}

#[test]
fn persist_without_guests_is_empty() {
    let tc = fresh_case();
    let files = tc.store_test_data().unwrap();
    assert!(files.is_empty());
}

#[test]
fn persist_refuses_undefined_values() {
    let mut tc = fresh_case();
    tc.start_recording(100);
    tc.add_energy(s("vmA"), 1);
    // not finalized
    assert_eq!(tc.store_test_data().unwrap_err(), AgentError::NotFinalized);
    // zero-length window
    tc.stop_recording(100);
    assert_eq!(tc.store_test_data().unwrap_err(), AgentError::ArithmeticUndefined);
    // no temperature sample: a NaN-like value must never reach a file
    tc.stop_recording(101);
    assert_eq!(tc.store_test_data().unwrap_err(), AgentError::NoData);
}

#[test]
fn series_append_keeps_guests_separate() {
    let mut tc = fresh_case();
    tc.start_recording(0);
    tc.add_energy(s("a"), 10);
    tc.add_energy(s("b"), 20);
    tc.add_energy(s("a"), 30);
    tc.stop_recording(2);
    let pa = tc.get_watt_consumed_by_vm(s("a")).unwrap();
    let pb = tc.get_watt_consumed_by_vm(s("b")).unwrap();
    assert_eq!(pa.microjoules, 40u128);
    assert_eq!(pb.microjoules, 20u128);
    assert_eq!(pa.render(), b"20.000".to_vec());
    assert_eq!(pb.render(), b"10.000".to_vec());
}
