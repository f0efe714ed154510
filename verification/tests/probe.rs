use metric_sampler::probe::{
    complete_output, intel_gpu_top_args, sensors_args, JobError, INTEL_GPU_TOP, SENSORS,
};
use metric_sampler::text::write_decimal;
use serde_json::Value;

fn decimal_of(n: u64) -> String {
    let mut text = String::new();
    write_decimal(&mut text, n);
    text
}

#[test]
fn the_probes_have_their_names() {
    assert_eq!(INTEL_GPU_TOP, "intel_gpu_top");
    assert_eq!(SENSORS, "sensors");
}

#[test]
fn intel_gpu_top_gets_interval_and_device() {
    assert_eq!(
        intel_gpu_top_args(1000, "drm:/dev/dri/card0"),
        vec!["-s", "1000", "-J", "-d", "drm:/dev/dri/card0"]
    );
    assert_eq!(intel_gpu_top_args(0, ""), vec!["-s", "0", "-J", "-d", ""]);
}

#[test]
fn sensors_gets_the_json_switch() {
    assert_eq!(sensors_args(), vec!["-j"]);
}

#[test]
fn numbers_are_written_in_decimal() {
    assert_eq!(decimal_of(0), "0");
    assert_eq!(decimal_of(7), "7");
    assert_eq!(decimal_of(10), "10");
    assert_eq!(decimal_of(5000), "5000");
    assert_eq!(decimal_of(1234567890), "1234567890");
    assert_eq!(decimal_of(u64::MAX), "18446744073709551615");
    for n in [1u64, 9, 11, 99, 100, 101, 909, 65535, 4294967296] {
        assert_eq!(decimal_of(n), n.to_string());
    }
}

#[test]
fn a_number_is_appended_to_what_is_there() {
    let mut text = String::from("-s=");
    write_decimal(&mut text, 250);
    assert_eq!(text, "-s=250");
}

#[test]
fn the_output_of_a_probe_that_ended_well_is_its_document() {
    let expected: Value = serde_json::from_str(r#"{"coretemp":{"temp1_input":45.0}}"#).unwrap();
    let got = complete_output(true, b"{\"coretemp\":{\"temp1_input\":45.0}}\n", String::new());
    assert_eq!(got.unwrap(), expected);
}

#[test]
fn a_probe_that_failed_gives_its_diagnostic() {
    let got = complete_output(false, br#"{"a":1}"#, String::from("sensors: no sensors found"));
    match got {
        Err(JobError::ProcessExit { diagnostic }) => assert_eq!(diagnostic, "sensors: no sensors found"),
        other => panic!("unexpected result {:?}", other),
    }
}

#[test]
fn output_that_is_not_one_document_is_an_error() {
    assert!(matches!(complete_output(true, b"", String::new()), Err(JobError::Decode)));
    assert!(matches!(complete_output(true, br#"{"a":"#, String::new()), Err(JobError::Decode)));
    assert!(matches!(complete_output(true, br#"{"a":1}{"a":2}"#, String::new()), Err(JobError::Decode)));
    assert!(matches!(complete_output(true, b"No sensors found!", String::new()), Err(JobError::Decode)));
}

#[test]
fn every_error_has_its_message() {
    assert_eq!(JobError::ProcessSpawn.message(), "couldn't spawn child process");
    assert_eq!(
        JobError::ProcessExit { diagnostic: String::from("boom") }.message(),
        "child exited prematurely: boom"
    );
    assert_eq!(JobError::Read.message(), "couldn't read from child stdout");
    assert_eq!(JobError::Decode.message(), "couldn't parse child stdout as json");
    assert_eq!(JobError::Send.message(), "couldn't send collected value");
    let error = JobError::ProcessExit { diagnostic: String::from("x") };
    assert_eq!(error.clone().message(), error.message());
}
