use novasdr_server::bind::bind_host;
use novasdr_server::input::{plan_input, InputDriver, InputPlanError, InputSource};
use novasdr_server::iq::deinterleave_into;
use novasdr_server::termination::{chain_is_expected_input_termination, is_expected_input_termination, IoErrorKind};
use std::io;

fn io_err(kind: io::ErrorKind) -> anyhow::Error {
    anyhow::Error::new(io::Error::from(kind))
}

#[test]
fn input_ended_kinds_are_expected() {
    assert!(is_expected_input_termination(&io_err(io::ErrorKind::UnexpectedEof)));
    assert!(is_expected_input_termination(&io_err(io::ErrorKind::BrokenPipe)));
    assert!(is_expected_input_termination(&io_err(io::ErrorKind::ConnectionReset)));
    assert!(is_expected_input_termination(&io_err(io::ErrorKind::Interrupted)));
}

#[test]
fn other_errors_are_not_expected() {
    assert!(!is_expected_input_termination(&io_err(io::ErrorKind::NotFound)));
    assert!(!is_expected_input_termination(&io_err(io::ErrorKind::PermissionDenied)));
    assert!(!is_expected_input_termination(&anyhow::Error::msg("reader closed")));
}

#[test]
fn context_does_not_hide_io_cause() {
    let e = io_err(io::ErrorKind::UnexpectedEof).context("read samples (half_b)");
    assert!(is_expected_input_termination(&e));
    let e = io_err(io::ErrorKind::InvalidData).context("read samples (half_a)");
    assert!(!is_expected_input_termination(&e));
}

#[test]
fn first_io_cause_decides() {
    assert!(!chain_is_expected_input_termination(&[None, Some(IoErrorKind::Other), Some(IoErrorKind::BrokenPipe)]));
    assert!(chain_is_expected_input_termination(&[None, None, Some(IoErrorKind::Interrupted), Some(IoErrorKind::Other)]));
    assert!(!chain_is_expected_input_termination(&[None]));
    assert!(!chain_is_expected_input_termination(&[]));
}

#[test]
fn bind_host_brackets_ipv6() {
    assert_eq!(bind_host("0.0.0.0"), "0.0.0.0");
    assert_eq!(bind_host("::"), "[::]");
    assert_eq!(bind_host("fe80::1"), "[fe80::1]");
    assert_eq!(bind_host("[::1]"), "[::1]");
    assert_eq!(bind_host("localhost"), "localhost");
    assert_eq!(bind_host(""), "");
}

#[test]
fn input_plans() {
    assert_eq!(plan_input(&InputDriver::Stdin, false), Ok(InputSource::Stdin));
    assert_eq!(
        plan_input(&InputDriver::Fifo { path: "/tmp/iq".to_string() }, false),
        Ok(InputSource::File { path: "/tmp/iq".to_string() })
    );
    assert_eq!(plan_input(&InputDriver::SoapySdr, true), Ok(InputSource::SoapySdr));
    let err = plan_input(&InputDriver::SoapySdr, false).unwrap_err();
    assert_eq!(err, InputPlanError::SoapySdrDisabled);
    assert_eq!(
        err.message(),
        "SoapySDR input support is disabled (rebuild with Cargo feature \"soapysdr\")"
    );
}

#[test]
fn deinterleave_pairs() {
    let interleaved = [1.0f32, 2.0, 3.0, 4.0, -1.5, 0.5];
    let mut out = [(0.0f32, 0.0f32); 3];
    deinterleave_into(&interleaved, &mut out, |i, q| (i, q));
    assert_eq!(out, [(1.0, 2.0), (3.0, 4.0), (-1.5, 0.5)]);
    let mut empty: [(u8, u8); 0] = [];
    deinterleave_into(&[] as &[u8], &mut empty, |i, q| (i, q));
}
