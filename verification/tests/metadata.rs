//! Tests for the metadata parser, around the reference calibration block.

use ppk2::metadata::Metadata;
use ppk2::types::MeasurementMode;
use ppk2::Error;

const REFERENCE_BLOCK: &str = "Calibrated: 0\n\
R0: 1003.3506\n\
R1: 101.5865\n\
R2: 10.3027\n\
R3: 0.9636\n\
R4: 0.0564\n\
GS0: 0.0000\n\
GS1: 112.7890\n\
GS2: 18.0115\n\
GS3: 2.4217\n\
GS4: 0.0729\n\
GI0: 1.0000\n\
GI1: 0.9695\n\
GI2: 0.9609\n\
GI3: 0.9519\n\
GI4: 0.9582\n\
O0: 112.9420\n\
O1: 75.4627\n\
O2: 64.6020\n\
O3: 50.4983\n\
O4: 87.2177\n\
VDD: 3741\n\
HW: 9173\n\
mode: 2\n\
S0: 0.000000048\n\
S1: 0.000000596\n\
S2: 0.000005281\n\
S3: 0.000062577\n\
S4: 0.002940743\n\
I0: -0.000000104\n\
I1: -0.000001443\n\
I2: 0.000036439\n\
I3: -0.000374119\n\
I4: -0.009388455\n\
UG0: 1.00\n\
UG1: 1.00\n\
UG2: 1.00\n\
UG3: 1.00\n\
UG4: 1.00\n\
IA: 56\n\
END\n";

fn coeff(texts: &Vec<Vec<u8>>, k: usize) -> f32 {
    String::from_utf8(texts[k].clone()).unwrap().parse::<f32>().unwrap()
}

#[test]
fn reference_block_round_trip() {
    let m = Metadata::from_bytes(REFERENCE_BLOCK.as_bytes()).expect("Error parsing metadata");
    assert!(!m.calibrated);
    assert_eq!(m.vdd, 3741);
    assert_eq!(m.hw, 9173);
    assert_eq!(m.mode, MeasurementMode::Source);
    assert_eq!(m.ia, 56);
    let expected_r: [f32; 5] = [1003.3506, 101.5865, 10.3027, 0.9636, 0.0564];
    for k in 0..5 {
        assert!((coeff(&m.modifiers.r, k) - expected_r[k]).abs() < 1e-4);
    }
    let expected_gs: [f32; 5] = [0.0, 112.7890, 18.0115, 2.4217, 0.0729];
    for k in 0..5 {
        assert!((coeff(&m.modifiers.gs, k) - expected_gs[k]).abs() < 1e-4);
    }
    let expected_o: [f32; 5] = [112.9420, 75.4627, 64.6020, 50.4983, 87.2177];
    for k in 0..5 {
        assert!((coeff(&m.modifiers.o, k) - expected_o[k]).abs() < 1e-4);
    }
    let expected_s: [f32; 5] =
        [0.000000048, 0.000000596, 0.000005281, 0.000062577, 0.002940743];
    for k in 0..5 {
        assert!((coeff(&m.modifiers.s, k) - expected_s[k]).abs() < 1e-4);
    }
    let expected_i: [f32; 5] =
        [-0.000000104, -0.000001443, 0.000036439, -0.000374119, -0.009388455];
    for k in 0..5 {
        assert!((coeff(&m.modifiers.i, k) - expected_i[k]).abs() < 1e-4);
    }
    for k in 0..5 {
        assert!((coeff(&m.modifiers.ug, k) - 1.0).abs() < 1e-4);
        assert!((coeff(&m.modifiers.gi, k)
            - [1.0000f32, 0.9695, 0.9609, 0.9519, 0.9582][k])
            .abs() < 1e-4);
    }
}

#[test]
fn missing_terminator_is_rejected() {
    let blob = b"Calibrated: 0\nVDD: 3000\n";
    match Metadata::from_bytes(blob) {
        Err(Error::Parse(payload)) => assert_eq!(payload, blob.to_vec()),
        other => panic!("expected a parse error, got {:?}", other),
    }
}

#[test]
fn invalid_utf8_is_rejected() {
    let blob = [0xFFu8, 0xFE, 0x0A, 0x45, 0x4E, 0x44, 0x0A];
    match Metadata::from_bytes(&blob) {
        Err(Error::Utf8) => {},
        other => panic!("expected a UTF-8 error, got {:?}", other),
    }
}

#[test]
fn unknown_key_is_rejected() {
    match Metadata::from_bytes(b"FOO: 1\nEND\n") {
        Err(Error::Parse(line)) => assert_eq!(line, b"FOO: 1".to_vec()),
        other => panic!("expected a parse error, got {:?}", other),
    }
}

#[test]
fn bad_coefficient_is_rejected() {
    match Metadata::from_bytes(b"R0: abc\nEND\n") {
        Err(Error::Parse(line)) => assert_eq!(line, b"R0: abc".to_vec()),
        other => panic!("expected a parse error, got {:?}", other),
    }
}

#[test]
fn bad_mode_is_rejected() {
    match Metadata::from_bytes(b"mode: 3\nEND\n") {
        Err(Error::Parse(line)) => assert_eq!(line, b"mode: 3".to_vec()),
        other => panic!("expected a parse error, got {:?}", other),
    }
}

#[test]
fn vdd_overflow_is_rejected() {
    match Metadata::from_bytes(b"VDD: 70000\nEND\n") {
        Err(Error::Parse(line)) => assert_eq!(line, b"VDD: 70000".to_vec()),
        other => panic!("expected a parse error, got {:?}", other),
    }
}

#[test]
fn lines_after_end_are_rejected() {
    match Metadata::from_bytes(b"END\nVDD: 3000\nEND\n") {
        Err(Error::Parse(line)) => assert_eq!(line, b"VDD: 3000".to_vec()),
        other => panic!("expected a parse error, got {:?}", other),
    }
}

#[test]
fn terminator_alone_yields_defaults() {
    let m = Metadata::from_bytes(b"END\n").unwrap();
    assert!(!m.calibrated);
    assert_eq!(m.vdd, 0);
    assert_eq!(m.hw, 0);
    assert_eq!(m.mode, MeasurementMode::Source);
    assert_eq!(m.ia, 0);
    let expected_r: [f32; 5] = [1031.64, 101.65, 10.15, 0.94, 0.043];
    for k in 0..5 {
        assert!((coeff(&m.modifiers.r, k) - expected_r[k]).abs() < 1e-4);
        assert!((coeff(&m.modifiers.gs, k) - 1.0).abs() < 1e-4);
        assert!((coeff(&m.modifiers.o, k)).abs() < 1e-4);
    }
}

#[test]
fn crlf_lines_parse() {
    let m = Metadata::from_bytes(b"VDD: 1234\r\nEND\n").unwrap();
    assert_eq!(m.vdd, 1234);
}

#[test]
fn calibrated_flag_values() {
    assert!(!Metadata::from_bytes(b"Calibrated: 0\nEND\n").unwrap().calibrated);
    assert!(Metadata::from_bytes(b"Calibrated: 1\nEND\n").unwrap().calibrated);
    assert!(Metadata::from_bytes(b"Calibrated: yes\nEND\n").unwrap().calibrated);
}

#[test]
fn mode_value_one_is_ampere() {
    let m = Metadata::from_bytes(b"mode: 1\nEND\n").unwrap();
    assert_eq!(m.mode, MeasurementMode::Ampere);
}
