//! Tests for the command codec and the source-voltage encoding.

use ppk2::cmd::Command;
use ppk2::types::{DevicePower, MeasurementMode, SourceVoltage};

#[test]
fn voltage_encoding_reference() {
    // 3300 mV: d = 3300 - 800 + 32 = 2532; bytes 2532/256+3 and 2532%256.
    let v = SourceVoltage::from_millivolts(3300);
    assert_eq!(*v.raw(), [0x0C, 0xE4]);
}

#[test]
fn voltage_encoding_clamps_low() {
    let low = SourceVoltage::from_millivolts(100);
    let floor = SourceVoltage::from_millivolts(800);
    assert_eq!(*low.raw(), *floor.raw());
    // d = 32 at the floor.
    assert_eq!(*floor.raw(), [3, 32]);
}

#[test]
fn voltage_encoding_clamps_high() {
    let high = SourceVoltage::from_millivolts(6000);
    let ceil = SourceVoltage::from_millivolts(5000);
    assert_eq!(*high.raw(), *ceil.raw());
    // d = 5000 - 800 + 32 = 4232 = 16 * 256 + 136.
    assert_eq!(*ceil.raw(), [19, 136]);
}

#[test]
fn regulator_set_on_the_wire() {
    let cmd = Command::RegulatorSet(SourceVoltage::from_millivolts(3300));
    assert_eq!(cmd.encode(), vec![0x0D, 0x0C, 0xE4]);
}

#[test]
fn operand_commands_encode() {
    assert_eq!(Command::DeviceRunningSet(DevicePower::Enabled).encode(), vec![0x0C, 0x01]);
    assert_eq!(Command::DeviceRunningSet(DevicePower::Disabled).encode(), vec![0x0C, 0x00]);
    assert_eq!(Command::SetPowerMode(MeasurementMode::Ampere).encode(), vec![0x11, 0x01]);
    assert_eq!(Command::SetPowerMode(MeasurementMode::Source).encode(), vec![0x11, 0x02]);
}

#[test]
fn plain_commands_encode_to_their_opcode() {
    assert_eq!(Command::NoOp.encode(), vec![0x00]);
    assert_eq!(Command::AverageStart.encode(), vec![0x06]);
    assert_eq!(Command::AverageStop.encode(), vec![0x07]);
    assert_eq!(Command::SpikeFilteringOn.encode(), vec![0x15]);
    assert_eq!(Command::SpikeFilteringOff.encode(), vec![0x16]);
    assert_eq!(Command::GetMetaData.encode(), vec![0x19]);
    assert_eq!(Command::Reset.encode(), vec![0x20]);
    assert_eq!(Command::SetUserGains.encode(), vec![0x25]);
    assert_eq!(Command::TriggerExtToggle.encode(), vec![0x10]);
}

#[test]
fn command_bytes_cursor() {
    let cmd = Command::RegulatorSet(SourceVoltage::from_millivolts(3300));
    let mut cursor = cmd.bytes();
    assert_eq!(cursor.next(), Some(0x0D));
    assert_eq!(cursor.next(), Some(0x0C));
    assert_eq!(cursor.next(), Some(0xE4));
    assert_eq!(cursor.next(), None);
    assert_eq!(cursor.next(), None);

    let mut single = Command::NoOp.bytes();
    assert_eq!(single.next(), Some(0x00));
    assert_eq!(single.next(), None);
}

#[test]
fn expected_response_len() {
    assert_eq!(Command::GetMetaData.expected_response_len(), 512);
    assert_eq!(Command::NoOp.expected_response_len(), 0);
    assert_eq!(Command::AverageStart.expected_response_len(), 0);
}

#[test]
fn response_complete_on_end_marker() {
    let cmd = Command::GetMetaData;
    // Complete exactly when the buffer ends with the bytes E N D \n.
    assert!(cmd.response_complete(b"Calibrated: 0\nEND\n"));
    assert!(cmd.response_complete(&[0x45, 0x4E, 0x44, 0x0A]));
    assert!(!cmd.response_complete(b"END"));
    assert!(!cmd.response_complete(b"END\nmore"));
    assert!(!cmd.response_complete(b""));
    assert!(!cmd.response_complete(b"EN\x44x"));
}

#[test]
fn response_complete_for_silent_commands() {
    assert!(Command::NoOp.response_complete(b""));
    assert!(Command::AverageStart.response_complete(b""));
    assert!(Command::AverageStart.response_complete(b"x"));
}

#[test]
fn mode_from_text() {
    assert_eq!("ampere".parse::<MeasurementMode>().unwrap(), MeasurementMode::Ampere);
    assert_eq!("AMP".parse::<MeasurementMode>().unwrap(), MeasurementMode::Ampere);
    assert_eq!("a".parse::<MeasurementMode>().unwrap(), MeasurementMode::Ampere);
    assert_eq!("Source".parse::<MeasurementMode>().unwrap(), MeasurementMode::Source);
    assert_eq!("s".parse::<MeasurementMode>().unwrap(), MeasurementMode::Source);
    assert!("watt".parse::<MeasurementMode>().is_err());
    assert!("".parse::<MeasurementMode>().is_err());
}

#[test]
fn power_from_text() {
    assert_eq!("disabled".parse::<DevicePower>().unwrap(), DevicePower::Disabled);
    assert_eq!("d".parse::<DevicePower>().unwrap(), DevicePower::Disabled);
    assert_eq!("Enabled".parse::<DevicePower>().unwrap(), DevicePower::Enabled);
    assert_eq!("E".parse::<DevicePower>().unwrap(), DevicePower::Enabled);
    assert!("on".parse::<DevicePower>().is_err());
}

#[test]
fn voltage_from_text() {
    let v = "3300".parse::<SourceVoltage>().unwrap();
    assert_eq!(*v.raw(), [0x0C, 0xE4]);
    let plus = "+3300".parse::<SourceVoltage>().unwrap();
    assert_eq!(*plus.raw(), [0x0C, 0xE4]);
    assert!("".parse::<SourceVoltage>().is_err());
    assert!("12.5".parse::<SourceVoltage>().is_err());
    assert!("70000".parse::<SourceVoltage>().is_err());
}
