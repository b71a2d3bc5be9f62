//! The command codec: every command the instrument understands, its byte
//! encoding on the wire, and the rule that decides when a response to it is
//! complete.

use vstd::prelude::*;

use crate::types::{DevicePower, MeasurementMode, SourceVoltage};

verus! {

broadcast use crate::types::lemma_source_voltage_view_len;

/// A command for the instrument: one opcode byte, optionally followed by
/// operand bytes.
#[derive(Debug, Clone, Copy)]
pub enum Command {
    NoOp,
    TriggerSet,
    AvgNumSet,
    TriggerWindowSet,
    TriggerIntervalSet,
    TriggerSingleSet,
    AverageStart,
    AverageStop,
    RangeSet,
    LcdSet,
    TriggerStop,
    /// Switch the device power; carries the switch position.
    DeviceRunningSet(DevicePower),
    /// Set the source voltage; carries the two-byte encoded voltage.
    RegulatorSet(SourceVoltage),
    SwitchPointDown,
    SwitchPointUp,
    TriggerExtToggle,
    /// Choose the measurement mode; carries the mode.
    SetPowerMode(MeasurementMode),
    ResUserSet,
    SpikeFilteringOn,
    SpikeFilteringOff,
    GetMetaData,
    Reset,
    SetUserGains,
}

impl Command {
    /// The opcode byte that starts this command's encoding.
    pub open spec fn spec_opcode(self) -> u8 {
        match self {
            Command::NoOp => 0x00,
            Command::TriggerSet => 0x01,
            Command::AvgNumSet => 0x02,
            Command::TriggerWindowSet => 0x03,
            Command::TriggerIntervalSet => 0x04,
            Command::TriggerSingleSet => 0x05,
            Command::AverageStart => 0x06,
            Command::AverageStop => 0x07,
            Command::RangeSet => 0x08,
            Command::LcdSet => 0x09,
            Command::TriggerStop => 0x0A,
            Command::DeviceRunningSet(_) => 0x0C,
            Command::RegulatorSet(_) => 0x0D,
            Command::SwitchPointDown => 0x0E,
            Command::SwitchPointUp => 0x0F,
            Command::TriggerExtToggle => 0x10,
            Command::SetPowerMode(_) => 0x11,
            Command::ResUserSet => 0x12,
            Command::SpikeFilteringOn => 0x15,
            Command::SpikeFilteringOff => 0x16,
            Command::GetMetaData => 0x19,
            Command::Reset => 0x20,
            Command::SetUserGains => 0x25,
        }
    }

    /// The full byte sequence this command puts on the wire: the opcode,
    /// then the operand bytes of the few commands that carry any.
    pub open spec fn spec_bytes(self) -> Seq<u8> {
        match self {
            Command::DeviceRunningSet(power) => seq![0x0Cu8, power.spec_byte()],
            Command::RegulatorSet(vdd) => seq![0x0Du8] + vdd@,
            Command::SetPowerMode(mode) => seq![0x11u8, mode.spec_byte()],
            _ => seq![self.spec_opcode()],
        }
    }

    /// How many response bytes to expect: only [`Command::GetMetaData`] is
    /// answered at all, with a metadata blob of around 512 bytes.
    pub open spec fn spec_expected_response_len(self) -> usize {
        match self {
            Command::GetMetaData => 512usize,
            _ => 0usize,
        }
    }

    /// When a response buffer is complete: for [`Command::GetMetaData`],
    /// exactly when it ends with the bytes `E N D \n`; for every other
    /// command, when it has reached the expected length (zero, so at once).
    pub open spec fn spec_response_complete(self, response: Seq<u8>) -> bool {
        match self {
            Command::GetMetaData => response.len() >= 4
                && response[response.len() - 4] == 0x45u8
                && response[response.len() - 3] == 0x4Eu8
                && response[response.len() - 2] == 0x44u8
                && response[response.len() - 1] == 0x0Au8,
            _ => response.len() >= self.spec_expected_response_len(),
        }
    }

    /// The expected length of the response, as a hint for sizing the
    /// receive buffer.
    pub fn expected_response_len(&self) -> (r: usize)
        ensures
            r == self.spec_expected_response_len(),
    {
        match self {
            Command::GetMetaData => 512,
            _ => 0,
        }
    }

    /// Decide whether `response` is a complete answer to this command.
    pub fn response_complete(&self, response: &[u8]) -> (r: bool)
        ensures
            r == self.spec_response_complete(response@),
    {
        match self {
            Command::GetMetaData => {
                let n = response.len();
                n >= 4 && response[n - 4] == 0x45 && response[n - 3] == 0x4E
                    && response[n - 2] == 0x44 && response[n - 1] == 0x0A
            },
            _ => response.len() >= self.expected_response_len(),
        }
    }

    /// Encode the command into the bytes it puts on the wire.
    pub fn encode(&self) -> (r: Vec<u8>)
        ensures
            r@ == self.spec_bytes(),
    {
        let mut out: Vec<u8> = Vec::new();
        match self {
            Command::DeviceRunningSet(power) => {
                out.push(0x0C);
                out.push(power.to_byte());
            },
            Command::RegulatorSet(vdd) => {
                out.push(0x0D);
                let raw = vdd.raw();
                out.push(raw[0]);
                out.push(raw[1]);
            },
            Command::SetPowerMode(mode) => {
                out.push(0x11);
                out.push(mode.to_byte());
            },
            _ => {
                out.push(self.opcode());
            },
        }
        proof {
            assert(out@ =~= self.spec_bytes());
        }
        out
    }

    /// The opcode byte alone.
    pub fn opcode(&self) -> (r: u8)
        ensures
            r == self.spec_opcode(),
    {
        match self {
            Command::NoOp => 0x00,
            Command::TriggerSet => 0x01,
            Command::AvgNumSet => 0x02,
            Command::TriggerWindowSet => 0x03,
            Command::TriggerIntervalSet => 0x04,
            Command::TriggerSingleSet => 0x05,
            Command::AverageStart => 0x06,
            Command::AverageStop => 0x07,
            Command::RangeSet => 0x08,
            Command::LcdSet => 0x09,
            Command::TriggerStop => 0x0A,
            Command::DeviceRunningSet(_) => 0x0C,
            Command::RegulatorSet(_) => 0x0D,
            Command::SwitchPointDown => 0x0E,
            Command::SwitchPointUp => 0x0F,
            Command::TriggerExtToggle => 0x10,
            Command::SetPowerMode(_) => 0x11,
            Command::ResUserSet => 0x12,
            Command::SpikeFilteringOn => 0x15,
            Command::SpikeFilteringOff => 0x16,
            Command::GetMetaData => 0x19,
            Command::Reset => 0x20,
            Command::SetUserGains => 0x25,
        }
    }

    /// A cursor over this command's encoding, yielding one byte at a time.
    pub fn bytes(&self) -> (r: CommandBytes<'_>)
        ensures
            r.cmd == self,
            r.index == 0,
    {
        CommandBytes { cmd: self, index: 0 }
    }
}

/// A cursor over a command's wire encoding.
#[derive(Debug)]
pub struct CommandBytes<'c> {
    /// The command whose encoding is walked.
    pub cmd: &'c Command,
    /// How many bytes were already handed out.
    pub index: usize,
}

impl<'c> CommandBytes<'c> {
    /// Hand out the next byte of the encoding, or `None` once all bytes
    /// were produced.
    pub fn next(&mut self) -> (r: Option<u8>)
        ensures
            final(self).cmd == old(self).cmd,
            old(self).index < old(self).cmd.spec_bytes().len() ==> {
                &&& r == Some(old(self).cmd.spec_bytes()[old(self).index as int])
                &&& final(self).index == old(self).index + 1
            },
            old(self).index >= old(self).cmd.spec_bytes().len() ==> {
                &&& r is None
                &&& final(self).index == old(self).index
            },
    {
        let i = self.index;
        let b: Option<u8> = if i == 0 {
            Some(self.cmd.opcode())
        } else {
            match self.cmd {
                Command::DeviceRunningSet(power) => if i == 1 {
                    Some(power.to_byte())
                } else {
                    None
                },
                Command::RegulatorSet(vdd) => if i == 1 {
                    Some(vdd.raw()[0])
                } else if i == 2 {
                    Some(vdd.raw()[1])
                } else {
                    None
                },
                Command::SetPowerMode(mode) => if i == 1 {
                    Some(mode.to_byte())
                } else {
                    None
                },
                _ => None,
            }
        };
        if b.is_some() {
            self.index = self.index + 1;
        }
        b
    }
}

} // verus!
