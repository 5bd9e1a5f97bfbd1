use crate::can::{message_of, message_text, write_message, CANMessage};
use crate::text::{numeral, padded, push_numeral, push_padded};
use vstd::string::StringExecFns;
use vstd::prelude::*;

verus! {

/// A CAN message in the layout of the PCAN driver interface.
#[derive(Debug, Clone, Copy)]
pub struct TPCANMessage {
    pub id: u64,
    pub message_type: u8,
    pub len: u8,
    pub data: [u8; 8],
}

impl TPCANMessage {
    /// The same message as a `CANMessage`.
    pub open spec fn as_can(self) -> CANMessage {
        CANMessage {
            id: self.id,
            message_type: self.message_type,
            length: self.len,
            data: self.data,
        }
    }

    /// The all-zero message.
    pub fn new() -> (m: TPCANMessage)
        ensures
            m.as_can() == message_of(0, 0, Seq::empty()),
    {
        let m = CANMessage::new();
        TPCANMessage { id: m.id, message_type: m.message_type, len: m.length, data: m.data }
    }

    /// A message with the given identifier, type and data bytes.
    pub fn with_content(id: u64, message_type: u8, data: &[u8]) -> (m: TPCANMessage)
        requires
            data@.len() <= 8,
        ensures
            m.as_can() == message_of(id, message_type, data@),
    {
        let m = CANMessage::with_content(id, message_type, data);
        TPCANMessage { id: m.id, message_type: m.message_type, len: m.length, data: m.data }
    }

    /// The message as text, such as `ID:0101 LEN:2 DATA:20 30 `.
    pub fn as_string(&self) -> (text: String)
        requires
            self.len <= 8,
        ensures
            text@ == message_text(self.id, self.len, self.as_can().payload(), " DATA:"@),
    {
        write_message(self.id, self.len, &self.data, " DATA:")
    }
}

/// The time at which the driver received a message.
#[derive(Debug, Clone, Copy)]
pub struct TPCANTimestamp {
    pub millis: u64,
    pub millis_overflow: u16,
    pub micros: u16,
}

/// A timestamp as text: the overflow count, the milliseconds, and the
/// microseconds in at least three digits, all decimal.
pub open spec fn timestamp_text(millis: u64, millis_overflow: u16, micros: u16) -> Seq<char> {
    numeral(millis_overflow as nat, 10) + "-"@ + numeral(millis as nat, 10) + "-"@ + padded(
        numeral(micros as nat, 10),
        3,
    ) + ": "@
}

impl TPCANTimestamp {
    /// The all-zero timestamp.
    pub fn new() -> (t: TPCANTimestamp)
        ensures
            t.millis == 0,
            t.millis_overflow == 0,
            t.micros == 0,
    {
        TPCANTimestamp { millis: 0, millis_overflow: 0, micros: 0 }
    }

    /// The timestamp as text, such as `0-1500-042: `.
    pub fn as_string(&self) -> (text: String)
        ensures
            text@ == timestamp_text(self.millis, self.millis_overflow, self.micros),
    {
        let mut out = String::new();
        push_numeral(&mut out, self.millis_overflow as u64, 10);
        out.append("-");
        push_numeral(&mut out, self.millis, 10);
        out.append("-");
        push_padded(&mut out, self.micros as u64, 10, 3);
        out.append(": ");
        assert(out@ =~= timestamp_text(self.millis, self.millis_overflow, self.micros));
        out
    }
}

} // verus!
