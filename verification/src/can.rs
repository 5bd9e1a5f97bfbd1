use crate::text::{numeral, padded, push_char, push_padded};
use vstd::string::StringExecFns;
use vstd::prelude::*;

verus! {

/// A single CAN bus message: identifier, type, and up to eight data bytes.
#[derive(Debug, Clone, Copy, PartialEq, Eq)]
pub struct CANMessage {
    pub id: u64,
    pub message_type: u8,
    pub length: u8,
    pub data: [u8; 8],
}

/// The byte at position `i` of `bytes`, and zero past its end.
pub open spec fn byte_at(bytes: Seq<u8>, i: int) -> u8 {
    if 0 <= i < bytes.len() {
        bytes[i]
    } else {
        0
    }
}

/// The message that carries the given bytes, at most eight of them: its
/// length is their number, and the unused tail of its data array is zero.
pub open spec fn message_of(id: u64, message_type: u8, bytes: Seq<u8>) -> CANMessage {
    CANMessage {
        id,
        message_type,
        length: bytes.len() as u8,
        data: [
            byte_at(bytes, 0),
            byte_at(bytes, 1),
            byte_at(bytes, 2),
            byte_at(bytes, 3),
            byte_at(bytes, 4),
            byte_at(bytes, 5),
            byte_at(bytes, 6),
            byte_at(bytes, 7),
        ],
    }
}

/// Data bytes as text: each byte as two hexadecimal digits and a space.
pub open spec fn data_text(bytes: Seq<u8>) -> Seq<char>
    decreases bytes.len(),
{
    if bytes.len() == 0 {
        Seq::empty()
    } else {
        data_text(bytes.drop_last()) + padded(numeral(bytes.last() as nat, 16), 2) + seq![' ']
    }
}

/// A message as text: the identifier in at least four hexadecimal digits,
/// the length in hexadecimal, then `label` and the data bytes.
pub open spec fn message_text(id: u64, length: u8, bytes: Seq<u8>, label: Seq<char>) -> Seq<
    char,
> {
    "ID:"@ + padded(numeral(id as nat, 16), 4) + " LEN:"@ + padded(numeral(length as nat, 16), 1)
        + label + data_text(bytes)
}

/// Writes a message as text, with `label` in front of the data bytes.
pub fn write_message(id: u64, length: u8, data: &[u8; 8], label: &str) -> (text: String)
    requires
        length <= 8,
    ensures
        text@ == message_text(id, length, data@.subrange(0, length as int), label@),
{
    let mut out = String::from_str("ID:");
    push_padded(&mut out, id, 16, 4);
    out.append(" LEN:");
    push_padded(&mut out, length as u64, 16, 1);
    out.append(label);
    let ghost head = out@;
    let mut i: usize = 0;
    assert(data@.subrange(0, 0) =~= Seq::<u8>::empty());
    while i < length as usize
        invariant
            i <= length <= 8,
            out@ == head + data_text(data@.subrange(0, i as int)),
        decreases length - i,
    {
        let ghost before = data@.subrange(0, i as int);
        let ghost after = data@.subrange(0, i + 1);
        assert(after.drop_last() =~= before);
        assert(after.last() == data[i as int]);
        push_padded(&mut out, data[i] as u64, 16, 2);
        push_char(&mut out, ' ');
        i += 1;
        assert(out@ =~= head + data_text(after));
    }
    assert(out@ =~= message_text(id, length, data@.subrange(0, length as int), label@));
    out
}

impl CANMessage {
    /// A message carries at most eight bytes, and the bytes past its length are zero.
    pub open spec fn wf(&self) -> bool {
        &&& self.length <= 8
        &&& forall|i: int| self.length <= i < 8 ==> self.data[i] == 0
    }

    /// The populated data bytes, in order.
    pub open spec fn payload(&self) -> Seq<u8> {
        self.data@.subrange(0, self.length as int)
    }

    /// The all-zero message.
    pub fn new() -> (m: CANMessage)
        ensures
            m == message_of(0, 0, Seq::empty()),
            m.wf(),
    {
        let m = CANMessage { id: 0, message_type: 0, length: 0, data: [0u8; 8] };
        assert(m.data =~= message_of(0, 0, Seq::empty()).data);
        proof {
            lemma_message_of(0, 0, Seq::empty());
        }
        m
    }

    /// A message with the given identifier, type and data bytes.
    pub fn with_content(id: u64, message_type: u8, data: &[u8]) -> (m: CANMessage)
        requires
            data@.len() <= 8,
        ensures
            m == message_of(id, message_type, data@),
            m.wf(),
            m.payload() == data@,
    {
        let mut m = CANMessage::new();
        m.id = id;
        m.message_type = message_type;
        m.length = data.len() as u8;
        let mut i: usize = 0;
        while i < data.len()
            invariant
                i <= data@.len() <= 8,
                m.id == id,
                m.message_type == message_type,
                m.length == data@.len(),
                forall|j: int| 0 <= j < i ==> m.data[j] == data@[j],
                forall|j: int| i <= j < 8 ==> m.data[j] == 0,
            decreases data@.len() - i,
        {
            m.data[i] = data[i];
            i += 1;
        }
        assert(m.data =~= message_of(id, message_type, data@).data);
        proof {
            lemma_message_of(id, message_type, data@);
        }
        m
    }

    /// The message as text, such as `ID:0101 LEN:2 DATA: 20 30 `.
    pub fn as_string(&self) -> (text: String)
        requires
            self.length <= 8,
        ensures
            text@ == message_text(self.id, self.length, self.payload(), " DATA: "@),
    {
        write_message(self.id, self.length, &self.data, " DATA: ")
    }
}

/// A message made by `message_of` is well formed, and its payload is the
/// bytes it was made from.
pub proof fn lemma_message_of(id: u64, message_type: u8, bytes: Seq<u8>)
    requires
        bytes.len() <= 8,
    ensures
        message_of(id, message_type, bytes).wf(),
        message_of(id, message_type, bytes).payload() == bytes,
{
    let m = message_of(id, message_type, bytes);
    assert(m.payload() =~= bytes);
}

} // verus!
