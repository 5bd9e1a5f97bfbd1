use crate::can::{lemma_message_of, message_of, CANMessage};
use crate::predicate::texts;
use crate::text::{lemma_decimal_reads_back, lemma_hexadecimal_reads_back, numeral};
use crate::utils::{number_value, parse_number};
use vstd::prelude::*;

verus! {

/// A modifier on a response template, applied after the template is rendered.
#[derive(Debug, Clone, Copy, PartialEq, Eq)]
pub enum Behavior {
    /// Delay the reply by this many milliseconds.
    Wait(u64),
    /// Replay the current round this many times before moving on.
    Repeat(usize),
    /// When set, withhold the message that was just rendered.
    Drop(bool),
    /// When set, render the next template into the same reply.
    Concat(bool),
}

/// Why no reply could be generated.
#[derive(Debug, Clone, Copy, PartialEq, Eq)]
pub enum GenerateError {
    /// The stub has no response template.
    NoResponses,
    /// A template's identifier or one of its data bytes is no numeral.
    BadNumber,
    /// A template has more than eight data bytes.
    TooMuchData,
    /// A repeat count of zero was met while no repetition was under way.
    ZeroRepeat,
    /// Every template asks for the next one: the reply would never end.
    Endless,
}

/// The recipe for one response message.
#[derive(Debug)]
pub struct ResponseTemplate {
    pub id: String,
    pub data: Vec<String>,
    pub behaviors: Option<Vec<Behavior>>,
}

/// What a response template holds, as plain text: an absent list of
/// behaviors is the empty list.
pub struct TemplateView {
    pub id: Seq<char>,
    pub data: Seq<Seq<char>>,
    pub behaviors: Seq<Behavior>,
}

/// The byte that a number is stored as: its low eight bits.
pub open spec fn low_byte(n: u64) -> u8 {
    (n % 256) as u8
}

impl TemplateView {
    /// What is wrong with the template, if anything.
    pub open spec fn fault(self) -> Option<GenerateError> {
        if self.data.len() > 8 {
            Some(GenerateError::TooMuchData)
        } else if number_value(self.id) is None || exists|i: int|
            0 <= i < self.data.len() && number_value(#[trigger] self.data[i]) is None {
            Some(GenerateError::BadNumber)
        } else {
            None
        }
    }

    /// The data bytes that the template's patterns denote.
    pub open spec fn bytes(self) -> Seq<u8> {
        Seq::new(self.data.len(), |i: int| low_byte(number_value(self.data[i]).unwrap()))
    }

    /// The message that a sound template renders.
    pub open spec fn rendered(self) -> CANMessage {
        message_of(number_value(self.id).unwrap(), 0, self.bytes())
    }

    /// The outcome of rendering the template.
    pub open spec fn generated(self) -> Result<CANMessage, GenerateError> {
        match self.fault() {
            Some(error) => Err(error),
            None => Ok(self.rendered()),
        }
    }
}

/// A template whose identifier denotes `n`, with sound data, renders a
/// message whose identifier is `n`.
pub proof fn lemma_identifier_is_rendered(template: TemplateView, n: u64)
    requires
        number_value(template.id) == Some(n),
        template.data.len() <= 8,
        forall|i: int| 0 <= i < template.data.len() ==> number_value(template.data[i]) is Some,
    ensures
        template.generated() matches Ok(message) && message.id == n,
{
}

/// Round trip: a template whose identifier is the decimal numeral of `n`, or
/// its hexadecimal numeral behind `0x`, renders a message whose identifier
/// is `n`.
pub proof fn lemma_identifier_round_trip(template: TemplateView, n: u64)
    requires
        template.id == numeral(n as nat, 10) || template.id == seq!['0', 'x'] + numeral(
            n as nat,
            16,
        ),
        template.data.len() <= 8,
        forall|i: int| 0 <= i < template.data.len() ==> number_value(template.data[i]) is Some,
    ensures
        template.generated() matches Ok(message) && message.id == n,
{
    lemma_decimal_reads_back(n);
    lemma_hexadecimal_reads_back(n);
    lemma_identifier_is_rendered(template, n);
}

impl View for ResponseTemplate {
    type V = TemplateView;

    open spec fn view(&self) -> TemplateView {
        TemplateView {
            id: self.id@,
            data: texts(self.data@),
            behaviors: match self.behaviors {
                Some(list) => list@,
                None => Seq::empty(),
            },
        }
    }
}

impl Clone for ResponseTemplate {
    fn clone(&self) -> (copy: ResponseTemplate)
        ensures
            copy@ == self@,
    {
        let data = self.data.clone();
        assert(texts(data@) =~= texts(self.data@));
        let behaviors = match &self.behaviors {
            Some(list) => {
                let copied = list.clone();
                assert(copied@ =~= list@);
                Some(copied)
            },
            None => None,
        };
        ResponseTemplate { id: self.id.clone(), data, behaviors }
    }
}

impl ResponseTemplate {
    /// A template with the given identifier pattern, data patterns and behaviors.
    pub fn new(id: String, data: Vec<String>, behaviors: Option<Vec<Behavior>>) -> (template:
        ResponseTemplate)
        ensures
            template.id == id,
            template.data == data,
            template.behaviors == behaviors,
    {
        ResponseTemplate { id, data, behaviors }
    }

    /// Renders the template: the identifier and each data byte are the
    /// numbers that the patterns denote, a data byte being the low eight bits
    /// of its number. Fails where there are more than eight data bytes or a
    /// pattern is no numeral.
    pub fn generate_response(&self, _message: &CANMessage) -> (outcome: Result<
        CANMessage,
        GenerateError,
    >)
        ensures
            outcome == self@.generated(),
            outcome matches Ok(response) ==> response.wf(),
    {
        if self.data.len() > 8 {
            return Err(GenerateError::TooMuchData);
        }
        let id = match parse_number(self.id.as_str()) {
            Some(id) => id,
            None => {
                return Err(GenerateError::BadNumber);
            },
        };
        let mut bytes: [u8; 8] = [0u8; 8];
        let mut i: usize = 0;
        while i < self.data.len()
            invariant
                i <= self.data.len() <= 8,
                forall|j: int|
                    0 <= j < i ==> number_value(#[trigger] self@.data[j]) is Some && bytes[j]
                        == self@.bytes()[j],
                forall|j: int| i <= j < 8 ==> bytes[j] == 0,
            decreases self.data.len() - i,
        {
            match parse_number(self.data[i].as_str()) {
                Some(number) => {
                    bytes[i] = (number % 256) as u8;
                },
                None => {
                    assert(number_value(self@.data[i as int]) is None);
                    return Err(GenerateError::BadNumber);
                },
            }
            i += 1;
        }
        let response = CANMessage {
            id,
            message_type: 0,
            length: self.data.len() as u8,
            data: bytes,
        };
        assert(response.data =~= self@.rendered().data);
        proof {
            lemma_message_of(id, 0, self@.bytes());
        }
        Ok(response)
    }
}

} // verus!
