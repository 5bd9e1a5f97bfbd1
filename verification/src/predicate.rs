use crate::can::CANMessage;
use crate::utils::{number_value, parse_number};
use vstd::prelude::*;

verus! {

/// The texts of a list of strings, in order.
pub open spec fn texts(strings: Seq<String>) -> Seq<Seq<char>> {
    Seq::new(strings.len(), |i: int| strings[i]@)
}

/// Whether a pattern accepts a value: the wildcard `*` accepts every value,
/// a numeral accepts exactly the number it denotes, and any other text
/// accepts nothing.
pub open spec fn pattern_matches(pattern: Seq<char>, value: u64) -> bool {
    pattern == seq!['*'] || number_value(pattern) == Some(value)
}

/// Whether a message has an identifier that `id` accepts and, position by
/// position, data bytes that the patterns of `data` accept. A message has
/// eight data bytes, so a longer list of patterns accepts no message.
pub open spec fn template_matches(id: Seq<char>, data: Seq<Seq<char>>, message: CANMessage) -> bool {
    &&& pattern_matches(id, message.id)
    &&& data.len() <= 8
    &&& forall|i: int|
        0 <= i < data.len() ==> pattern_matches(#[trigger] data[i], message.data[i] as u64)
}

/// The wildcard accepts every value, and any other pattern accepts a value
/// exactly where it is a numeral that denotes the value.
pub proof fn lemma_pattern_matches(pattern: Seq<char>, value: u64)
    ensures
        pattern_matches(seq!['*'], value),
        pattern != seq!['*'] ==> (pattern_matches(pattern, value) <==> number_value(pattern)
            == Some(value)),
{
}

/// A test on an incoming message.
#[derive(Debug)]
pub enum Predicate {
    /// Accepts a message by its identifier alone.
    Equals { id: String },
    /// Accepts a message by its identifier and its leading data bytes.
    Message { id: String, data: Vec<String> },
}

/// What a predicate holds, as plain text.
pub enum PredicateView {
    Equals { id: Seq<char> },
    Message { id: Seq<char>, data: Seq<Seq<char>> },
}

impl PredicateView {
    /// Whether the predicate accepts the message.
    pub open spec fn matches(self, message: CANMessage) -> bool {
        match self {
            PredicateView::Equals { id } => pattern_matches(id, message.id),
            PredicateView::Message { id, data } => template_matches(id, data, message),
        }
    }
}

impl View for Predicate {
    type V = PredicateView;

    open spec fn view(&self) -> PredicateView {
        match self {
            Predicate::Equals { id } => PredicateView::Equals { id: id@ },
            Predicate::Message { id, data } => PredicateView::Message {
                id: id@,
                data: texts(data@),
            },
        }
    }
}

impl Clone for Predicate {
    fn clone(&self) -> (copy: Predicate)
        ensures
            copy@ == self@,
    {
        match self {
            Predicate::Equals { id } => Predicate::Equals { id: id.clone() },
            Predicate::Message { id, data } => {
                let patterns = data.clone();
                assert(texts(patterns@) =~= texts(data@));
                Predicate::Message { id: id.clone(), data: patterns }
            },
        }
    }
}

impl Predicate {
    /// Evaluates the predicate on a message.
    pub fn eval(&self, message: &CANMessage) -> (accepted: bool)
        ensures
            accepted == self@.matches(*message),
    {
        match self {
            Predicate::Equals { id } => Predicate::equals(message, id),
            Predicate::Message { id, data } => Predicate::matches_template(message, id, data),
        }
    }

    /// Whether the identifier of the message is one that `id` accepts.
    pub fn equals(message: &CANMessage, id: &String) -> (accepted: bool)
        ensures
            accepted == pattern_matches(id@, message.id),
    {
        Predicate::matches_value(id.as_str(), message.id)
    }

    /// Whether the message has an identifier that `id` accepts and data bytes
    /// that the patterns of `data` accept, position by position.
    pub fn matches_template(message: &CANMessage, id: &String, data: &Vec<String>) -> (accepted:
        bool)
        ensures
            accepted == template_matches(id@, texts(data@), *message),
    {
        if !Predicate::matches_value(id.as_str(), message.id) {
            return false;
        }
        if data.len() > 8 {
            return false;
        }
        let mut i: usize = 0;
        while i < data.len()
            invariant
                i <= data.len() <= 8,
                forall|j: int|
                    0 <= j < i ==> pattern_matches(
                        #[trigger] texts(data@)[j],
                        message.data[j] as u64,
                    ),
            decreases data.len() - i,
        {
            if !Predicate::matches_value(data[i].as_str(), message.data[i] as u64) {
                assert(texts(data@)[i as int] == data[i as int]@);
                return false;
            }
            i += 1;
        }
        true
    }

    /// Whether the pattern accepts the value.
    pub fn matches_value(pattern: &str, value: u64) -> (accepted: bool)
        ensures
            accepted == pattern_matches(pattern@, value),
    {
        if pattern.unicode_len() == 1 && pattern.get_char(0) == '*' {
            assert(pattern@ =~= seq!['*']);
            return true;
        }
        assert(pattern@ != seq!['*']) by {
            if pattern@ == seq!['*'] {
                assert(seq!['*'].len() == 1);
                assert(seq!['*'][0] == '*');
            }
        }
        match parse_number(pattern) {
            Some(number) => number == value,
            None => false,
        }
    }
}

} // verus!
