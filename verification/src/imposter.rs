use crate::can::CANMessage;
use crate::controller::{position, ImposterList};
use crate::response::GenerateError;
use crate::sequencing::lemma_single_template_is_steady;
use crate::stub::{Reply, ReplyView, Stub, StubView};
use vstd::prelude::*;

verus! {

/// A virtual device: an identity, the stubs that answer for it, and the
/// messages it has received.
#[derive(Debug)]
pub struct Imposter {
    pub id: u32,
    pub stubs: Vec<Stub>,
    pub messages: Vec<CANMessage>,
}

/// What an imposter holds.
pub struct ImposterView {
    pub id: u32,
    pub stubs: Seq<StubView>,
    pub messages: Seq<CANMessage>,
}

/// The views of a list of stubs, in order.
pub open spec fn stub_views(stubs: Seq<Stub>) -> Seq<StubView> {
    Seq::new(stubs.len(), |i: int| stubs[i]@)
}

/// Whether the stub at `i` accepts the message and none before it does.
pub open spec fn is_first_match(stubs: Seq<StubView>, message: CANMessage, i: int) -> bool {
    &&& 0 <= i < stubs.len()
    &&& stubs[i].matches(message)
    &&& forall|j: int| 0 <= j < i ==> !(#[trigger] stubs[j]).matches(message)
}

/// The index of the first stub that accepts the message, if any does.
pub open spec fn first_match(stubs: Seq<StubView>, message: CANMessage) -> Option<int> {
    if exists|i: int| is_first_match(stubs, message, i) {
        Some(choose|i: int| is_first_match(stubs, message, i))
    } else {
        None
    }
}

/// The reply that holds nothing.
pub open spec fn no_reply() -> ReplyView {
    ReplyView { messages: Seq::empty(), waits: Seq::empty() }
}

/// An outcome with the reply taken by its view.
pub open spec fn outcome_view(outcome: Result<Reply, GenerateError>) -> Result<
    ReplyView,
    GenerateError,
> {
    match outcome {
        Ok(reply) => Ok(reply@),
        Err(error) => Err(error),
    }
}

impl ImposterView {
    /// The imposter after it has been handed a message, and what it answers.
    /// The message is logged in any case. The first stub that accepts the
    /// message answers it, and only that stub changes; where no stub accepts
    /// it the reply is empty.
    pub open spec fn answered(self, message: CANMessage) -> (
        ImposterView,
        Result<ReplyView, GenerateError>,
    ) {
        let logged = ImposterView { messages: self.messages.push(message), ..self };
        match first_match(self.stubs, message) {
            None => (logged, Ok(no_reply())),
            Some(i) => match self.stubs[i].generated() {
                Ok((next, reply)) => (
                    ImposterView { stubs: self.stubs.update(i, next), ..logged },
                    Ok(reply),
                ),
                Err(error) => (logged, Err(error)),
            },
        }
    }
}

/// There is at most one first match, and `first_match` names it.
pub proof fn lemma_first_match(stubs: Seq<StubView>, message: CANMessage, i: int)
    requires
        is_first_match(stubs, message, i),
    ensures
        first_match(stubs, message) == Some(i),
{
    let k = choose|k: int| is_first_match(stubs, message, k);
    if k < i {
        assert(!stubs[k].matches(message));
    } else if i < k {
        assert(!stubs[i].matches(message));
    }
}

/// Where no stub accepts the message there is no first match.
pub proof fn lemma_no_match(stubs: Seq<StubView>, message: CANMessage)
    requires
        forall|j: int| 0 <= j < stubs.len() ==> !(#[trigger] stubs[j]).matches(message),
    ensures
        first_match(stubs, message) is None,
{
}

/// An imposter whose first accepting stub has a single sound template and
/// no behaviors answers with that template's message, every time: but for
/// the log, the imposter stays as it is.
pub proof fn lemma_steady_imposter(imposter: ImposterView, message: CANMessage, i: int)
    requires
        is_first_match(imposter.stubs, message, i),
        imposter.stubs[i].wf(),
        imposter.stubs[i].responses.len() == 1,
        imposter.stubs[i].responses[0].fault() is None,
        imposter.stubs[i].responses[0].behaviors.len() == 0,
    ensures
        imposter.answered(message) == (
            ImposterView { messages: imposter.messages.push(message), ..imposter },
            Ok::<ReplyView, GenerateError>(
                ReplyView {
                    messages: seq![imposter.stubs[i].responses[0].rendered()],
                    waits: Seq::empty(),
                },
            ),
        ),
{
    lemma_first_match(imposter.stubs, message, i);
    lemma_single_template_is_steady(imposter.stubs[i]);
    assert(imposter.stubs.update(i, imposter.stubs[i]) =~= imposter.stubs);
}

impl View for Imposter {
    type V = ImposterView;

    open spec fn view(&self) -> ImposterView {
        ImposterView { id: self.id, stubs: stub_views(self.stubs@), messages: self.messages@ }
    }
}

impl Clone for Imposter {
    fn clone(&self) -> (copy: Imposter)
        ensures
            copy@ == self@,
    {
        let stubs = self.stubs.clone();
        let messages = self.messages.clone();
        assert(stub_views(stubs@) =~= stub_views(self.stubs@));
        assert(messages@ =~= self.messages@);
        Imposter { id: self.id, stubs, messages }
    }
}

impl Imposter {
    /// An imposter that has received nothing yet.
    pub fn new(id: u32, stubs: Vec<Stub>) -> (imposter: Imposter)
        ensures
            imposter@ == (ImposterView {
                id,
                stubs: stub_views(stubs@),
                messages: Seq::empty(),
            }),
    {
        Imposter { id, stubs, messages: Vec::new() }
    }

    /// The messages received so far, oldest first.
    pub fn received_messages(&self) -> (log: &Vec<CANMessage>)
        ensures
            log@ == self@.messages,
    {
        &self.messages
    }

    /// Logs the message and lets the first stub that accepts it answer.
    /// Where no stub accepts it the reply is empty.
    pub fn responses_to_message(&mut self, message: &CANMessage) -> (outcome: Result<
        Reply,
        GenerateError,
    >)
        ensures
            final(self)@ == old(self)@.answered(*message).0,
            outcome_view(outcome) == old(self)@.answered(*message).1,
    {
        self.messages.push(*message);
        assert(self@.stubs == old(self)@.stubs);
        match self.first_matching(message) {
            Some(i) => {
                proof {
                    lemma_first_match(old(self)@.stubs, *message, i as int);
                }
                let ghost before = self.stubs[i as int]@;
                let outcome = self.stubs[i].generate_responses(message);
                proof {
                    let after = self.stubs[i as int]@;
                    assert(self@.stubs =~= old(self)@.stubs.update(i as int, after));
                    if before.generated() is Err {
                        assert(old(self)@.stubs.update(i as int, after) =~= old(self)@.stubs);
                    }
                }
                outcome
            },
            None => {
                proof {
                    lemma_no_match(old(self)@.stubs, *message);
                }
                Ok(Reply { messages: Vec::new(), waits: Vec::new() })
            },
        }
    }

    /// The index of the first stub that accepts the message, if any does.
    fn first_matching(&self, message: &CANMessage) -> (found: Option<usize>)
        ensures
            match found {
                Some(i) => is_first_match(self@.stubs, *message, i as int),
                None => forall|j: int|
                    0 <= j < self@.stubs.len() ==> !(#[trigger] self@.stubs[j]).matches(*message),
            },
    {
        let mut i: usize = 0;
        while i < self.stubs.len()
            invariant
                i <= self.stubs.len(),
                forall|j: int| 0 <= j < i ==> !(#[trigger] self@.stubs[j]).matches(*message),
            decreases self.stubs.len() - i,
        {
            if self.stubs[i].matches_message(message) {
                return Some(i);
            }
            i += 1;
        }
        None
    }
}

/// The list after the imposter with the identifier was handed a message,
/// and what it answers. Only that imposter changes. Where the list holds no
/// such imposter nothing changes and the reply is empty.
pub open spec fn dispatched(entries: Seq<ImposterView>, id: u32, message: CANMessage) -> (
    Seq<ImposterView>,
    Result<ReplyView, GenerateError>,
) {
    match position(entries, id) {
        Some(i) => (entries.update(i, entries[i].answered(message).0), entries[i].answered(
            message,
        ).1),
        None => (entries, Ok(no_reply())),
    }
}

/// One turn of the dispatch loop: hands a received message to the imposter
/// with the identifier and returns the reply that is to be sent.
pub fn respond(id: u32, list: &mut ImposterList, message: &CANMessage) -> (outcome: Result<
    Reply,
    GenerateError,
>)
    requires
        old(list).wf(),
    ensures
        final(list).wf(),
        final(list)@ == dispatched(old(list)@, id, *message).0,
        outcome_view(outcome) == dispatched(old(list)@, id, *message).1,
{
    let answer = |imposter: &mut Imposter| -> (outcome: Result<Reply, GenerateError>)
        ensures
            (*final(imposter))@ == (*old(imposter))@.answered(*message).0,
            outcome_view(outcome) == (*old(imposter))@.answered(*message).1,
        { imposter.responses_to_message(message) };
    match list.do_with_imposter_by_id(id, answer) {
        Some(outcome) => outcome,
        None => Ok(Reply { messages: Vec::new(), waits: Vec::new() }),
    }
}

} // verus!
