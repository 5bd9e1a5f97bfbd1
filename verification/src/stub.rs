use crate::can::CANMessage;
use crate::predicate::{Predicate, PredicateView};
use crate::response::{Behavior, GenerateError, ResponseTemplate, TemplateView};
use vstd::prelude::*;

verus! {

/// What one incoming message is answered with: the messages to send, in
/// order, and the delays, in milliseconds, to observe before sending them.
#[derive(Debug)]
pub struct Reply {
    pub messages: Vec<CANMessage>,
    pub waits: Vec<u64>,
}

/// A reply as plain sequences.
pub struct ReplyView {
    pub messages: Seq<CANMessage>,
    pub waits: Seq<u64>,
}

impl View for Reply {
    type V = ReplyView;

    open spec fn view(&self) -> ReplyView {
        ReplyView { messages: self.messages@, waits: self.waits@ }
    }
}

/// The state of a reply under construction: the template to render next,
/// the repetitions still owed, and what the reply holds so far.
pub struct Progress {
    pub cursor: nat,
    pub repeats: nat,
    pub messages: Seq<CANMessage>,
    pub waits: Seq<u64>,
}

/// What the behaviors of one template have settled so far.
pub struct Effects {
    /// The repetitions still owed.
    pub repeats: nat,
    /// The delays asked for, in order.
    pub waits: Seq<u64>,
    /// Whether the template's message is withheld from the reply.
    pub dropped: bool,
    /// Whether the next template joins the same reply.
    pub again: bool,
}

/// The repetitions owed after a `Repeat(count)` was applied while `owed`
/// were owed: a new count is taken up only while none is owed, and one
/// repetition is used up at once.
pub open spec fn owed_after(owed: nat, count: nat) -> nat {
    if owed == 0 {
        (count - 1) as nat
    } else {
        (owed - 1) as nat
    }
}

/// The effect of one behavior.
///
/// `Wait` adds a delay. `Repeat` takes up its count only while no
/// repetition is owed, then uses one up; with nothing to use up it fails.
/// `Drop`, when set, withholds the template's message. `Concat` says whether
/// the next template joins the reply; the last one of a template decides.
pub open spec fn behave(behavior: Behavior, e: Effects) -> Result<Effects, GenerateError> {
    match behavior {
        Behavior::Wait(ms) => Ok(Effects { waits: e.waits.push(ms), ..e }),
        Behavior::Repeat(count) => if e.repeats == 0 && count == 0 {
            Err(GenerateError::ZeroRepeat)
        } else {
            Ok(Effects { repeats: owed_after(e.repeats, count as nat), ..e })
        },
        Behavior::Drop(flag) => Ok(Effects { dropped: e.dropped || flag, ..e }),
        Behavior::Concat(flag) => Ok(Effects { again: flag, ..e }),
    }
}

/// The effect of a list of behaviors, applied in order. The first failure ends it.
pub open spec fn behave_all(behaviors: Seq<Behavior>, e: Effects) -> Result<
    Effects,
    GenerateError,
>
    decreases behaviors.len(),
{
    if behaviors.len() == 0 {
        Ok(e)
    } else {
        match behave(behaviors[0], e) {
            Ok(next) => behave_all(behaviors.drop_first(), next),
            Err(error) => Err(error),
        }
    }
}

/// The views of a list of predicates, in order.
pub open spec fn predicate_views(predicates: Seq<Predicate>) -> Seq<PredicateView> {
    Seq::new(predicates.len(), |i: int| predicates[i]@)
}

/// The views of a list of response templates, in order.
pub open spec fn template_views(templates: Seq<ResponseTemplate>) -> Seq<TemplateView> {
    Seq::new(templates.len(), |i: int| templates[i]@)
}

/// What a stub holds: its predicates, its response templates, the index of
/// the template to render next, and the repetitions still owed.
pub struct StubView {
    pub predicates: Seq<PredicateView>,
    pub responses: Seq<TemplateView>,
    pub cursor: nat,
    pub repeats: nat,
}

impl StubView {
    /// The cursor points at a template, where there is one.
    pub open spec fn wf(self) -> bool {
        self.responses.len() > 0 ==> self.cursor < self.responses.len()
    }

    /// Whether every predicate accepts the message. A stub without
    /// predicates accepts every message.
    pub open spec fn matches(self, message: CANMessage) -> bool {
        forall|i: int|
            0 <= i < self.predicates.len() ==> (#[trigger] self.predicates[i]).matches(message)
    }

    /// Renders the template under the cursor and applies its behaviors:
    /// the message joins the reply unless it is dropped, and the cursor
    /// moves on by one, round the end of the list, whether it is dropped or
    /// not. Also says whether another template is to follow.
    pub open spec fn render_next(self, p: Progress) -> Result<(Progress, bool), GenerateError> {
        let template = self.responses[p.cursor as int];
        match template.generated() {
            Err(error) => Err(error),
            Ok(message) => match behave_all(
                template.behaviors,
                Effects { repeats: p.repeats, waits: p.waits, dropped: false, again: false },
            ) {
                Err(error) => Err(error),
                Ok(e) => Ok(
                    (
                        Progress {
                            cursor: ((p.cursor + 1) % self.responses.len()) as nat,
                            repeats: e.repeats,
                            messages: if e.dropped {
                                p.messages
                            } else {
                                p.messages.push(message)
                            },
                            waits: e.waits,
                        },
                        e.again,
                    ),
                ),
            },
        }
    }

    /// Renders templates for as long as the last one asked for another, at
    /// most `fuel` of them. Running out of fuel is the failure `Endless`.
    pub open spec fn run(self, p: Progress, fuel: nat) -> Result<Progress, GenerateError>
        decreases fuel,
    {
        if fuel == 0 {
            Err(GenerateError::Endless)
        } else {
            match self.render_next(p) {
                Err(error) => Err(error),
                Ok((q, again)) => if again {
                    self.run(q, (fuel - 1) as nat)
                } else {
                    Ok(q)
                },
            }
        }
    }

    /// The state in which the stub starts a reply.
    pub open spec fn start(self) -> Progress {
        Progress {
            cursor: self.cursor,
            repeats: self.repeats,
            messages: Seq::empty(),
            waits: Seq::empty(),
        }
    }

    /// The outcome of answering one message: the stub afterwards and the
    /// reply, or the reason why there is none.
    ///
    /// A reply that renders every template once and still asks for another
    /// would go round for ever, so the list's length is all the fuel it gets.
    /// While repetitions are owed the cursor returns to where the reply began.
    pub open spec fn generated(self) -> Result<(StubView, ReplyView), GenerateError> {
        if self.responses.len() == 0 {
            Err(GenerateError::NoResponses)
        } else {
            match self.run(self.start(), self.responses.len()) {
                Err(error) => Err(error),
                Ok(p) => Ok(
                    (
                        StubView {
                            cursor: if p.repeats > 0 {
                                self.cursor
                            } else {
                                p.cursor
                            },
                            repeats: p.repeats,
                            ..self
                        },
                        ReplyView { messages: p.messages, waits: p.waits },
                    ),
                ),
            }
        }
    }
}

/// A matching rule and the stateful program that answers what matches.
#[derive(Debug)]
pub struct Stub {
    predicates: Vec<Predicate>,
    responses: Vec<ResponseTemplate>,
    response_idx: usize,
    response_repeats: usize,
}

impl View for Stub {
    type V = StubView;

    closed spec fn view(&self) -> StubView {
        StubView {
            predicates: predicate_views(self.predicates@),
            responses: template_views(self.responses@),
            cursor: self.response_idx as nat,
            repeats: self.response_repeats as nat,
        }
    }
}

/// A reply under construction, as the executable code holds it.
struct Round {
    cursor: usize,
    repeats: usize,
    messages: Vec<CANMessage>,
    waits: Vec<u64>,
}

/// What the behaviors of one template have settled, but for the delays.
struct Settled {
    repeats: usize,
    dropped: bool,
    again: bool,
}

impl View for Round {
    type V = Progress;

    closed spec fn view(&self) -> Progress {
        Progress {
            cursor: self.cursor as nat,
            repeats: self.repeats as nat,
            messages: self.messages@,
            waits: self.waits@,
        }
    }
}

/// A stub without predicates accepts every message.
pub proof fn lemma_no_predicates_match_all(stub: StubView, message: CANMessage)
    requires
        stub.predicates.len() == 0,
    ensures
        stub.matches(message),
{
}

impl Clone for Stub {
    fn clone(&self) -> (copy: Stub)
        ensures
            copy@ == self@,
    {
        proof {
            use_type_invariant(self);
        }
        let predicates = self.predicates.clone();
        let responses = self.responses.clone();
        assert(predicate_views(predicates@) =~= predicate_views(self.predicates@));
        assert(template_views(responses@) =~= template_views(self.responses@));
        Stub {
            predicates,
            responses,
            response_idx: self.response_idx,
            response_repeats: self.response_repeats,
        }
    }
}

impl Stub {
    #[verifier::type_invariant]
    spec fn cursor_in_range(self) -> bool {
        self.responses.len() > 0 ==> self.response_idx < self.responses.len()
    }

    /// A stub at the start of its response list, with no repetition owed.
    pub fn new(predicates: Vec<Predicate>, responses: Vec<ResponseTemplate>) -> (stub: Stub)
        ensures
            stub@ == (StubView {
                predicates: predicate_views(predicates@),
                responses: template_views(responses@),
                cursor: 0,
                repeats: 0,
            }),
    {
        Stub { predicates, responses, response_idx: 0, response_repeats: 0 }
    }

    /// The predicates of the stub, in order.
    pub fn predicates(&self) -> (predicates: &Vec<Predicate>)
        ensures
            predicate_views(predicates@) == self@.predicates,
    {
        &self.predicates
    }

    /// The response templates of the stub, in order.
    pub fn responses(&self) -> (responses: &Vec<ResponseTemplate>)
        ensures
            template_views(responses@) == self@.responses,
    {
        &self.responses
    }

    /// Whether every predicate of the stub accepts the message.
    pub fn matches_message(&self, message: &CANMessage) -> (accepted: bool)
        ensures
            accepted == self@.matches(*message),
    {
        let mut i: usize = 0;
        while i < self.predicates.len()
            invariant
                i <= self.predicates.len(),
                forall|j: int| 0 <= j < i ==> (#[trigger] self@.predicates[j]).matches(*message),
            decreases self.predicates.len() - i,
        {
            if !self.predicates[i].eval(message) {
                assert(!self@.predicates[i as int].matches(*message));
                return false;
            }
            i += 1;
        }
        true
    }

    /// Answers one message. The template under the cursor is rendered and
    /// its behaviors applied in order; while the last `Concat` of a template
    /// is set, the next template joins the same reply. The cursor moves on
    /// by one per rendered template, and returns to where the reply began
    /// for as long as repetitions are owed. On failure the stub is unchanged.
    pub fn generate_responses(&mut self, message: &CANMessage) -> (outcome: Result<
        Reply,
        GenerateError,
    >)
        ensures
            final(self)@.wf(),
            match old(self)@.generated() {
                Ok((next, reply)) => outcome matches Ok(out) && out@ == reply && final(self)@
                    == next,
                Err(error) => outcome matches Err(e) && e == error && final(self)@ == old(self)@,
            },
    {
        proof {
            use_type_invariant(&*self);
        }
        let count = self.responses.len();
        if count == 0 {
            return Err(GenerateError::NoResponses);
        }
        let first = self.response_idx;
        let mut round = Round {
            cursor: first,
            repeats: self.response_repeats,
            messages: Vec::new(),
            waits: Vec::new(),
        };
        let ghost whole = self@.run(self@.start(), count as nat);
        let mut steps: usize = 0;
        let mut again = true;
        while again
            invariant
                *self == *old(self),
                count == self.responses.len(),
                count > 0,
                first == self.response_idx,
                steps <= count,
                round.cursor < count,
                self@.wf(),
                whole == self@.run(self@.start(), count as nat),
                again ==> whole == self@.run(round@, (count - steps) as nat),
                !again ==> whole == Ok::<Progress, GenerateError>(round@),
            decreases count - steps,
        {
            if steps == count {
                return Err(GenerateError::Endless);
            }
            let ghost before = round@;
            let template = &self.responses[round.cursor];
            assert(self@.responses[before.cursor as int] == template@);
            let response = match template.generate_response(message) {
                Ok(response) => response,
                Err(error) => {
                    assert(self@.render_next(before) is Err);
                    return Err(error);
                },
            };
            let settled = match Stub::apply_behaviors(template, round.repeats, &mut round.waits) {
                Ok(settled) => settled,
                Err(error) => {
                    assert(self@.render_next(before) is Err);
                    return Err(error);
                },
            };
            round.repeats = settled.repeats;
            if !settled.dropped {
                round.messages.push(response);
            }
            again = settled.again;
            round.cursor = (round.cursor + 1) % count;
            steps += 1;
            assert(self@.render_next(before) == Ok::<(Progress, bool), GenerateError>(
                (round@, again),
            ));
        }
        self.response_repeats = round.repeats;
        self.response_idx = if round.repeats > 0 {
            first
        } else {
            round.cursor
        };
        Ok(Reply { messages: round.messages, waits: round.waits })
    }

    /// Applies the behaviors of a template, in order: the delays go to
    /// `waits`, and the rest of what they settle is returned.
    fn apply_behaviors(template: &ResponseTemplate, owed: usize, waits: &mut Vec<u64>) -> (outcome:
        Result<Settled, GenerateError>)
        ensures
            match behave_all(
                template@.behaviors,
                Effects { repeats: owed as nat, waits: old(waits)@, dropped: false, again: false },
            ) {
                Ok(e) => outcome matches Ok(settled) && e == (Effects {
                    repeats: settled.repeats as nat,
                    waits: final(waits)@,
                    dropped: settled.dropped,
                    again: settled.again,
                }),
                Err(error) => outcome matches Err(e) && e == error,
            },
    {
        let mut settled = Settled { repeats: owed, dropped: false, again: false };
        match &template.behaviors {
            None => {},
            Some(list) => {
                let mut i: usize = 0;
                assert(list@.skip(0) =~= list@);
                while i < list.len()
                    invariant
                        i <= list.len(),
                        list@ == template@.behaviors,
                        behave_all(
                            list@,
                            Effects {
                                repeats: owed as nat,
                                waits: old(waits)@,
                                dropped: false,
                                again: false,
                            },
                        ) == behave_all(
                            list@.skip(i as int),
                            Effects {
                                repeats: settled.repeats as nat,
                                waits: waits@,
                                dropped: settled.dropped,
                                again: settled.again,
                            },
                        ),
                    decreases list.len() - i,
                {
                    let ghost rest = list@.skip(i as int);
                    assert(rest[0] == list@[i as int]);
                    assert(rest.drop_first() =~= list@.skip(i + 1));
                    match list[i] {
                        Behavior::Wait(ms) => {
                            waits.push(ms);
                        },
                        Behavior::Repeat(count) => {
                            match Stub::update_response_repeats(settled.repeats, count) {
                                Some(left) => {
                                    settled.repeats = left;
                                },
                                None => {
                                    return Err(GenerateError::ZeroRepeat);
                                },
                            }
                        },
                        Behavior::Drop(flag) => {
                            settled.dropped = settled.dropped || flag;
                        },
                        Behavior::Concat(flag) => {
                            settled.again = flag;
                        },
                    }
                    i += 1;
                }
                assert(list@.skip(i as int) =~= Seq::<Behavior>::empty());
            },
        }
        Ok(settled)
    }

    /// The repetitions owed after a `Repeat(count)`: a new count is taken up
    /// only while none is owed, and one repetition is used up at once.
    /// `None` where there is nothing to use up.
    fn update_response_repeats(owed: usize, count: usize) -> (left: Option<usize>)
        ensures
            owed == 0 && count == 0 ==> left is None,
            owed > 0 || count > 0 ==> left == Some(owed_after(owed as nat, count as nat) as usize),
    {
        let armed = if owed == 0 {
            count
        } else {
            owed
        };
        if armed == 0 {
            None
        } else {
            Some(armed - 1)
        }
    }
}

} // verus!
