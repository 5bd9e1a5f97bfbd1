use crate::can::CANMessage;
use crate::response::{Behavior, GenerateError};
use crate::stub::{behave, behave_all, owed_after, Effects, Progress, ReplyView, StubView};
use vstd::arithmetic::div_mod::{lemma_add_mod_noop_right, lemma_mod_bound, lemma_small_mod};
use vstd::prelude::*;

verus! {

/// The delays that a list of behaviors asks for, in order.
pub open spec fn waits_of(behaviors: Seq<Behavior>) -> Seq<u64>
    decreases behaviors.len(),
{
    if behaviors.len() == 0 {
        Seq::empty()
    } else {
        match behaviors[0] {
            Behavior::Wait(ms) => seq![ms] + waits_of(behaviors.drop_first()),
            _ => waits_of(behaviors.drop_first()),
        }
    }
}

/// Whether some behavior of the list is a set `Drop`.
pub open spec fn drops(behaviors: Seq<Behavior>) -> bool {
    exists|i: int| 0 <= i < behaviors.len() && behaviors[i] == Behavior::Drop(true)
}

/// The flag of the last `Concat` of the list; `otherwise` where it has none.
pub open spec fn joins(behaviors: Seq<Behavior>, otherwise: bool) -> bool
    decreases behaviors.len(),
{
    if behaviors.len() == 0 {
        otherwise
    } else {
        match behaviors[0] {
            Behavior::Concat(flag) => joins(behaviors.drop_first(), flag),
            _ => joins(behaviors.drop_first(), otherwise),
        }
    }
}

/// Whether some behavior of the list is a `Repeat`.
pub open spec fn repeats_in(behaviors: Seq<Behavior>) -> bool {
    exists|i: int| 0 <= i < behaviors.len() && behaviors[i] is Repeat
}

/// What a list of behaviors settles, where it does not fail: its delays are
/// added in order, the message is withheld if any `Drop` is set, and the
/// last `Concat` decides whether another template follows. Without a
/// `Repeat` the list cannot fail, and the repetitions owed stay as they are.
pub proof fn lemma_behave_all(behaviors: Seq<Behavior>, e: Effects)
    ensures
        behave_all(behaviors, e) matches Ok(settled) ==> {
            &&& settled.waits == e.waits + waits_of(behaviors)
            &&& settled.dropped == (e.dropped || drops(behaviors))
            &&& settled.again == joins(behaviors, e.again)
        },
        !repeats_in(behaviors) ==> (behave_all(behaviors, e) matches Ok(settled)
            && settled.repeats == e.repeats),
    decreases behaviors.len(),
{
    if behaviors.len() == 0 {
        assert(e.waits + waits_of(behaviors) =~= e.waits);
    } else {
        let rest = behaviors.drop_first();
        assert forall|i: int| 0 <= i < rest.len() implies rest[i] == behaviors[i + 1] by {}
        if !repeats_in(behaviors) {
            assert(!(behaviors[0] is Repeat));
            assert forall|i: int| 0 <= i < rest.len() implies !(rest[i] is Repeat) by {
                assert(rest[i] == behaviors[i + 1]);
            }
        }
        match behave(behaviors[0], e) {
            Ok(next) => {
                lemma_behave_all(rest, next);
                assert(next.waits + waits_of(rest) =~= e.waits + waits_of(behaviors));
                if drops(rest) {
                    let i = choose|i: int| 0 <= i < rest.len() && rest[i] == Behavior::Drop(true);
                    assert(behaviors[i + 1] == Behavior::Drop(true));
                }
                if drops(behaviors) && behaviors[0] != Behavior::Drop(true) {
                    let i = choose|i: int|
                        0 <= i < behaviors.len() && behaviors[i] == Behavior::Drop(true);
                    assert(rest[i - 1] == Behavior::Drop(true));
                }
            },
            Err(_) => {},
        }
    }
}

/// The index that lies `steps` templates after `cursor`, round the end of a
/// list of `count` templates.
#[verifier::opaque]
pub open spec fn ahead(cursor: nat, steps: nat, count: nat) -> int {
    ((cursor + steps) % count) as int
}

/// A reply of one template: where the template under the cursor is sound,
/// has no `Repeat` and asks for no other template, the reply holds its
/// delays and, unless a `Drop` is set, its message. The cursor moves on by
/// one whether the message is dropped or not, or stays while repetitions
/// are owed.
pub proof fn lemma_single_reply(stub: StubView)
    requires
        stub.wf(),
        stub.responses.len() > 0,
        stub.responses[stub.cursor as int].fault() is None,
        !repeats_in(stub.responses[stub.cursor as int].behaviors),
        !joins(stub.responses[stub.cursor as int].behaviors, false),
    ensures
        stub.generated() == Ok::<(StubView, ReplyView), GenerateError>(
            (
                StubView {
                    cursor: if stub.repeats > 0 {
                        stub.cursor
                    } else {
                        ((stub.cursor + 1) % stub.responses.len()) as nat
                    },
                    ..stub
                },
                ReplyView {
                    messages: if drops(stub.responses[stub.cursor as int].behaviors) {
                        Seq::empty()
                    } else {
                        seq![stub.responses[stub.cursor as int].rendered()]
                    },
                    waits: waits_of(stub.responses[stub.cursor as int].behaviors),
                },
            ),
        ),
{
    let template = stub.responses[stub.cursor as int];
    let start = stub.start();
    let fresh = Effects { repeats: start.repeats, waits: start.waits, dropped: false, again: false };
    lemma_behave_all(template.behaviors, fresh);
    let settled = behave_all(template.behaviors, fresh)->Ok_0;
    assert(settled.waits =~= waits_of(template.behaviors));
    assert(start.messages.push(template.rendered()) =~= seq![template.rendered()]);
    assert(stub.run(start, stub.responses.len()) == Ok::<Progress, GenerateError>(
        Progress {
            cursor: ((stub.cursor + 1) % stub.responses.len()) as nat,
            repeats: stub.repeats,
            messages: if drops(template.behaviors) {
                Seq::empty()
            } else {
                seq![template.rendered()]
            },
            waits: waits_of(template.behaviors),
        },
    ));
}

/// Where the template under the cursor is sound and has no behaviors, the
/// reply is that template's message alone; the cursor moves on by one, or
/// stays while repetitions are owed.
pub proof fn lemma_plain_template(stub: StubView)
    requires
        stub.wf(),
        stub.responses.len() > 0,
        stub.responses[stub.cursor as int].fault() is None,
        stub.responses[stub.cursor as int].behaviors.len() == 0,
    ensures
        stub.generated() == Ok::<(StubView, ReplyView), GenerateError>(
            (
                StubView {
                    cursor: if stub.repeats > 0 {
                        stub.cursor
                    } else {
                        ((stub.cursor + 1) % stub.responses.len()) as nat
                    },
                    ..stub
                },
                ReplyView {
                    messages: seq![stub.responses[stub.cursor as int].rendered()],
                    waits: Seq::empty(),
                },
            ),
        ),
{
    let template = stub.responses[stub.cursor as int];
    let start = stub.start();
    assert(start.messages.push(template.rendered()) =~= seq![template.rendered()]);
    assert(stub.run(start, stub.responses.len()) == Ok::<Progress, GenerateError>(
        Progress {
            cursor: ((stub.cursor + 1) % stub.responses.len()) as nat,
            messages: seq![template.rendered()],
            ..start
        },
    ));
}

/// Where the template under the cursor is sound and does nothing but
/// repeat, the reply is that template's message alone; the cursor stays for
/// as long as repetitions are owed afterwards, and moves on by one when
/// none is.
pub proof fn lemma_repeated_template(stub: StubView, count: usize)
    requires
        stub.wf(),
        stub.responses.len() > 0,
        stub.responses[stub.cursor as int].fault() is None,
        stub.responses[stub.cursor as int].behaviors == seq![Behavior::Repeat(count)],
        stub.repeats > 0 || count > 0,
    ensures
        stub.generated() == Ok::<(StubView, ReplyView), GenerateError>(
            (
                StubView {
                    cursor: if owed_after(stub.repeats, count as nat) > 0 {
                        stub.cursor
                    } else {
                        ((stub.cursor + 1) % stub.responses.len()) as nat
                    },
                    repeats: owed_after(stub.repeats, count as nat),
                    ..stub
                },
                ReplyView {
                    messages: seq![stub.responses[stub.cursor as int].rendered()],
                    waits: Seq::empty(),
                },
            ),
        ),
{
    let template = stub.responses[stub.cursor as int];
    let start = stub.start();
    assert(template.behaviors.drop_first() =~= Seq::<Behavior>::empty());
    reveal_with_fuel(behave_all, 2);
    assert(start.messages.push(template.rendered()) =~= seq![template.rendered()]);
    assert(stub.run(start, stub.responses.len()) == Ok::<Progress, GenerateError>(
        Progress {
            cursor: ((stub.cursor + 1) % stub.responses.len()) as nat,
            repeats: owed_after(stub.repeats, count as nat),
            messages: seq![template.rendered()],
            waits: start.waits,
        },
    ));
}

/// The stub after `calls` messages were answered, each without failure.
pub open spec fn after_calls(stub: StubView, calls: nat) -> StubView
    decreases calls,
{
    if calls == 0 {
        stub
    } else {
        match after_calls(stub, (calls - 1) as nat).generated() {
            Ok((next, _)) => next,
            Err(_) => after_calls(stub, (calls - 1) as nat),
        }
    }
}

/// `Repeat(count)` holds the cursor for `count` replies: a stub that owes
/// no repetition, with a sound template under the cursor that does nothing
/// but repeat `count` times, stays on that template for the first
/// `count - 1` replies and leaves it with the next one.
pub proof fn lemma_repeat_holds_the_cursor(stub: StubView, count: usize, calls: nat)
    requires
        stub.wf(),
        stub.responses.len() > 0,
        stub.repeats == 0,
        stub.responses[stub.cursor as int].fault() is None,
        stub.responses[stub.cursor as int].behaviors == seq![Behavior::Repeat(count)],
        1 <= calls <= count,
    ensures
        calls < count ==> after_calls(stub, calls) == (StubView {
            repeats: (count - calls) as nat,
            ..stub
        }),
        calls == count ==> after_calls(stub, calls) == (StubView {
            cursor: ((stub.cursor + 1) % stub.responses.len()) as nat,
            ..stub
        }),
    decreases calls,
{
    if calls == 1 {
        lemma_repeated_template(stub, count);
    } else {
        lemma_repeat_holds_the_cursor(stub, count, (calls - 1) as nat);
        let before = after_calls(stub, (calls - 1) as nat);
        lemma_repeated_template(before, count);
    }
}

/// Looking ahead from the next template is looking one step further ahead.
pub proof fn lemma_ahead_shift(cursor: nat, steps: nat, count: nat)
    requires
        count > 0,
    ensures
        cursor < count ==> ahead(cursor, 0, count) == cursor,
        0 <= ahead(cursor, steps, count) < count,
        ahead(ahead(cursor, 1, count) as nat, steps, count) == ahead(cursor, steps + 1, count),
{
    reveal(ahead);
    lemma_add_mod_noop_right(steps as int, (cursor + 1) as int, count as int);
    if cursor < count {
        lemma_small_mod(cursor, count);
    }
    lemma_mod_bound((cursor + steps) as int, count as int);
}

/// A sound template that does nothing but ask for the next one adds its
/// message to the reply and hands on to the next template.
pub proof fn lemma_link(stub: StubView, p: Progress)
    requires
        stub.responses.len() > 0,
        p.cursor < stub.responses.len(),
        stub.responses[p.cursor as int].fault() is None,
        stub.responses[p.cursor as int].behaviors == seq![Behavior::Concat(true)],
    ensures
        stub.render_next(p) == Ok::<(Progress, bool), GenerateError>(
            (
                Progress {
                    cursor: ahead(p.cursor, 1, stub.responses.len()) as nat,
                    messages: p.messages.push(stub.responses[p.cursor as int].rendered()),
                    ..p
                },
                true,
            ),
        ),
{
    reveal(ahead);
    let behaviors = stub.responses[p.cursor as int].behaviors;
    assert(behaviors.drop_first() =~= Seq::<Behavior>::empty());
    reveal_with_fuel(behave_all, 2);
}

/// A sound template without behaviors adds its message to the reply and
/// ends it.
pub proof fn lemma_last(stub: StubView, p: Progress)
    requires
        stub.responses.len() > 0,
        p.cursor < stub.responses.len(),
        stub.responses[p.cursor as int].fault() is None,
        stub.responses[p.cursor as int].behaviors.len() == 0,
    ensures
        stub.render_next(p) == Ok::<(Progress, bool), GenerateError>(
            (
                Progress {
                    cursor: ahead(p.cursor, 1, stub.responses.len()) as nat,
                    messages: p.messages.push(stub.responses[p.cursor as int].rendered()),
                    ..p
                },
                false,
            ),
        ),
{
    reveal(ahead);
}

/// The messages of the `count` templates from `cursor` on, in order.
pub open spec fn rendered_ahead(stub: StubView, cursor: nat, count: nat) -> Seq<CANMessage> {
    Seq::new(
        count,
        |j: int| stub.responses[ahead(cursor, j as nat, stub.responses.len())].rendered(),
    )
}

/// A run through a group: `links` sound templates that each do nothing but
/// ask for the next, then a sound one without behaviors. Their messages
/// join the reply in order, and the cursor comes to rest behind the group.
pub proof fn lemma_run_group(stub: StubView, p: Progress, fuel: nat, links: nat)
    requires
        stub.responses.len() > 0,
        p.cursor < stub.responses.len(),
        fuel > links,
        forall|j: nat|
            j <= links ==> stub.responses[#[trigger] ahead(
                p.cursor,
                j,
                stub.responses.len(),
            )].fault() is None,
        forall|j: nat|
            j < links ==> stub.responses[#[trigger] ahead(
                p.cursor,
                j,
                stub.responses.len(),
            )].behaviors == seq![Behavior::Concat(true)],
        stub.responses[ahead(p.cursor, links, stub.responses.len())].behaviors.len() == 0,
    ensures
        stub.run(p, fuel) == Ok::<Progress, GenerateError>(
            Progress {
                cursor: ahead(p.cursor, links + 1, stub.responses.len()) as nat,
                messages: p.messages + rendered_ahead(stub, p.cursor, links + 1),
                ..p
            },
        ),
    decreases links,
{
    let count = stub.responses.len();
    let group = rendered_ahead(stub, p.cursor, links + 1);
    lemma_ahead_shift(p.cursor, 0, count);
    lemma_ahead_shift(p.cursor, 1, count);
    assert(ahead(p.cursor, 0, count) == p.cursor);
    let template = stub.responses[p.cursor as int];
    let q = Progress {
        cursor: ahead(p.cursor, 1, count) as nat,
        messages: p.messages.push(template.rendered()),
        ..p
    };
    if links == 0 {
        lemma_last(stub, p);
        assert(q.messages =~= p.messages + group);
    } else {
        lemma_link(stub, p);
        assert forall|j: nat| j <= links - 1 implies stub.responses[#[trigger] ahead(
            q.cursor,
            j,
            count,
        )].fault() is None by {
            lemma_ahead_shift(p.cursor, j, count);
        }
        assert forall|j: nat| j < links - 1 implies stub.responses[#[trigger] ahead(
            q.cursor,
            j,
            count,
        )].behaviors == seq![Behavior::Concat(true)] by {
            lemma_ahead_shift(p.cursor, j, count);
        }
        lemma_ahead_shift(p.cursor, (links - 1) as nat, count);
        lemma_ahead_shift(p.cursor, links, count);
        lemma_run_group(stub, q, (fuel - 1) as nat, (links - 1) as nat);
        let tail = rendered_ahead(stub, q.cursor, links);
        assert(q.messages + tail =~= p.messages + group) by {
            assert forall|j: int| 0 <= j < links implies tail[j] == group[j + 1] by {
                lemma_ahead_shift(p.cursor, j as nat, count);
            }
        }
    }
}

/// A group of concatenated templates is answered in one reply: where the
/// template under the cursor and the `links - 1` that follow it each do
/// nothing but ask for the next, and the one behind them has no behaviors,
/// the reply holds the messages of all of them, in order, and the cursor
/// comes to rest behind the group, or stays while repetitions are owed.
pub proof fn lemma_concat_group(stub: StubView, links: nat)
    requires
        stub.wf(),
        stub.responses.len() > links,
        forall|j: nat|
            j <= links ==> stub.responses[#[trigger] ahead(
                stub.cursor,
                j,
                stub.responses.len(),
            )].fault() is None,
        forall|j: nat|
            j < links ==> stub.responses[#[trigger] ahead(
                stub.cursor,
                j,
                stub.responses.len(),
            )].behaviors == seq![Behavior::Concat(true)],
        stub.responses[ahead(stub.cursor, links, stub.responses.len())].behaviors.len() == 0,
    ensures
        stub.generated() == Ok::<(StubView, ReplyView), GenerateError>(
            (
                StubView {
                    cursor: if stub.repeats > 0 {
                        stub.cursor
                    } else {
                        ahead(stub.cursor, links + 1, stub.responses.len()) as nat
                    },
                    ..stub
                },
                ReplyView {
                    messages: rendered_ahead(stub, stub.cursor, links + 1),
                    waits: Seq::empty(),
                },
            ),
        ),
{
    let start = stub.start();
    lemma_run_group(stub, start, stub.responses.len(), links);
    assert(start.messages + rendered_ahead(stub, stub.cursor, links + 1) =~= rendered_ahead(
        stub,
        stub.cursor,
        links + 1,
    ));
}

/// A stub with a single sound template and no behaviors answers every
/// message with that template's message, and stays as it is.
pub proof fn lemma_single_template_is_steady(stub: StubView)
    requires
        stub.wf(),
        stub.responses.len() == 1,
        stub.responses[0].fault() is None,
        stub.responses[0].behaviors.len() == 0,
    ensures
        stub.generated() == Ok::<(StubView, ReplyView), GenerateError>(
            (stub, ReplyView { messages: seq![stub.responses[0].rendered()], waits: Seq::empty() }),
        ),
{
    lemma_plain_template(stub);
}

} // verus!
