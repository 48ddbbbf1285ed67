//! A run depends on the bytes of the answers, not on how they are cut into chunks.
use vstd::prelude::*;
use crate::executor::{Executor, Phase, StreamParams};
use crate::framing::{cut_is_inside, end_stays, first_end, messages, text_of, unfinished};
use crate::stream_laws::{
    after, as_texts, bytes_received, events_in, in_turn, parse_text, taken,
};
use crate::stream_model::{
    answer_ends, answer_fails, delta_effects, first, fits, next, next_message, some_answer, start,
    DeltaView, EffectView, ReplyView, RequestView, RunView, StepView,
};

verus! {

// ----- the world around a run -----

/// Everything that a run meets, but for the cut of the bytes into chunks.
pub struct World {
    /// The n-th of the replies that bring an account, a conversation or the start of an answer.
    pub setup: spec_fn(int) -> ReplyView,
    /// The bytes of the answer that the n-th of these replies starts.
    pub body: spec_fn(int) -> Seq<u8>,
    /// The error that a message reports.
    pub error: spec_fn(Seq<char>) -> Option<Seq<char>>,
    /// The pieces of the answer that a message holds.
    pub deltas: spec_fn(Seq<char>) -> Seq<DeltaView>,
}

/// A reply that brings an account, a conversation or the start of an answer.
pub open spec fn is_setup(reply: ReplyView) -> bool {
    reply is Token || reply is Account || reply is Prewarmed || reply is Chat || reply is Started
}

/// A reply with which an answer starts.
pub open spec fn starts_answer(reply: ReplyView) -> bool {
    reply matches ReplyView::Started(Ok(_))
}

/// How many of these replies a run has had.
pub open spec fn setups(replies: Seq<ReplyView>) -> int
    decreases replies.len(),
{
    if replies.len() == 0 {
        0
    } else {
        setups(replies.drop_last()) + if is_setup(replies.last()) {
            1int
        } else {
            0
        }
    }
}

/// Where the answer that is being read comes from.
pub open spec fn current_body(world: World, replies: Seq<ReplyView>) -> Seq<u8> {
    (world.body)(setups(replies) - 1)
}

/// The last reply is what the world gives: chunks that together begin the answer, its end once
/// all its bytes have come, and what the messages say. No read fails.
pub open spec fn given_by(
    world: World,
    config: Executor,
    params: StreamParams,
    replies: Seq<ReplyView>,
) -> bool {
    let earlier = replies.drop_last();
    match replies.last() {
        ReplyView::Chunk(_) => bytes_received(replies).is_prefix_of(current_body(world, replies)),
        ReplyView::EndOfStream => bytes_received(replies) == current_body(world, replies),
        ReplyView::ReadFailed(_) => false,
        ReplyView::Parsed { error, deltas } => {
            let text = after(config, params, earlier).request->Parse_0;
            error == (world.error)(text) && (error is None ==> deltas == (world.deltas)(text))
        },
        reply => reply == (world.setup)(setups(earlier)),
    }
}

/// A run whose every reply the world gives.
pub open spec fn in_world(
    world: World,
    config: Executor,
    params: StreamParams,
    replies: Seq<ReplyView>,
) -> bool
    decreases replies.len(),
{
    replies.len() > 0 ==> in_world(world, config, params, replies.drop_last()) && given_by(
        world,
        config,
        params,
        replies,
    )
}

// ----- whole answers -----

/// The texts of an answer: its messages, and a rest without an end where one is left.
pub open spec fn body_texts(body: Seq<u8>) -> Seq<Seq<char>> {
    as_texts(messages(body)) + if unfinished(body).len() > 0 {
        seq![text_of(unfinished(body))]
    } else {
        Seq::empty()
    }
}

/// What comes of an answer whose texts are read one after the other, up to the first that reports
/// an error.
pub open spec fn answer_of(world: World, run: RunView, texts: Seq<Seq<char>>) -> StepView
    decreases texts.len(),
{
    if texts.len() == 0 {
        answer_ends(run)
    } else {
        match (world.error)(texts[0]) {
            Some(err) => answer_fails(run, err),
            None => {
                let deltas = (world.deltas)(texts[0]);
                first(
                    delta_effects(deltas),
                    answer_of(
                        world,
                        RunView { answered: run.answered || some_answer(deltas), ..run },
                        texts.skip(1),
                    ),
                )
            },
        }
    }
}

/// A run after `n` replies that bring an account, a conversation or the start of an answer, where
/// every answer is read as a whole.
pub open spec fn whole(world: World, config: Executor, params: StreamParams, n: int) -> StepView
    decreases n,
{
    if n <= 0 {
        start(config, params)
    } else {
        let before = whole(world, config, params, n - 1);
        let reply = (world.setup)(n - 1);
        let step = taken(before.run, reply);
        first(
            before.effects,
            if starts_answer(reply) {
                answer_of(world, step.run, body_texts((world.body)(n - 1)))
            } else {
                step
            },
        )
    }
}

/// An answer is being read.
pub open spec fn is_reading(phase: Phase) -> bool {
    phase == Phase::Chunk || phase == Phase::Message || phase == Phase::LastMessage
}

// ----- reading an answer -----

/// A run in the middle of an answer, apart from where it stands in its bytes.
spec fn rested(run: RunView) -> RunView {
    RunView { phase: Phase::Chunk, buffer: Seq::empty(), ..run }
}

/// Where an answer ends does not depend on the place in its bytes.
proof fn rest_changes_nothing(run: RunView, err: Seq<char>)
    ensures
        answer_ends(run) == answer_ends(rested(run)),
        answer_fails(run, err) == answer_fails(rested(run), err),
{
}

/// Effects before effects before a step.
proof fn first_first(a: Seq<EffectView>, b: Seq<EffectView>, step: StepView)
    ensures
        first(a, first(b, step)) == first(a + b, step),
{
    assert(a + (b + step.effects) =~= a + b + step.effects);
}

/// No effects before a step.
proof fn first_nothing(step: StepView)
    ensures
        first(Seq::empty(), step) == step,
{
    assert(Seq::<EffectView>::empty() + step.effects =~= step.effects);
}

/// A complete message at the start is the first text.
proof fn texts_of_complete(buffer: Seq<u8>, later: Seq<u8>, p: int)
    requires
        first_end(buffer) == Some(p),
    ensures
        body_texts(buffer + later) == seq![text_of(buffer.take(p))] + body_texts(
            buffer.skip(p + 2) + later,
        ),
{
    cut_is_inside(buffer);
    end_stays(buffer, later);
    cut_is_inside(buffer + later);
    assert((buffer + later).take(p) =~= buffer.take(p));
    assert((buffer + later).skip(p + 2) =~= buffer.skip(p + 2) + later);
    let rest = buffer.skip(p + 2) + later;
    assert(as_texts(messages(buffer + later)) =~= seq![text_of(buffer.take(p))] + as_texts(
        messages(rest),
    ));
    assert(body_texts(buffer + later) =~= seq![text_of(buffer.take(p))] + body_texts(rest));
}

/// Bytes without an end are one text, or none where there are no bytes.
proof fn texts_of_incomplete(buffer: Seq<u8>)
    requires
        first_end(buffer) is None,
    ensures
        body_texts(buffer) == (if buffer.len() > 0 {
            seq![text_of(buffer)]
        } else {
            Seq::empty()
        }),
{
    assert(as_texts(messages(buffer)) =~= Seq::<Seq<char>>::empty());
    assert(body_texts(buffer) =~= if buffer.len() > 0 {
        seq![text_of(buffer)]
    } else {
        Seq::empty()
    });
}

/// A run in the middle of an answer: what comes of the rest of the answer is `goal`. The bytes
/// `later` have not come yet.
spec fn reads_to(world: World, now: StepView, later: Seq<u8>, goal: StepView) -> bool {
    let run = now.run;
    &&& is_reading(run.phase)
    &&& run.phase == Phase::Chunk ==> now.request == RequestView::ReadChunk && first_end(
        run.buffer,
    ) is None
    &&& run.phase == Phase::Message ==> now.request is Parse
    &&& run.phase == Phase::LastMessage ==> now.request is Parse && run.buffer.len() == 0
        && later.len() == 0
    &&& goal == first(
        now.effects,
        answer_of(
            world,
            rested(run),
            parse_text(now.request) + body_texts(run.buffer + later),
        ),
    )
}

/// Reading on after bytes have come or a message has been read.
proof fn reads_on(world: World, effects: Seq<EffectView>, run: RunView, later: Seq<u8>)
    ensures
        reads_to(
            world,
            first(effects, next_message(run)),
            later,
            first(effects, answer_of(world, rested(run), body_texts(run.buffer + later))),
        ),
{
    let step = next_message(run);
    first_nothing(step);
    assert(first(effects, step).effects =~= effects);
    match first_end(run.buffer) {
        Some(p) => {
            texts_of_complete(run.buffer, later, p);
        },
        None => {
            assert(parse_text(step.request) + body_texts(run.buffer + later) =~= body_texts(
                run.buffer + later,
            ));
        },
    }
    assert(rested(step.run) == rested(run));
}

/// One step in the middle of an answer: either the answer is still being read, or it is over and
/// what came of it is `goal`.
proof fn answer_goes_on(
    world: World,
    now: StepView,
    reply: ReplyView,
    later: Seq<u8>,
    rest: Seq<u8>,
    goal: StepView,
)
    requires
        reads_to(world, now, later, goal),
        fits(now.run, reply),
        match reply {
            ReplyView::Chunk(chunk) => later == chunk + rest,
            ReplyView::EndOfStream => later.len() == 0 && rest == later,
            ReplyView::Parsed { error, deltas } => rest == later && error == (world.error)(
                now.request->Parse_0,
            ) && (error is None ==> deltas == (world.deltas)(now.request->Parse_0)),
            _ => false,
        },
    ensures
        ({
            let step = first(now.effects, next(now.run, reply));
            if is_reading(step.run.phase) {
                reads_to(world, step, rest, goal)
            } else {
                step == goal
            }
        }),
{
    let run = now.run;
    match reply {
        ReplyView::Chunk(chunk) => {
            let grown = RunView { buffer: run.buffer + chunk, ..run };
            assert(run.buffer + later =~= grown.buffer + rest);
            assert(rested(grown) == rested(run));
            assert(parse_text(now.request) + body_texts(run.buffer + later) =~= body_texts(
                run.buffer + later,
            ));
            reads_on(world, now.effects, grown, rest);
        },
        ReplyView::EndOfStream => {
            assert(run.buffer + later =~= run.buffer);
            texts_of_incomplete(run.buffer);
            rest_changes_nothing(run, Seq::empty());
            assert(parse_text(now.request) + body_texts(run.buffer) =~= body_texts(run.buffer));
            if run.buffer.len() > 0 {
                let text = text_of(run.buffer);
                let step = first(now.effects, next(run, reply));
                assert(step.effects =~= now.effects);
                no_texts_in_nothing();
                assert(step.run.buffer + rest =~= Seq::<u8>::empty());
                assert(parse_text(step.request) + body_texts(step.run.buffer + rest) =~= seq![
                    text,
                ]);
                assert(rested(step.run) == rested(run));
            }
        },
        ReplyView::Parsed { error, deltas } => {
            let text = now.request->Parse_0;
            let more = body_texts(run.buffer + later);
            let texts = seq![text] + more;
            assert(texts[0] == text);
            assert(texts.skip(1) =~= more);
            match error {
                Some(err) => {
                    rest_changes_nothing(run, err);
                },
                None => {
                    message_goes_on(world, now, deltas, later, goal);
                },
            }
        },
        _ => {},
    }
}

/// Nothing has no texts.
proof fn no_texts_in_nothing()
    ensures
        body_texts(Seq::<u8>::empty()) == Seq::<Seq<char>>::empty(),
{
    cut_is_inside(Seq::<u8>::empty());
    texts_of_incomplete(Seq::<u8>::empty());
}

/// The same where a message has been read that reports no error.
proof fn message_goes_on(
    world: World,
    now: StepView,
    deltas: Seq<DeltaView>,
    later: Seq<u8>,
    goal: StepView,
)
    requires
        reads_to(world, now, later, goal),
        now.request is Parse,
        now.run.phase == Phase::Message || now.run.phase == Phase::LastMessage,
        (world.error)(now.request->Parse_0) is None,
        deltas == (world.deltas)(now.request->Parse_0),
    ensures
        ({
            let step = first(
                now.effects,
                next(now.run, ReplyView::Parsed { error: None, deltas }),
            );
            if is_reading(step.run.phase) {
                reads_to(world, step, later, goal)
            } else {
                step == goal
            }
        }),
{
    let run = now.run;
    let text = now.request->Parse_0;
    let more = body_texts(run.buffer + later);
    let texts = seq![text] + more;
    assert(texts[0] == text);
    assert(texts.skip(1) =~= more);
    let heard = RunView { answered: run.answered || some_answer(deltas), ..run };
    let shown = delta_effects(deltas);
    assert(answer_of(world, rested(run), texts) == first(
        shown,
        answer_of(world, rested(heard), more),
    ));
    first_first(now.effects, shown, answer_of(world, rested(heard), more));
    if run.phase == Phase::LastMessage {
        assert(run.buffer + later =~= Seq::<u8>::empty());
        no_texts_in_nothing();
        rest_changes_nothing(heard, Seq::empty());
        first_first(now.effects, shown, answer_ends(heard));
    } else {
        reads_on(world, now.effects + shown, heard, later);
        first_first(now.effects, shown, next_message(heard));
    }
}

// ----- histories -----

/// A run between answers, or in the middle of one, of whose bytes `received` have come: what the
/// world makes of it is `goal`.
#[verifier::opaque]
spec fn stands(
    world: World,
    now: StepView,
    received: Seq<u8>,
    body: Seq<u8>,
    goal: StepView,
) -> bool {
    if is_reading(now.run.phase) {
        received.is_prefix_of(body) && reads_to(
            world,
            now,
            body.skip(received.len() as int),
            goal,
        )
    } else {
        now == goal
    }
}

/// Between answers the goal is reached, and before that a part of it is done.
proof fn standing(
    world: World,
    now: StepView,
    received: Seq<u8>,
    body: Seq<u8>,
    goal: StepView,
)
    requires
        stands(world, now, received, body, goal),
    ensures
        !is_reading(now.run.phase) ==> now == goal,
        now.effects.is_prefix_of(goal.effects),
{
    reveal(stands);
    assert(now.effects =~= goal.effects.take(now.effects.len() as int));
}

/// A reply that starts no answer does not lead into one.
proof fn setup_leads_to_no_answer(run: RunView, reply: ReplyView)
    requires
        fits(run, reply),
        is_setup(reply),
        !starts_answer(reply),
    ensures
        !is_reading(next(run, reply).run.phase),
{
}

/// A run after the start of an answer.
proof fn answer_starts(world: World, before: StepView, reply: ReplyView, body: Seq<u8>)
    requires
        starts_answer(reply),
    ensures
        stands(
            world,
            first(before.effects, taken(before.run, reply)),
            Seq::empty(),
            body,
            first(
                before.effects,
                answer_of(world, taken(before.run, reply).run, body_texts(body)),
            ),
        ),
{
    reveal(taken);
    reveal(stands);
    let step = next(before.run, reply);
    assert(first(before.effects, step).effects =~= before.effects);
    cut_is_inside(Seq::<u8>::empty());
    assert(step.run.buffer + body =~= body);
    assert(body.skip(0) =~= body);
    assert(Seq::<u8>::empty().is_prefix_of(body));
    assert(parse_text(step.request) + body_texts(body) =~= body_texts(body));
    assert(rested(step.run) == step.run);
}

/// A run after a reply that starts no answer: it is between answers.
proof fn setup_stands(
    world: World,
    before: StepView,
    reply: ReplyView,
    received: Seq<u8>,
    body: Seq<u8>,
)
    requires
        fits(before.run, reply),
        is_setup(reply),
        !starts_answer(reply),
    ensures
        stands(
            world,
            first(before.effects, taken(before.run, reply)),
            received,
            body,
            first(before.effects, taken(before.run, reply)),
        ),
{
    reveal(taken);
    reveal(stands);
    setup_leads_to_no_answer(before.run, reply);
}

/// A run after a reply that belongs to an answer.
proof fn reading_stands(
    world: World,
    before: StepView,
    reply: ReplyView,
    received: Seq<u8>,
    has: Seq<u8>,
    body: Seq<u8>,
    goal: StepView,
)
    requires
        stands(world, before, received, body, goal),
        fits(before.run, reply),
        match reply {
            ReplyView::Chunk(chunk) => has == received + chunk && has.is_prefix_of(body),
            ReplyView::EndOfStream => has == received && received == body,
            ReplyView::Parsed { error, deltas } => has == received && error == (world.error)(
                before.request->Parse_0,
            ) && (error is None ==> deltas == (world.deltas)(before.request->Parse_0)),
            _ => false,
        },
    ensures
        stands(world, first(before.effects, taken(before.run, reply)), has, body, goal),
{
    reveal(taken);
    reveal(stands);
    let later = body.skip(received.len() as int);
    let rest = body.skip(has.len() as int);
    match reply {
        ReplyView::Chunk(chunk) => {
            assert forall|i: int| 0 <= i < chunk.len() implies body[received.len() + i]
                == chunk[i] by {
                assert(has[received.len() + i] == body.take(has.len() as int)[received.len() + i]);
            }
            assert(later =~= chunk + rest);
        },
        _ => {},
    }
    answer_goes_on(world, before, reply, later, rest, goal);
}

/// Every run stands in its world.
proof fn run_stands_in_world(
    world: World,
    config: Executor,
    params: StreamParams,
    replies: Seq<ReplyView>,
)
    requires
        in_turn(config, params, replies),
        in_world(world, config, params, replies),
    ensures
        stands(
            world,
            after(config, params, replies),
            bytes_received(replies),
            current_body(world, replies),
            whole(world, config, params, setups(replies)),
        ),
        setups(replies) >= 0,
    decreases replies.len(),
{
    if replies.len() > 0 {
        let earlier = replies.drop_last();
        let reply = replies.last();
        let before = after(config, params, earlier);
        let goal = whole(world, config, params, setups(earlier));
        run_stands_in_world(world, config, params, earlier);
        if is_setup(reply) {
            standing(
                world,
                before,
                bytes_received(earlier),
                current_body(world, earlier),
                goal,
            );
            if starts_answer(reply) {
                answer_starts(world, before, reply, current_body(world, replies));
            } else {
                setup_stands(
                    world,
                    before,
                    reply,
                    bytes_received(replies),
                    current_body(world, replies),
                );
            }
        } else {
            reading_stands(
                world,
                before,
                reply,
                bytes_received(earlier),
                bytes_received(replies),
                current_body(world, earlier),
                goal,
            );
        }
    } else {
        reveal(stands);
    }
}

/// A number of replies is not negative.
proof fn setups_are_counted(replies: Seq<ReplyView>)
    ensures
        setups(replies) >= 0,
    decreases replies.len(),
{
    if replies.len() > 0 {
        setups_are_counted(replies.drop_last());
    }
}

// ----- laws -----

/// What a run has done is fixed by the world: between answers it is what reading every answer as
/// a whole gives, and in the middle of one it is a beginning of that.
pub proof fn run_follows_its_world(
    world: World,
    config: Executor,
    params: StreamParams,
    replies: Seq<ReplyView>,
)
    requires
        in_turn(config, params, replies),
        in_world(world, config, params, replies),
    ensures
        !is_reading(after(config, params, replies).run.phase) ==> after(config, params, replies)
            == whole(world, config, params, setups(replies)),
        after(config, params, replies).effects.is_prefix_of(
            whole(world, config, params, setups(replies)).effects,
        ),
{
    run_stands_in_world(world, config, params, replies);
    standing(
        world,
        after(config, params, replies),
        bytes_received(replies),
        current_body(world, replies),
        whole(world, config, params, setups(replies)),
    );
}

/// A run that has had more than `n` of the replies that bring an account, a conversation or the
/// start of an answer was not over after `n` of them.
proof fn more_setups_need_an_open_run(
    world: World,
    config: Executor,
    params: StreamParams,
    replies: Seq<ReplyView>,
    n: int,
)
    requires
        in_turn(config, params, replies),
        in_world(world, config, params, replies),
        0 <= n < setups(replies),
    ensures
        whole(world, config, params, n).run.phase != Phase::Finished,
    decreases replies.len(),
{
    let earlier = replies.drop_last();
    if setups(earlier) > n {
        more_setups_need_an_open_run(world, config, params, earlier, n);
    } else {
        run_follows_its_world(world, config, params, earlier);
    }
}

/// Two runs that differ only in how the bytes of the answers are cut into chunks, wherever the
/// cuts fall, come to the same end: the client sees the same events in the same order, and the
/// same marks and cleanups are asked for.
pub proof fn chunks_do_not_matter(
    world: World,
    config: Executor,
    params: StreamParams,
    a: Seq<ReplyView>,
    b: Seq<ReplyView>,
)
    requires
        in_turn(config, params, a),
        in_turn(config, params, b),
        in_world(world, config, params, a),
        in_world(world, config, params, b),
        after(config, params, a).run.phase == Phase::Finished,
        after(config, params, b).run.phase == Phase::Finished,
    ensures
        after(config, params, a) == after(config, params, b),
        events_in(after(config, params, a).effects) == events_in(
            after(config, params, b).effects,
        ),
{
    run_follows_its_world(world, config, params, a);
    run_follows_its_world(world, config, params, b);
    setups_are_counted(a);
    setups_are_counted(b);
    if setups(a) < setups(b) {
        more_setups_need_an_open_run(world, config, params, b, setups(a));
    }
    if setups(b) < setups(a) {
        more_setups_need_an_open_run(world, config, params, a, setups(b));
    }
}

} // verus!
