//! What holds of every run, whatever the replies are.
use vstd::prelude::*;
use crate::executor::{Executor, Phase, StreamParams};
use crate::framing::{cut_is_inside, framing_ignores_chunks, messages, text_of, unfinished};
use crate::retry::{lower_form, swap_helps};
use crate::stream_model::{
    answer_ends, answer_fails, as_cleanup, attempt_fails, attempt_fails_marked, attempts_of,
    begin_attempt, cleanup_of, cleanups_in, delta_effects, ends_with, exhausted_text, first, fits,
    has_message, held_cleanup, is_chat, mark_effects, next, next_message, no_answer_text, opt_text,
    picked, picked_add, picked_one, pooled, read_error_text, retry_notice, some_answer, start, well_formed,
    well_formed_stays, AccountView, CleanupView, DeltaView, EffectView, EventView, ReplyView,
    RequestView, RunView, StepView, ACQUIRE_WAIT_SECS,
};
use crate::text::name_set;

verus! {

// ----- histories -----

/// The step that a reply leads to.
#[verifier::opaque]
pub open spec fn taken(run: RunView, reply: ReplyView) -> StepView {
    next(run, reply)
}

/// A run after some replies: its state, everything that it has wanted done since its start, and
/// what it waits for.
pub open spec fn after(config: Executor, params: StreamParams, replies: Seq<ReplyView>) -> StepView
    decreases replies.len(),
{
    if replies.len() == 0 {
        start(config, params)
    } else {
        let before = after(config, params, replies.drop_last());
        first(before.effects, taken(before.run, replies.last()))
    }
}

/// Each reply is one to what the run waited for.
pub open spec fn in_turn(config: Executor, params: StreamParams, replies: Seq<ReplyView>) -> bool
    decreases replies.len(),
{
    replies.len() > 0 ==> in_turn(config, params, replies.drop_last()) && fits(
        after(config, params, replies.drop_last()).run,
        replies.last(),
    )
}

/// The account that a reply brings.
pub open spec fn account_from(params: StreamParams, reply: ReplyView) -> Option<AccountView> {
    match reply {
        ReplyView::Token(Some(token)) => Some(
            AccountView { email: opt_text(params.fixed_account)->0, token },
        ),
        ReplyView::Account(account) => account,
        _ => None,
    }
}

/// The accounts that a run was given, in order.
pub open spec fn accounts(params: StreamParams, replies: Seq<ReplyView>) -> Seq<AccountView>
    decreases replies.len(),
{
    if replies.len() == 0 {
        Seq::empty()
    } else {
        match account_from(params, replies.last()) {
            Some(account) => accounts(params, replies.drop_last()).push(account),
            None => accounts(params, replies.drop_last()),
        }
    }
}

/// The conversations that were made for a run, in order.
pub open spec fn chats_made(replies: Seq<ReplyView>) -> Seq<Seq<char>>
    decreases replies.len(),
{
    if replies.len() == 0 {
        Seq::empty()
    } else {
        match replies.last() {
            ReplyView::Prewarmed(Some(chat_id)) => chats_made(replies.drop_last()).push(chat_id),
            ReplyView::Chat(Ok(chat_id)) => chats_made(replies.drop_last()).push(chat_id),
            _ => chats_made(replies.drop_last()),
        }
    }
}

/// The pieces of answers that were read, in order.
pub open spec fn deltas_read(replies: Seq<ReplyView>) -> Seq<DeltaView>
    decreases replies.len(),
{
    if replies.len() == 0 {
        Seq::empty()
    } else {
        deltas_read(replies.drop_last()) + new_deltas(replies.last())
    }
}

/// The pieces that a reply brings.
pub open spec fn new_deltas(reply: ReplyView) -> Seq<DeltaView> {
    match reply {
        ReplyView::Parsed { error: None, deltas } => deltas,
        _ => Seq::empty(),
    }
}

/// Finds the events.
pub open spec fn as_event() -> spec_fn(EffectView) -> Option<EventView> {
    |effect: EffectView|
        match effect {
            EffectView::Yield(event) => Some(event),
            _ => None,
        }
}

/// The events that the client sees.
pub open spec fn events_in(effects: Seq<EffectView>) -> Seq<EventView> {
    picked(effects, as_event())
}

/// Finds the pieces of answers.
pub open spec fn as_delta() -> spec_fn(EffectView) -> Option<DeltaView> {
    |effect: EffectView|
        match effect {
            EffectView::Yield(EventView::Delta(delta)) => Some(delta),
            _ => None,
        }
}

/// The pieces of answers that the client sees.
pub open spec fn deltas_in(effects: Seq<EffectView>) -> Seq<DeltaView> {
    picked(effects, as_delta())
}

/// An event that nothing follows.
pub open spec fn is_last(event: EventView) -> bool {
    event is Done || event is Error
}

/// The cleanups that have been asked for, and the one that breaking the run off would ask for.
pub open spec fn all_cleanups(step: StepView) -> Seq<CleanupView> {
    cleanups_in(step.effects) + held_cleanup(step.run)
}

/// The conversations that cleanups delete, in order.
pub open spec fn deleted(cleanups: Seq<CleanupView>) -> Seq<Seq<char>>
    decreases cleanups.len(),
{
    if cleanups.len() == 0 {
        Seq::empty()
    } else {
        match cleanups.last().delete {
            Some(deletion) => deleted(cleanups.drop_last()).push(deletion.chat_id),
            None => deleted(cleanups.drop_last()),
        }
    }
}

// ----- single steps -----

/// What `pick` finds in one part.
spec fn one<T>(effect: EffectView, pick: spec_fn(EffectView) -> Option<T>) -> Seq<T> {
    match pick(effect) {
        Some(found) => seq![found],
        None => Seq::empty(),
    }
}

/// `pick` finds nothing in the marks that errors leave on accounts.
spec fn skips_marks<T>(pick: spec_fn(EffectView) -> Option<T>) -> bool {
    forall|effect: EffectView|
        effect is MarkRateLimited || effect is MarkInvalid ==> (#[trigger] pick(effect)) is None
}

proof fn pick_begin<T>(run: RunView, pick: spec_fn(EffectView) -> Option<T>)
    ensures
        picked(begin_attempt(run).effects, pick) == (if run.attempt < run.attempts {
            Seq::<T>::empty()
        } else {
            one(
                EffectView::Yield(EventView::Error(exhausted_text(run.attempts, run.last_error))),
                pick,
            )
        }),
{
    if run.attempt >= run.attempts {
        picked_one(
            EffectView::Yield(EventView::Error(exhausted_text(run.attempts, run.last_error))),
            pick,
        );
    }
}

/// The state in which the attempt after a failed one begins.
spec fn next_try(run: RunView, err: Seq<char>) -> RunView {
    RunView {
        last_error: Some(err),
        exclude: run.exclude.insert(run.account->0.email),
        attempt: (run.attempt + 1) as u32,
        ..run
    }
}

proof fn pick_attempt_fails<T>(run: RunView, err: Seq<char>, pick: spec_fn(EffectView) -> Option<T>)
    ensures
        picked(attempt_fails(run, err).effects, pick) == one(
            EffectView::CleanUp(cleanup_of(run)),
            pick,
        ) + picked(begin_attempt(next_try(run, err)).effects, pick),
        skips_marks(pick) ==> picked(attempt_fails_marked(run, err).effects, pick) == picked(
            attempt_fails(run, err).effects,
            pick,
        ),
{
    picked_add(
        seq![EffectView::CleanUp(cleanup_of(run))],
        begin_attempt(next_try(run, err)).effects,
        pick,
    );
    picked_one(EffectView::CleanUp(cleanup_of(run)), pick);
    if skips_marks(pick) {
        let email = run.account->0.email;
        let marks = mark_effects(email, err);
        picked_add(marks, attempt_fails(run, err).effects, pick);
        if marks.len() > 0 {
            assert(marks =~= seq![marks[0]]);
            picked_one(marks[0], pick);
        }
        assert(picked(marks, pick) =~= Seq::<T>::empty());
        assert(Seq::<T>::empty() + picked(attempt_fails(run, err).effects, pick) =~= picked(
            attempt_fails(run, err).effects,
            pick,
        ));
    }
}

proof fn pick_ends_with<T>(run: RunView, event: EventView, pick: spec_fn(EffectView) -> Option<T>)
    ensures
        picked(ends_with(run, event).effects, pick) == one(EffectView::Yield(event), pick) + one(
            EffectView::CleanUp(cleanup_of(run)),
            pick,
        ),
{
    let a = EffectView::Yield(event);
    let b = EffectView::CleanUp(cleanup_of(run));
    assert(ends_with(run, event).effects =~= seq![a] + seq![b]);
    picked_add(seq![a], seq![b], pick);
    picked_one(a, pick);
    picked_one(b, pick);
}

proof fn pick_answer_ends<T>(run: RunView, pick: spec_fn(EffectView) -> Option<T>)
    ensures
        picked(answer_ends(run).effects, pick) == (if is_chat(run) && !run.answered {
            picked(attempt_fails(run, no_answer_text()).effects, pick)
        } else if pooled(run) {
            one(EffectView::MarkSuccess(run.account->0.email), pick) + picked(
                ends_with(run, EventView::Done).effects,
                pick,
            )
        } else {
            picked(ends_with(run, EventView::Done).effects, pick)
        }),
{
    let mark = EffectView::MarkSuccess(run.account->0.email);
    picked_add(seq![mark], ends_with(run, EventView::Done).effects, pick);
    picked_one(mark, pick);
}

proof fn pick_answer_fails<T>(run: RunView, err: Seq<char>, pick: spec_fn(EffectView) -> Option<T>)
    requires
        skips_marks(pick),
    ensures
        picked(answer_fails(run, err).effects, pick) == (if !run.answered {
            picked(attempt_fails(run, err).effects, pick)
        } else if swap_helps(lower_form(err)) {
            picked(retry_notice(run), pick) + picked(attempt_fails(run, err).effects, pick)
        } else {
            picked(ends_with(run, EventView::Error(err)).effects, pick)
        }),
{
    pick_attempt_fails(run, err, pick);
    picked_add(retry_notice(run), attempt_fails_marked(run, err).effects, pick);
}

/// What `pick` finds in the announcement of another attempt.
proof fn pick_notice<T>(run: RunView, pick: spec_fn(EffectView) -> Option<T>)
    ensures
        picked(retry_notice(run), pick) == (if run.attempt + 1 < run.attempts {
            one(EffectView::Yield(EventView::Retrying), pick)
        } else {
            Seq::empty()
        }),
{
    if run.attempt + 1 < run.attempts {
        picked_one(EffectView::Yield(EventView::Retrying), pick);
    }
}

/// The pieces of an answer, as events.
spec fn delta_events(deltas: Seq<DeltaView>) -> Seq<EventView> {
    Seq::new(deltas.len(), |i: int| EventView::Delta(deltas[i]))
}

proof fn pick_deltas(deltas: Seq<DeltaView>)
    ensures
        cleanups_in(delta_effects(deltas)) == Seq::<CleanupView>::empty(),
        deltas_in(delta_effects(deltas)) == deltas,
        events_in(delta_effects(deltas)) == delta_events(deltas),
    decreases deltas.len(),
{
    if deltas.len() > 0 {
        let rest = deltas.drop_last();
        pick_deltas(rest);
        assert(delta_effects(deltas).drop_last() =~= delta_effects(rest));
        assert(deltas =~= rest.push(deltas.last()));
        assert(delta_events(deltas) =~= delta_events(rest).push(EventView::Delta(deltas.last())));
    } else {
        assert(deltas =~= Seq::<DeltaView>::empty());
        assert(delta_events(deltas) =~= Seq::<EventView>::empty());
    }
}

/// The end of an attempt asks for the cleanup of its account, brings no piece of an answer, and
/// ends with the last event exactly where the run is over.
proof fn attempt_end(run: RunView, err: Seq<char>)
    requires
        well_formed(run),
        run.account is Some,
    ensures
        over_now(run, attempt_fails(run, err)),
        over_now(run, attempt_fails_marked(run, err)),
        over_now(run, answer_ends(run)),
        over_now(run, answer_fails(run, err)),
{
    attempt_end_cleanups(run, err);
    attempt_end_cleanups(run, no_answer_text());
    attempt_end_deltas(run, err);
    attempt_end_deltas(run, no_answer_text());
    attempt_end_events(run, err);
    attempt_end_events(run, no_answer_text());
}

/// What holds of a step that ends an attempt.
spec fn over_now(run: RunView, step: StepView) -> bool {
    &&& step.run.account is None
    &&& step.run.phase == Phase::Finished || step.run.phase == Phase::Account
    &&& cleanups_in(step.effects) == seq![cleanup_of(run)]
    &&& deltas_in(step.effects) == Seq::<DeltaView>::empty()
    &&& ends_properly(events_in(step.effects), step.run.phase)
}

/// The last event stands at the end, and is there exactly where the run is over.
pub open spec fn ends_properly(events: Seq<EventView>, phase: Phase) -> bool {
    &&& phase == Phase::Finished ==> events.len() > 0
    &&& forall|i: int|
        0 <= i < events.len() ==> (is_last(#[trigger] events[i]) <==> phase == Phase::Finished && i
            == events.len() - 1)
}

proof fn attempt_end_cleanups(run: RunView, err: Seq<char>)
    requires
        well_formed(run),
        run.account is Some,
    ensures
        cleanups_in(attempt_fails(run, err).effects) == seq![cleanup_of(run)],
        cleanups_in(attempt_fails_marked(run, err).effects) == seq![cleanup_of(run)],
        cleanups_in(ends_with(run, EventView::Done).effects) == seq![cleanup_of(run)],
        cleanups_in(ends_with(run, EventView::Error(err)).effects) == seq![cleanup_of(run)],
        cleanups_in(answer_fails(run, err).effects) == seq![cleanup_of(run)],
        err == no_answer_text() ==> cleanups_in(answer_ends(run).effects) == seq![cleanup_of(run)],
{
    let pick = as_cleanup();
    pick_attempt_fails(run, err, pick);
    pick_begin(next_try(run, err), pick);
    pick_ends_with(run, EventView::Done, pick);
    pick_ends_with(run, EventView::Error(err), pick);
    pick_answer_fails(run, err, pick);
    pick_notice(run, pick);
    pick_answer_ends(run, pick);
    let one_cleanup = seq![cleanup_of(run)];
    let none = Seq::<CleanupView>::empty();
    assert(one_cleanup + none =~= one_cleanup);
    assert(none + one_cleanup =~= one_cleanup);
}

proof fn attempt_end_deltas(run: RunView, err: Seq<char>)
    requires
        well_formed(run),
        run.account is Some,
    ensures
        deltas_in(attempt_fails(run, err).effects) == Seq::<DeltaView>::empty(),
        deltas_in(attempt_fails_marked(run, err).effects) == Seq::<DeltaView>::empty(),
        deltas_in(answer_fails(run, err).effects) == Seq::<DeltaView>::empty(),
        err == no_answer_text() ==> deltas_in(answer_ends(run).effects)
            == Seq::<DeltaView>::empty(),
{
    let pick = as_delta();
    pick_attempt_fails(run, err, pick);
    pick_begin(next_try(run, err), pick);
    pick_ends_with(run, EventView::Done, pick);
    pick_ends_with(run, EventView::Error(err), pick);
    pick_answer_fails(run, err, pick);
    pick_notice(run, pick);
    pick_answer_ends(run, pick);
    let none = Seq::<DeltaView>::empty();
    assert(none + none =~= none);
}

proof fn attempt_end_events(run: RunView, err: Seq<char>)
    requires
        well_formed(run),
        run.account is Some,
    ensures
        ends_properly(
            events_in(attempt_fails(run, err).effects),
            attempt_fails(run, err).run.phase,
        ),
        ends_properly(
            events_in(attempt_fails_marked(run, err).effects),
            attempt_fails(run, err).run.phase,
        ),
        ends_properly(events_in(answer_fails(run, err).effects), answer_fails(run, err).run.phase),
        err == no_answer_text() ==> ends_properly(
            events_in(answer_ends(run).effects),
            answer_ends(run).run.phase,
        ),
{
    let pick = as_event();
    pick_attempt_fails(run, err, pick);
    pick_begin(next_try(run, err), pick);
    pick_ends_with(run, EventView::Done, pick);
    pick_ends_with(run, EventView::Error(err), pick);
    pick_answer_fails(run, err, pick);
    pick_notice(run, pick);
    pick_answer_ends(run, pick);
}

/// What one step asks for and shows: a cleanup exactly where the account is let go, the pieces
/// that the reply brought, and a last event exactly where the run is over.
proof fn step_effects(run: RunView, reply: ReplyView)
    requires
        well_formed(run),
        fits(run, reply),
    ensures
        cleanups_in(taken(run, reply).effects) == (if run.account is Some && taken(
            run,
            reply,
        ).run.account is None {
            seq![cleanup_of(run)]
        } else {
            Seq::<CleanupView>::empty()
        }),
        deltas_in(taken(run, reply).effects) == new_deltas(reply),
        ends_properly(events_in(taken(run, reply).effects), taken(run, reply).run.phase),
{
    reveal(taken);
    match reply {
        ReplyView::Chat(Err(err)) => {
            attempt_end(run, err);
        },
        ReplyView::Started(Err(err)) => {
            attempt_end(run, err);
        },
        ReplyView::ReadFailed(detail) => {
            attempt_end(run, read_error_text(detail));
        },
        ReplyView::EndOfStream => {
            attempt_end(run, no_answer_text());
        },
        ReplyView::Parsed { error, deltas } => match error {
            Some(err) => {
                attempt_end(run, err);
            },
            None => {
                message_effects(run, deltas);
            },
        },
        _ => {
            quiet_effects(run, reply);
        },
    }
}

/// The same of a reply that leaves the attempt running or ends the run before it has an account.
proof fn quiet_effects(run: RunView, reply: ReplyView)
    requires
        well_formed(run),
        fits(run, reply),
        reply is Token || reply is Account || reply is Prewarmed || reply is Chunk
            || reply matches ReplyView::Chat(Ok(_)) || reply matches ReplyView::Started(Ok(_)),
    ensures
        cleanups_in(taken(run, reply).effects) == Seq::<CleanupView>::empty(),
        deltas_in(taken(run, reply).effects) == Seq::<DeltaView>::empty(),
        ends_properly(events_in(taken(run, reply).effects), taken(run, reply).run.phase),
        run.account is Some ==> taken(run, reply).run.account == run.account,
{
    reveal(taken);
    let effects = taken(run, reply).effects;
    if effects.len() > 0 {
        assert(effects =~= seq![effects[0]]);
        picked_one(effects[0], as_cleanup());
        picked_one(effects[0], as_delta());
        picked_one(effects[0], as_event());
    }
}

/// The same of a message without an error.
proof fn message_effects(run: RunView, deltas: Seq<DeltaView>)
    requires
        well_formed(run),
        run.phase == Phase::Message || run.phase == Phase::LastMessage,
    ensures
        cleanups_in(has_message(run, None, deltas).effects) == (if has_message(
            run,
            None,
            deltas,
        ).run.account is None {
            seq![cleanup_of(run)]
        } else {
            Seq::<CleanupView>::empty()
        }),
        deltas_in(has_message(run, None, deltas).effects) == deltas,
        ends_properly(
            events_in(has_message(run, None, deltas).effects),
            has_message(run, None, deltas).run.phase,
        ),
{
    let heard = RunView { answered: run.answered || some_answer(deltas), ..run };
    let step = if run.phase == Phase::LastMessage {
        answer_ends(heard)
    } else {
        next_message(heard)
    };
    if run.phase == Phase::LastMessage {
        attempt_end(heard, no_answer_text());
    }
    let before = delta_effects(deltas);
    pick_deltas(deltas);
    picked_add(before, step.effects, as_cleanup());
    picked_add(before, step.effects, as_delta());
    picked_add(before, step.effects, as_event());
    assert(Seq::<CleanupView>::empty() + cleanups_in(step.effects) =~= cleanups_in(step.effects));
    assert(deltas + Seq::<DeltaView>::empty() =~= deltas);
    let events = delta_events(deltas) + events_in(step.effects);
    assert(ends_properly(events_in(step.effects), step.run.phase));
    assert forall|i: int| 0 <= i < events.len() implies (is_last(#[trigger] events[i])
        <==> step.run.phase == Phase::Finished && i == events.len() - 1) by {
        if i >= deltas.len() {
            assert(events[i] == events_in(step.effects)[i - deltas.len()]);
        }
    }
}

/// How a step changes the state.
spec fn moves(run: RunView, found: Option<AccountView>, later: RunView) -> bool {
    &&& later.config == run.config
    &&& later.params == run.params
    &&& later.attempts == run.attempts
    &&& found is Some ==> run.account is None && later.account == found
    &&& found is None && later.account is Some ==> later.account == run.account
    &&& run.account is Some && later.phase == Phase::Account ==> later.attempt == run.attempt + 1
        && later.exclude == run.exclude.insert(run.account->0.email)
    &&& run.account is None || later.account is Some ==> later.attempt == run.attempt
        && later.exclude == run.exclude
}

/// The end of an attempt lets its account go.
proof fn attempt_end_moves(run: RunView, err: Seq<char>)
    requires
        well_formed(run),
        run.account is Some,
    ensures
        moves(run, None, attempt_fails(run, err).run),
        moves(run, None, attempt_fails_marked(run, err).run),
        moves(run, None, answer_ends(run).run),
        moves(run, None, answer_fails(run, err).run),
{
    assert(moves(run, None, begin_attempt(next_try(run, err)).run));
    assert(moves(run, None, begin_attempt(next_try(run, no_answer_text())).run));
}

/// How one step changes the state.
proof fn step_state(run: RunView, reply: ReplyView)
    requires
        well_formed(run),
        fits(run, reply),
    ensures
        moves(run, account_from(run.params, reply), taken(run, reply).run),
{
    reveal(taken);
    match reply {
        ReplyView::Chat(Err(err)) => {
            attempt_end_moves(run, err);
        },
        ReplyView::Started(Err(err)) => {
            attempt_end_moves(run, err);
        },
        ReplyView::ReadFailed(detail) => {
            attempt_end_moves(run, read_error_text(detail));
        },
        ReplyView::EndOfStream => {
            attempt_end_moves(run, no_answer_text());
        },
        ReplyView::Parsed { error, deltas } => match error {
            Some(err) => {
                attempt_end_moves(run, err);
            },
            None => {
                let heard = RunView { answered: run.answered || some_answer(deltas), ..run };
                attempt_end_moves(heard, no_answer_text());
            },
        },
        _ => {},
    }
}

/// A state that a run can be in is followed by one that it can be in.
proof fn step_stays_well_formed(run: RunView, reply: ReplyView)
    requires
        well_formed(run),
        fits(run, reply),
    ensures
        well_formed(taken(run, reply).run),
{
    reveal(taken);
    well_formed_stays(run, reply);
}

// ----- laws -----

/// Every state that a run gets into is one that a run can be in, and it keeps its request.
pub proof fn every_state_is_well_formed(
    config: Executor,
    params: StreamParams,
    replies: Seq<ReplyView>,
)
    requires
        in_turn(config, params, replies),
    ensures
        well_formed(after(config, params, replies).run),
        after(config, params, replies).run.config == config,
        after(config, params, replies).run.params == params,
        after(config, params, replies).run.attempts == attempts_of(config, params),
    decreases replies.len(),
{
    if replies.len() > 0 {
        every_state_is_well_formed(config, params, replies.drop_last());
        let before = after(config, params, replies.drop_last()).run;
        step_stays_well_formed(before, replies.last());
        step_state(before, replies.last());
    }
}

/// Every account that a run is given is cleaned up once, in the order in which they came, also
/// where the run is broken off: a pooled account is released, a given one is not, and a
/// conversation is deleted with the account's own token.
pub proof fn every_account_is_cleaned_up_once(
    config: Executor,
    params: StreamParams,
    replies: Seq<ReplyView>,
)
    requires
        in_turn(config, params, replies),
    ensures
        all_cleanups(after(config, params, replies)).len() == accounts(params, replies).len(),
        forall|i: int|
            0 <= i < accounts(params, replies).len() ==> cleans_up(
                #[trigger] all_cleanups(after(config, params, replies))[i],
                accounts(params, replies)[i],
                config,
                params,
            ),
    decreases replies.len(),
{
    let now = after(config, params, replies);
    let all = all_cleanups(now);
    if replies.len() > 0 {
        let earlier = replies.drop_last();
        let reply = replies.last();
        let before = after(config, params, earlier);
        every_account_is_cleaned_up_once(config, params, earlier);
        every_state_is_well_formed(config, params, earlier);
        every_state_is_well_formed(config, params, replies);
        held_is_the_last(config, params, earlier);
        held_is_the_last(config, params, replies);
        step_effects(before.run, reply);
        step_state(before.run, reply);
        picked_add(before.effects, taken(before.run, reply).effects, as_cleanup());
        let done = cleanups_in(before.effects);
        let found = accounts(params, replies);
        assert(all_cleanups(before) =~= done + held_cleanup(before.run));
        assert forall|i: int| 0 <= i < found.len() implies cleans_up(
            #[trigger] all[i],
            found[i],
            config,
            params,
        ) by {
            if i < done.len() {
                assert(all[i] == all_cleanups(before)[i]);
            }
        }
    } else {
        picked_add(Seq::empty(), now.effects, as_cleanup());
        if now.effects.len() > 0 {
            assert(now.effects =~= seq![now.effects[0]]);
            picked_one(now.effects[0], as_cleanup());
        }
    }
}

/// A cleanup is the right one for an account.
pub open spec fn cleans_up(
    cleanup: CleanupView,
    account: AccountView,
    config: Executor,
    params: StreamParams,
) -> bool {
    &&& cleanup.release == (if params.fixed_account is None {
        Some(account.email)
    } else {
        None
    })
    &&& cleanup.delete matches Some(deletion) ==> deletion.token == account.token
        && deletion.attempts == config.delete_attempts && deletion.delay_ms
        == config.delete_delay_ms
}

/// The conversation that a reply brings.
pub open spec fn chat_from(reply: ReplyView) -> Option<Seq<char>> {
    match reply {
        ReplyView::Prewarmed(chat_id) => chat_id,
        ReplyView::Chat(Ok(chat_id)) => Some(chat_id),
        _ => None,
    }
}

/// How one step changes the conversation that is to be deleted.
proof fn step_doomed(run: RunView, reply: ReplyView)
    requires
        well_formed(run),
        fits(run, reply),
    ensures
        ({
            let later = taken(run, reply).run;
            &&& chat_from(reply) is Some ==> run.account is Some && run.doomed is None
                && later.account == run.account && later.doomed == (
            if run.params.delete_on_close {
                chat_from(reply)
            } else {
                None
            })
            &&& chat_from(reply) is None && later.account is Some ==> later.doomed == run.doomed
        }),
{
    reveal(taken);
    match reply {
        ReplyView::Parsed { error: None, deltas } => {
            let heard = RunView { answered: run.answered || some_answer(deltas), ..run };
            attempt_end_moves(heard, no_answer_text());
            attempt_end(heard, no_answer_text());
        },
        ReplyView::Parsed { error: Some(err), deltas } => {
            attempt_end(run, err);
        },
        ReplyView::Chat(Err(err)) => {
            attempt_end(run, err);
        },
        ReplyView::Started(Err(err)) => {
            attempt_end(run, err);
        },
        ReplyView::ReadFailed(detail) => {
            attempt_end(run, read_error_text(detail));
        },
        ReplyView::EndOfStream => {
            attempt_end(run, no_answer_text());
        },
        _ => {},
    }
}

proof fn deleted_add(a: Seq<CleanupView>, b: Seq<CleanupView>)
    ensures
        deleted(a + b) == deleted(a) + deleted(b),
    decreases b.len(),
{
    if b.len() == 0 {
        assert(a + b =~= a);
        assert(deleted(a) + deleted(b) =~= deleted(a));
    } else {
        deleted_add(a, b.drop_last());
        assert((a + b).drop_last() =~= a + b.drop_last());
        assert(deleted(a + b) =~= deleted(a) + deleted(b));
    }
}

proof fn deleted_one(cleanup: CleanupView)
    ensures
        deleted(seq![cleanup]) == (match cleanup.delete {
            Some(deletion) => seq![deletion.chat_id],
            None => Seq::empty(),
        }),
{
    let one = seq![cleanup];
    assert(one.drop_last() =~= Seq::<CleanupView>::empty());
    assert(deleted(one.drop_last()) =~= Seq::<Seq<char>>::empty());
    assert(deleted(one) =~= match cleanup.delete {
        Some(deletion) => seq![deletion.chat_id],
        None => Seq::empty(),
    });
}

/// Every conversation that is made for a run is deleted once, also where the run is broken off,
/// if the request wants that; no other conversation is ever deleted.
pub proof fn every_made_chat_is_deleted_once(
    config: Executor,
    params: StreamParams,
    replies: Seq<ReplyView>,
)
    requires
        in_turn(config, params, replies),
    ensures
        deleted(all_cleanups(after(config, params, replies))) == (if params.delete_on_close {
            chats_made(replies)
        } else {
            Seq::empty()
        }),
    decreases replies.len(),
{
    let now = after(config, params, replies);
    if replies.len() > 0 {
        let earlier = replies.drop_last();
        let reply = replies.last();
        let before = after(config, params, earlier);
        every_made_chat_is_deleted_once(config, params, earlier);
        every_state_is_well_formed(config, params, earlier);
        every_state_is_well_formed(config, params, replies);
        step_effects(before.run, reply);
        step_state(before.run, reply);
        step_doomed(before.run, reply);
        let done = cleanups_in(before.effects);
        picked_add(before.effects, taken(before.run, reply).effects, as_cleanup());
        deleted_add(done, held_cleanup(before.run));
        let asked = cleanups_in(taken(before.run, reply).effects);
        deleted_add(done + asked, held_cleanup(now.run));
        deleted_add(done, asked);
        deleted_one(cleanup_of(before.run));
        deleted_one(cleanup_of(now.run));
        let none = Seq::<Seq<char>>::empty();
        assert(deleted(Seq::<CleanupView>::empty()) =~= none);
        assert(deleted(done) + none =~= deleted(done));
        assert(deleted(done + asked) + none =~= deleted(done + asked));
        let made = if params.delete_on_close {
            chats_made(replies)
        } else {
            Seq::empty()
        };
        if chat_from(reply) is Some {
            assert(deleted(all_cleanups(now)) =~= made);
        } else {
            assert(deleted(all_cleanups(now)) =~= deleted(all_cleanups(before)));
        }
    } else {
        start_effects(config, params);
        assert(all_cleanups(now) =~= Seq::<CleanupView>::empty());
    }
}

/// What the start of a run shows.
proof fn start_effects(config: Executor, params: StreamParams)
    ensures
        cleanups_in(start(config, params).effects) == Seq::<CleanupView>::empty(),
        deltas_in(start(config, params).effects) == Seq::<DeltaView>::empty(),
        ends_properly(events_in(start(config, params).effects), start(config, params).run.phase),
{
    let effects = start(config, params).effects;
    if effects.len() > 0 {
        assert(effects =~= seq![effects[0]]);
        picked_one(effects[0], as_cleanup());
        picked_one(effects[0], as_delta());
        picked_one(effects[0], as_event());
    }
}

/// The client sees one `Done` or `Error`, as the last event, once the run is over, and none
/// before.
pub proof fn one_last_event(config: Executor, params: StreamParams, replies: Seq<ReplyView>)
    requires
        in_turn(config, params, replies),
    ensures
        ends_properly(
            events_in(after(config, params, replies).effects),
            after(config, params, replies).run.phase,
        ),
    decreases replies.len(),
{
    if replies.len() > 0 {
        let earlier = replies.drop_last();
        let reply = replies.last();
        let before = after(config, params, earlier);
        one_last_event(config, params, earlier);
        every_state_is_well_formed(config, params, earlier);
        step_effects(before.run, reply);
        let step = taken(before.run, reply);
        picked_add(before.effects, step.effects, as_event());
        let seen = events_in(before.effects);
        let events = seen + events_in(step.effects);
        assert forall|i: int| 0 <= i < events.len() implies (is_last(#[trigger] events[i])
            <==> step.run.phase == Phase::Finished && i == events.len() - 1) by {
            if i < seen.len() {
                assert(events[i] == seen[i]);
            } else {
                assert(events[i] == events_in(step.effects)[i - seen.len()]);
            }
        }
    } else {
        start_effects(config, params);
    }
}

/// The pieces that are read out of the answers reach the client, all of them and in order.
pub proof fn deltas_are_relayed(config: Executor, params: StreamParams, replies: Seq<ReplyView>)
    requires
        in_turn(config, params, replies),
    ensures
        deltas_in(after(config, params, replies).effects) == deltas_read(replies),
    decreases replies.len(),
{
    if replies.len() > 0 {
        let earlier = replies.drop_last();
        let before = after(config, params, earlier);
        deltas_are_relayed(config, params, earlier);
        every_state_is_well_formed(config, params, earlier);
        step_effects(before.run, replies.last());
        picked_add(before.effects, taken(before.run, replies.last()).effects, as_delta());
    } else {
        start_effects(config, params);
    }
}

/// A run is given no more accounts than it has attempts; one where the account is given.
pub proof fn attempts_are_bounded(config: Executor, params: StreamParams, replies: Seq<ReplyView>)
    requires
        in_turn(config, params, replies),
    ensures
        accounts(params, replies).len() <= attempts_of(config, params),
{
    every_state_is_well_formed(config, params, replies);
    held_is_the_last(config, params, replies);
}

/// A name is not to be asked for: the request says so, or an attempt with it has failed.
pub open spec fn is_excluded(
    params: StreamParams,
    failed: Seq<AccountView>,
    name: Seq<char>,
) -> bool {
    ||| name_set(params.exclude@).contains(name)
    ||| exists|i: int| 0 <= i < failed.len() && (#[trigger] failed[i]).email == name
}

/// Whenever a run waits for an account, it has excluded those that the request excludes and those
/// of all its earlier attempts, and no others; a pool is asked with exactly these.
pub proof fn failed_accounts_are_excluded(
    config: Executor,
    params: StreamParams,
    replies: Seq<ReplyView>,
)
    requires
        in_turn(config, params, replies),
        after(config, params, replies).run.phase == Phase::Account,
    ensures
        forall|name: Seq<char>|
            after(config, params, replies).run.exclude.contains(name) <==> is_excluded(
                params,
                accounts(params, replies),
                name,
            ),
        params.fixed_account is None ==> after(config, params, replies).request
            == (RequestView::AcquireAccount {
            exclude: after(config, params, replies).run.exclude,
            wait_secs: ACQUIRE_WAIT_SECS,
        }),
{
    every_state_is_well_formed(config, params, replies);
    held_is_the_last(config, params, replies);
    excluded_so_far(config, params, replies);
    let run = after(config, params, replies).run;
    let found = accounts(params, replies);
    assert(found.take(run.attempt as int) =~= found);
    if replies.len() > 0 {
        let earlier = replies.drop_last();
        every_state_is_well_formed(config, params, earlier);
        waiting_for_account(after(config, params, earlier).run, replies.last());
    }
}

/// A step into waiting for an account asks for one.
proof fn waiting_for_account(run: RunView, reply: ReplyView)
    requires
        well_formed(run),
        fits(run, reply),
        taken(run, reply).run.phase == Phase::Account,
    ensures
        pooled(run) ==> taken(run, reply).request == (RequestView::AcquireAccount {
            exclude: taken(run, reply).run.exclude,
            wait_secs: ACQUIRE_WAIT_SECS,
        }),
{
    reveal(taken);
}

/// What is excluded at any time.
proof fn excluded_so_far(config: Executor, params: StreamParams, replies: Seq<ReplyView>)
    requires
        in_turn(config, params, replies),
    ensures
        ({
            let run = after(config, params, replies).run;
            run.phase != Phase::Finished ==> forall|name: Seq<char>|
                run.exclude.contains(name) <==> is_excluded(
                    params,
                    accounts(params, replies).take(run.attempt as int),
                    name,
                )
        }),
    decreases replies.len(),
{
    let run = after(config, params, replies).run;
    let failed = accounts(params, replies).take(run.attempt as int);
    if replies.len() > 0 {
        let earlier = replies.drop_last();
        let before = after(config, params, earlier).run;
        every_state_is_well_formed(config, params, earlier);
        every_state_is_well_formed(config, params, replies);
        excluded_so_far(config, params, earlier);
        held_is_the_last(config, params, earlier);
        held_is_the_last(config, params, replies);
        step_state(before, replies.last());
        let failed_before = accounts(params, earlier).take(before.attempt as int);
        if run.phase != Phase::Finished {
            if before.account is Some && run.account is None {
                let last = before.account->0;
                assert(failed =~= failed_before.push(last));
                assert forall|name: Seq<char>| run.exclude.contains(name) <==> is_excluded(
                    params,
                    failed,
                    name,
                ) by {
                    if is_excluded(params, failed_before, name) && !name_set(
                        params.exclude@,
                    ).contains(name) {
                        let i = choose|i: int|
                            0 <= i < failed_before.len() && (#[trigger] failed_before[i]).email
                                == name;
                        assert(failed[i].email == name);
                    }
                    if is_excluded(params, failed, name) && !name_set(params.exclude@).contains(
                        name,
                    ) {
                        let i = choose|i: int|
                            0 <= i < failed.len() && (#[trigger] failed[i]).email == name;
                        if i < failed_before.len() {
                            assert(failed_before[i].email == name);
                        }
                    }
                    if name == last.email {
                        assert(failed[failed_before.len() as int].email == name);
                    }
                }
            } else {
                assert(failed =~= failed_before);
            }
        }
    } else {
        assert(failed.len() == 0);
    }
}

/// The account that a run holds is the last one that it was given, and there are as many as it
/// has begun attempts with: no more than it is allowed.
proof fn held_is_the_last(config: Executor, params: StreamParams, replies: Seq<ReplyView>)
    requires
        in_turn(config, params, replies),
    ensures
        ({
            let run = after(config, params, replies).run;
            let found = accounts(params, replies);
            &&& run.account is Some ==> found.len() > 0 && run.account == Some(found.last())
            &&& run.phase != Phase::Finished ==> found.len() == run.attempt + (
            if run.account is Some {
                1int
            } else {
                0
            })
            &&& found.len() <= run.attempts
        }),
    decreases replies.len(),
{
    if replies.len() > 0 {
        let earlier = replies.drop_last();
        held_is_the_last(config, params, earlier);
        every_state_is_well_formed(config, params, earlier);
        every_state_is_well_formed(config, params, replies);
        let before = after(config, params, earlier).run;
        step_state(before, replies.last());
    }
}

/// The pool hands out none of the accounts that it is asked to avoid.
pub open spec fn pool_avoids_excluded(
    config: Executor,
    params: StreamParams,
    replies: Seq<ReplyView>,
) -> bool
    decreases replies.len(),
{
    replies.len() > 0 ==> pool_avoids_excluded(config, params, replies.drop_last()) && (
    replies.last() matches ReplyView::Account(Some(account)) ==> !after(
        config,
        params,
        replies.drop_last(),
    ).run.exclude.contains(account.email))
}

/// With a pool that hands out none of the accounts that it is asked to avoid, every attempt is
/// with another account, and with none that the request excludes.
pub proof fn retries_swap_accounts(config: Executor, params: StreamParams, replies: Seq<ReplyView>)
    requires
        in_turn(config, params, replies),
        params.fixed_account is None,
        pool_avoids_excluded(config, params, replies),
    ensures
        forall|i: int, j: int|
            0 <= i < j < accounts(params, replies).len() ==> (#[trigger] accounts(
                params,
                replies,
            )[i]).email != (#[trigger] accounts(params, replies)[j]).email,
        forall|i: int|
            0 <= i < accounts(params, replies).len() ==> !name_set(params.exclude@).contains(
                (#[trigger] accounts(params, replies)[i]).email,
            ),
    decreases replies.len(),
{
    if replies.len() > 0 {
        let earlier = replies.drop_last();
        retries_swap_accounts(config, params, earlier);
        every_state_is_well_formed(config, params, earlier);
        if let Some(account) = account_from(params, replies.last()) {
            let before = accounts(params, earlier);
            let found = accounts(params, replies);
            failed_accounts_are_excluded(config, params, earlier);
            assert(!is_excluded(params, before, account.email));
            assert(found =~= before.push(account));
            assert forall|i: int, j: int| 0 <= i < j < found.len() implies (
            #[trigger] found[i]).email != (#[trigger] found[j]).email by {
                assert(found[i] == before[i]);
                if j < before.len() {
                    assert(found[j] == before[j]);
                }
            }
        }
    }
}

// ----- laws: bytes, content and marks -----

/// The bytes of the answer that is being read.
pub open spec fn bytes_received(replies: Seq<ReplyView>) -> Seq<u8>
    decreases replies.len(),
{
    if replies.len() == 0 {
        Seq::empty()
    } else {
        match replies.last() {
            ReplyView::Started(_) => Seq::empty(),
            ReplyView::Chunk(bytes) => bytes_received(replies.drop_last()) + bytes,
            _ => bytes_received(replies.drop_last()),
        }
    }
}

/// The texts of the answer that is being read which the run wanted parsed.
pub open spec fn texts_to_parse(
    config: Executor,
    params: StreamParams,
    replies: Seq<ReplyView>,
) -> Seq<Seq<char>>
    decreases replies.len(),
{
    if replies.len() == 0 {
        Seq::empty()
    } else {
        match replies.last() {
            ReplyView::Started(_) => Seq::empty(),
            _ => texts_to_parse(config, params, replies.drop_last()) + parse_text(
                after(config, params, replies).request,
            ),
        }
    }
}

/// The text that a request wants parsed.
pub open spec fn parse_text(request: RequestView) -> Seq<Seq<char>> {
    match request {
        RequestView::Parse(text) => seq![text],
        _ => Seq::empty(),
    }
}

/// Messages, as texts.
pub open spec fn as_texts(messages: Seq<Seq<u8>>) -> Seq<Seq<char>> {
    Seq::new(messages.len(), |i: int| text_of(messages[i]))
}

/// Of an answer whose bytes so far are `bytes`, the texts `parsed` have been parsed: in the order
/// of its messages, all complete ones before more bytes are asked for, and the rest once no more
/// bytes come.
pub open spec fn parsed_so_far(run: RunView, bytes: Seq<u8>, parsed: Seq<Seq<char>>) -> bool {
    &&& run.phase == Phase::Chunk ==> parsed == as_texts(messages(bytes)) && run.buffer
        == unfinished(bytes)
    &&& run.phase == Phase::Message ==> parsed + as_texts(messages(run.buffer)) == as_texts(
        messages(bytes),
    ) && unfinished(run.buffer) == unfinished(bytes)
    &&& run.phase == Phase::LastMessage ==> parsed == as_texts(messages(bytes)).push(
        text_of(unfinished(bytes)),
    )
}

/// What is parsed are the messages of the whole answer, in order, however its bytes arrive.
pub proof fn every_message_is_parsed(
    config: Executor,
    params: StreamParams,
    replies: Seq<ReplyView>,
)
    requires
        in_turn(config, params, replies),
    ensures
        parsed_so_far(
            after(config, params, replies).run,
            bytes_received(replies),
            texts_to_parse(config, params, replies),
        ),
    decreases replies.len(),
{
    if replies.len() > 0 {
        let earlier = replies.drop_last();
        every_message_is_parsed(config, params, earlier);
        every_state_is_well_formed(config, params, earlier);
        parsing_goes_on(
            after(config, params, earlier).run,
            replies.last(),
            bytes_received(earlier),
            texts_to_parse(config, params, earlier),
        );
    }
}

/// One step of reading an answer.
proof fn parsing_goes_on(
    run: RunView,
    reply: ReplyView,
    bytes: Seq<u8>,
    parsed: Seq<Seq<char>>,
)
    requires
        well_formed(run),
        fits(run, reply),
        parsed_so_far(run, bytes, parsed),
    ensures
        parsed_so_far(
            taken(run, reply).run,
            match reply {
                ReplyView::Started(_) => Seq::empty(),
                ReplyView::Chunk(chunk) => bytes + chunk,
                _ => bytes,
            },
            match reply {
                ReplyView::Started(_) => Seq::empty(),
                _ => parsed + parse_text(taken(run, reply).request),
            },
        ),
{
    match reply {
        ReplyView::Started(Ok(())) => {
            reveal(taken);
            no_end_in_nothing();
        },
        ReplyView::Chunk(chunk) => {
            chunk_is_read(run, chunk, bytes, parsed);
        },
        ReplyView::Parsed { error: None, deltas } => {
            message_is_read(run, deltas, bytes, parsed);
        },
        ReplyView::EndOfStream => {
            reveal(taken);
            attempt_end(run, no_answer_text());
            assert(parsed + seq![text_of(run.buffer)] =~= parsed.push(text_of(run.buffer)));
        },
        _ => {
            leaves_the_answer(run, reply);
        },
    }
}

/// The same where bytes come.
proof fn chunk_is_read(run: RunView, chunk: Seq<u8>, bytes: Seq<u8>, parsed: Seq<Seq<char>>)
    requires
        run.phase == Phase::Chunk,
        parsed_so_far(run, bytes, parsed),
    ensures
        ({
            let step = taken(run, ReplyView::Chunk(chunk));
            parsed_so_far(step.run, bytes + chunk, parsed + parse_text(step.request))
        }),
{
    let buffer = run.buffer + chunk;
    let later = RunView { buffer, ..run };
    assert(taken(run, ReplyView::Chunk(chunk)) == next_message(later)) by {
        reveal(taken);
    }
    framing_ignores_chunks(bytes, chunk);
    next_message_parsed(later);
    assert(as_texts(messages(bytes + chunk)) =~= parsed + as_texts(messages(buffer)));
    message_texts(run, parsed, buffer);
}

/// The same where a message has been parsed.
proof fn message_is_read(
    run: RunView,
    deltas: Seq<DeltaView>,
    bytes: Seq<u8>,
    parsed: Seq<Seq<char>>,
)
    requires
        well_formed(run),
        run.phase == Phase::Message || run.phase == Phase::LastMessage,
        parsed_so_far(run, bytes, parsed),
    ensures
        ({
            let step = taken(run, ReplyView::Parsed { error: None, deltas });
            parsed_so_far(step.run, bytes, parsed + parse_text(step.request))
        }),
{
    let heard = RunView { answered: run.answered || some_answer(deltas), ..run };
    let step = taken(run, ReplyView::Parsed { error: None, deltas });
    let inner = if run.phase == Phase::LastMessage {
        answer_ends(heard)
    } else {
        next_message(heard)
    };
    assert(step.run == inner.run && step.request == inner.request) by {
        reveal(taken);
    }
    if run.phase == Phase::LastMessage {
        attempt_end(heard, no_answer_text());
    } else {
        next_message_parsed(heard);
        message_texts(heard, parsed, run.buffer);
    }
}

/// Nothing has no messages.
proof fn no_end_in_nothing()
    ensures
        messages(Seq::<u8>::empty()) == Seq::<Seq<u8>>::empty(),
        unfinished(Seq::<u8>::empty()) == Seq::<u8>::empty(),
        as_texts(Seq::<Seq<u8>>::empty()) == Seq::<Seq<char>>::empty(),
{
    cut_is_inside(Seq::<u8>::empty());
    assert(as_texts(Seq::<Seq<u8>>::empty()) =~= Seq::<Seq<char>>::empty());
}

/// Reading the next message takes one off the buffer.
proof fn next_message_parsed(run: RunView)
    ensures
        ({
            let step = next_message(run);
            &&& step.run.phase == Phase::Message || step.run.phase == Phase::Chunk
            &&& parse_text(step.request) + as_texts(messages(step.run.buffer)) == as_texts(
                messages(run.buffer),
            )
            &&& unfinished(step.run.buffer) == unfinished(run.buffer)
            &&& step.run.phase == Phase::Chunk ==> messages(run.buffer).len() == 0
                && step.run.buffer == unfinished(run.buffer) && step.request
                == RequestView::ReadChunk
        }),
{
    cut_is_inside(run.buffer);
    let step = next_message(run);
    assert(parse_text(step.request) + as_texts(messages(step.run.buffer)) =~= as_texts(
        messages(run.buffer),
    ));
}

/// Texts that were read, and those of the buffer, before and after the next message is read.
proof fn message_texts(run: RunView, read: Seq<Seq<char>>, buffer: Seq<u8>)
    ensures
        ({
            let step = next_message(RunView { buffer, ..run });
            let parsed = read + parse_text(step.request);
            &&& parsed + as_texts(messages(step.run.buffer)) == read + as_texts(messages(buffer))
            &&& step.run.phase == Phase::Chunk ==> parsed == read + as_texts(messages(buffer))
        }),
{
    next_message_parsed(RunView { buffer, ..run });
    let step = next_message(RunView { buffer, ..run });
    let parsed = read + parse_text(step.request);
    assert(parsed + as_texts(messages(step.run.buffer)) =~= read + (parse_text(step.request)
        + as_texts(messages(step.run.buffer))));
    if step.run.phase == Phase::Chunk {
        assert(parsed =~= read + as_texts(messages(buffer)));
    }
}

/// Other replies do not lead into an answer.
proof fn leaves_the_answer(run: RunView, reply: ReplyView)
    requires
        well_formed(run),
        fits(run, reply),
        !(reply is Chunk || reply is EndOfStream || reply matches ReplyView::Started(Ok(_))
            || reply matches ReplyView::Parsed { error: None, .. }),
    ensures
        ({
            let phase = taken(run, reply).run.phase;
            phase != Phase::Chunk && phase != Phase::Message && phase != Phase::LastMessage
        }),
{
    reveal(taken);
    match reply {
        ReplyView::Chat(Err(err)) => {
            attempt_end(run, err);
        },
        ReplyView::Started(Err(err)) => {
            attempt_end(run, err);
        },
        ReplyView::ReadFailed(detail) => {
            attempt_end(run, read_error_text(detail));
        },
        ReplyView::Parsed { error: Some(err), deltas } => {
            attempt_end(run, err);
        },
        _ => {},
    }
}

/// The events at the end of an attempt.
proof fn attempt_end_notices(run: RunView, err: Seq<char>)
    requires
        well_formed(run),
        run.account is Some,
    ensures
        ({
            let events = events_in(attempt_fails_marked(run, err).effects);
            !events.contains(EventView::Done) && !events.contains(EventView::Retrying)
        }),
        ({
            let events = events_in(answer_fails(run, err).effects);
            &&& !events.contains(EventView::Done)
            &&& events.contains(EventView::Retrying) <==> run.answered && swap_helps(
                lower_form(err),
            ) && run.attempt + 1 < run.attempts
        }),
        ({
            let events = events_in(answer_ends(run).effects);
            &&& events.contains(EventView::Done) <==> !is_chat(run) || run.answered
            &&& !events.contains(EventView::Retrying)
        }),
{
    let pick = as_event();
    pick_attempt_fails(run, err, pick);
    pick_begin(next_try(run, err), pick);
    pick_attempt_fails(run, no_answer_text(), pick);
    pick_begin(next_try(run, no_answer_text()), pick);
    pick_ends_with(run, EventView::Done, pick);
    pick_ends_with(run, EventView::Error(err), pick);
    pick_answer_fails(run, err, pick);
    pick_notice(run, pick);
    pick_answer_ends(run, pick);
    let failed = events_in(answer_fails(run, err).effects);
    if run.answered && swap_helps(lower_form(err)) && run.attempt + 1 < run.attempts {
        assert(failed[0] == EventView::Retrying);
    }
    let ended = events_in(answer_ends(run).effects);
    if !is_chat(run) || run.answered {
        assert(ended[0] == EventView::Done);
    }
}

/// The error that breaks an answer off.
pub open spec fn break_off(reply: ReplyView) -> Option<Seq<char>> {
    match reply {
        ReplyView::ReadFailed(detail) => Some(read_error_text(detail)),
        ReplyView::Parsed { error, deltas: _ } => error,
        _ => None,
    }
}

/// A step ends well only where a piece of the answer has come, if the request is for text from
/// text; and it announces a retry exactly where an answer that has begun breaks off with an error
/// that another account gets around, and another attempt is left: the next thing that the run
/// waits for is then an account.
pub proof fn step_notices(run: RunView, reply: ReplyView)
    requires
        well_formed(run),
        fits(run, reply),
    ensures
        events_in(taken(run, reply).effects).contains(EventView::Done) ==> !is_chat(run)
            || run.answered || some_answer(new_deltas(reply)),
        events_in(taken(run, reply).effects).contains(EventView::Retrying) <==> run.answered
            && break_off(reply) is Some && swap_helps(lower_form(break_off(reply)->0))
            && run.attempt + 1 < run.attempts,
        events_in(taken(run, reply).effects).contains(EventView::Retrying) ==> taken(
            run,
            reply,
        ).run.phase == Phase::Account,
        taken(run, reply).run.answered ==> run.answered || some_answer(new_deltas(reply)),
{
    reveal(taken);
    match reply {
        ReplyView::Chat(Err(err)) => {
            attempt_end_notices(run, err);
            attempt_end(run, err);
        },
        ReplyView::Started(Err(err)) => {
            attempt_end_notices(run, err);
            attempt_end(run, err);
        },
        ReplyView::ReadFailed(detail) => {
            attempt_end_notices(run, read_error_text(detail));
            attempt_end(run, read_error_text(detail));
        },
        ReplyView::EndOfStream => {
            attempt_end_notices(run, no_answer_text());
            attempt_end(run, no_answer_text());
        },
        ReplyView::Parsed { error: Some(err), deltas } => {
            attempt_end_notices(run, err);
            attempt_end(run, err);
        },
        ReplyView::Parsed { error: None, deltas } => {
            message_notices(run, deltas);
        },
        _ => {
            quiet_notices(run, reply);
        },
    }
}

/// The same of a message without an error.
proof fn message_notices(run: RunView, deltas: Seq<DeltaView>)
    requires
        well_formed(run),
        run.phase == Phase::Message || run.phase == Phase::LastMessage,
    ensures
        ({
            let step = has_message(run, None, deltas);
            let events = events_in(step.effects);
            &&& events.contains(EventView::Done) ==> !is_chat(run) || run.answered || some_answer(
                deltas,
            )
            &&& !events.contains(EventView::Retrying)
            &&& step.run.answered ==> run.answered || some_answer(deltas)
        }),
{
    let heard = RunView { answered: run.answered || some_answer(deltas), ..run };
    let step = if run.phase == Phase::LastMessage {
        answer_ends(heard)
    } else {
        next_message(heard)
    };
    attempt_end(heard, no_answer_text());
    attempt_end_notices(heard, no_answer_text());
    pick_deltas(deltas);
    picked_add(delta_effects(deltas), step.effects, as_event());
    let events = delta_events(deltas) + events_in(step.effects);
    assert forall|event: EventView|
        event is Done || event is Retrying implies #[trigger] events.contains(event)
        == events_in(step.effects).contains(event) by {
        if events.contains(event) {
            let i = choose|i: int| 0 <= i < events.len() && events[i] == event;
            assert(events_in(step.effects)[i - deltas.len()] == event);
        }
        if events_in(step.effects).contains(event) {
            let i = choose|i: int|
                0 <= i < events_in(step.effects).len() && events_in(step.effects)[i] == event;
            assert(events[i + deltas.len()] == event);
        }
    }
    assert(events.contains(EventView::Done) == events_in(step.effects).contains(EventView::Done));
    assert(events.contains(EventView::Retrying) == events_in(step.effects).contains(
        EventView::Retrying,
    ));
}

/// The same of a reply that leaves the attempt running or ends the run before it has an account.
proof fn quiet_notices(run: RunView, reply: ReplyView)
    requires
        well_formed(run),
        fits(run, reply),
        reply is Token || reply is Account || reply is Prewarmed || reply is Chunk
            || reply matches ReplyView::Chat(Ok(_)) || reply matches ReplyView::Started(Ok(_)),
    ensures
        ({
            let events = events_in(taken(run, reply).effects);
            &&& !events.contains(EventView::Done)
            &&& !events.contains(EventView::Retrying)
            &&& taken(run, reply).run.answered ==> run.answered
        }),
{
    reveal(taken);
    let effects = taken(run, reply).effects;
    if effects.len() > 0 {
        assert(effects =~= seq![effects[0]]);
        picked_one(effects[0], as_event());
    }
}

/// A request for text from text ends with `Done` only after a piece of the answer itself has
/// reached the client: an answer of reasoning alone, or of nothing, does not count.
pub proof fn done_means_answered(config: Executor, params: StreamParams, replies: Seq<ReplyView>)
    requires
        in_turn(config, params, replies),
        events_in(after(config, params, replies).effects).contains(EventView::Done),
        params.chat_type@ == "t2t"@,
    ensures
        some_answer(deltas_in(after(config, params, replies).effects)),
{
    deltas_are_relayed(config, params, replies);
    answers_so_far(config, params, replies);
}

proof fn answers_so_far(config: Executor, params: StreamParams, replies: Seq<ReplyView>)
    requires
        in_turn(config, params, replies),
    ensures
        after(config, params, replies).run.answered ==> some_answer(deltas_read(replies)),
        events_in(after(config, params, replies).effects).contains(EventView::Done)
            && params.chat_type@ == "t2t"@ ==> some_answer(deltas_read(replies)),
    decreases replies.len(),
{
    if replies.len() > 0 {
        let earlier = replies.drop_last();
        let before = after(config, params, earlier);
        let reply = replies.last();
        answers_so_far(config, params, earlier);
        every_state_is_well_formed(config, params, earlier);
        step_notices(before.run, reply);
        let step = taken(before.run, reply);
        picked_add(before.effects, step.effects, as_event());
        let seen = events_in(before.effects);
        let events = seen + events_in(step.effects);
        if events.contains(EventView::Done) && !seen.contains(EventView::Done) {
            let i = choose|i: int| 0 <= i < events.len() && events[i] == EventView::Done;
            if i < seen.len() {
                assert(seen[i] == EventView::Done);
            }
            assert(events_in(step.effects)[i - seen.len()] == EventView::Done);
        }
        let read = deltas_read(earlier);
        let all = deltas_read(replies);
        if some_answer(read) {
            let i = choose|i: int| 0 <= i < read.len() && (#[trigger] read[i]).has_answer_content;
            assert(all[i].has_answer_content);
        }
        let new = new_deltas(reply);
        if some_answer(new) {
            let i = choose|i: int| 0 <= i < new.len() && (#[trigger] new[i]).has_answer_content;
            assert(all[read.len() + i].has_answer_content);
        }
    } else {
        let effects = start(config, params).effects;
        if effects.len() > 0 {
            assert(effects =~= seq![effects[0]]);
            picked_one(effects[0], as_event());
        }
    }
}

/// Finds the accounts that are marked as successful.
pub open spec fn as_success() -> spec_fn(EffectView) -> Option<Seq<char>> {
    |effect: EffectView|
        match effect {
            EffectView::MarkSuccess(email) => Some(email),
            _ => None,
        }
}

/// The accounts that are marked as successful, at the end of an attempt.
proof fn attempt_end_successes(run: RunView, err: Seq<char>)
    requires
        well_formed(run),
        run.account is Some,
    ensures
        picked(attempt_fails_marked(run, err).effects, as_success()) == Seq::<Seq<char>>::empty(),
        picked(answer_fails(run, err).effects, as_success()) == Seq::<Seq<char>>::empty(),
        picked(answer_ends(run).effects, as_success()) == (if pooled(run) && (!is_chat(run)
            || run.answered) {
            seq![run.account->0.email]
        } else {
            Seq::empty()
        }),
{
    let pick = as_success();
    pick_attempt_fails(run, err, pick);
    pick_begin(next_try(run, err), pick);
    pick_attempt_fails(run, no_answer_text(), pick);
    pick_begin(next_try(run, no_answer_text()), pick);
    pick_ends_with(run, EventView::Done, pick);
    pick_ends_with(run, EventView::Error(err), pick);
    pick_answer_fails(run, err, pick);
    pick_notice(run, pick);
    pick_answer_ends(run, pick);
    let none = Seq::<Seq<char>>::empty();
    assert(none + none =~= none);
    assert(seq![run.account->0.email] + none =~= seq![run.account->0.email]);
}

/// A step marks an account as successful exactly where the request ends with `Done` on an account
/// of the pool, and then that account.
pub proof fn success_is_marked_with_done(run: RunView, reply: ReplyView)
    requires
        well_formed(run),
        fits(run, reply),
    ensures
        picked(taken(run, reply).effects, as_success()) == (if pooled(run) && events_in(
            taken(run, reply).effects,
        ).contains(EventView::Done) {
            seq![run.account->0.email]
        } else {
            Seq::empty()
        }),
{
    reveal(taken);
    match reply {
        ReplyView::Chat(Err(err)) => {
            attempt_end_notices(run, err);
            attempt_end_successes(run, err);
        },
        ReplyView::Started(Err(err)) => {
            attempt_end_notices(run, err);
            attempt_end_successes(run, err);
        },
        ReplyView::ReadFailed(detail) => {
            attempt_end_notices(run, read_error_text(detail));
            attempt_end_successes(run, read_error_text(detail));
        },
        ReplyView::EndOfStream => {
            attempt_end_notices(run, no_answer_text());
            attempt_end_successes(run, no_answer_text());
        },
        ReplyView::Parsed { error: Some(err), deltas } => {
            attempt_end_notices(run, err);
            attempt_end_successes(run, err);
        },
        ReplyView::Parsed { error: None, deltas } => {
            message_successes(run, deltas);
        },
        _ => {
            quiet_notices(run, reply);
            let effects = next(run, reply).effects;
            if effects.len() > 0 {
                assert(effects =~= seq![effects[0]]);
                picked_one(effects[0], as_success());
            }
        },
    }
}

/// The same of a message without an error.
proof fn message_successes(run: RunView, deltas: Seq<DeltaView>)
    requires
        well_formed(run),
        run.phase == Phase::Message || run.phase == Phase::LastMessage,
    ensures
        ({
            let effects = has_message(run, None, deltas).effects;
            picked(effects, as_success()) == (if pooled(run) && events_in(effects).contains(
                EventView::Done,
            ) {
                seq![run.account->0.email]
            } else {
                Seq::empty()
            })
        }),
{
    let heard = RunView { answered: run.answered || some_answer(deltas), ..run };
    let step = if run.phase == Phase::LastMessage {
        answer_ends(heard)
    } else {
        next_message(heard)
    };
    attempt_end_notices(heard, no_answer_text());
    attempt_end_successes(heard, no_answer_text());
    relayed_successes(deltas);
    pick_deltas(deltas);
    picked_add(delta_effects(deltas), step.effects, as_success());
    picked_add(delta_effects(deltas), step.effects, as_event());
    let shown = events_in(step.effects);
    let events = delta_events(deltas) + shown;
    assert(events.contains(EventView::Done) == shown.contains(EventView::Done)) by {
        if events.contains(EventView::Done) {
            let i = choose|i: int| 0 <= i < events.len() && events[i] == EventView::Done;
            assert(shown[i - deltas.len()] == EventView::Done);
        }
        if shown.contains(EventView::Done) {
            let i = choose|i: int| 0 <= i < shown.len() && shown[i] == EventView::Done;
            assert(events[i + deltas.len()] == EventView::Done);
        }
    }
    let none = Seq::<Seq<char>>::empty();
    assert(none + picked(step.effects, as_success()) =~= picked(step.effects, as_success()));
}

/// Relaying pieces of an answer marks nobody.
proof fn relayed_successes(deltas: Seq<DeltaView>)
    ensures
        picked(delta_effects(deltas), as_success()) == Seq::<Seq<char>>::empty(),
    decreases deltas.len(),
{
    if deltas.len() > 0 {
        relayed_successes(deltas.drop_last());
        assert(delta_effects(deltas).drop_last() =~= delta_effects(deltas.drop_last()));
    }
}

} // verus!
