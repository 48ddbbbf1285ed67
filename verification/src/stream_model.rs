//! How a streamed request runs, as a transition system: what happens after each reply.
use vstd::prelude::*;
use crate::executor::{Executor, Phase, StreamParams};
use crate::framing::{first_end, text_of};
use crate::retry::{lower_form, mark_for, swap_helps, AccountMark, InvalidReason};
use crate::text::{decimal, name_set};

verus! {

/// A piece of an answer.
#[verifier::ext_equal]
pub struct DeltaView {
    pub raw: Seq<char>,
    pub has_answer_content: bool,
}

/// What the client of a run sees.
#[verifier::ext_equal]
pub enum EventView {
    Meta { chat_id: Seq<char>, email: Seq<char> },
    Delta(DeltaView),
    Done,
    Error(Seq<char>),
    Retrying,
}

/// A conversation to delete.
#[verifier::ext_equal]
pub struct DeletionView {
    pub token: Seq<char>,
    pub chat_id: Seq<char>,
    pub attempts: u32,
    pub delay_ms: u64,
}

/// What is left to do for an account that is not used any more.
#[verifier::ext_equal]
pub struct CleanupView {
    pub delete: Option<DeletionView>,
    pub release: Option<Seq<char>>,
}

/// Something that a run has done.
#[verifier::ext_equal]
pub enum EffectView {
    Yield(EventView),
    MarkSuccess(Seq<char>),
    MarkRateLimited(Seq<char>),
    MarkInvalid { email: Seq<char>, reason: InvalidReason, detail: Seq<char> },
    CleanUp(CleanupView),
}

/// What the upstream is asked in a conversation.
#[verifier::ext_equal]
pub struct PromptView {
    pub model: Seq<char>,
    pub content: Seq<char>,
    pub has_custom_tools: bool,
    pub files: Seq<serde_json::Value>,
    pub chat_type: Seq<char>,
    pub image_options: Option<serde_json::Value>,
    pub thinking_enabled: Option<bool>,
    pub enable_search: bool,
}

/// What a run waits for.
#[verifier::ext_equal]
pub enum RequestView {
    TokenOf(Seq<char>),
    AcquireAccount { exclude: Set<Seq<char>>, wait_secs: u64 },
    AcquirePrewarmed { email: Seq<char>, token: Seq<char>, model: Seq<char> },
    CreateChat { token: Seq<char>, model: Seq<char>, chat_type: Seq<char> },
    StartStream { token: Seq<char>, chat_id: Seq<char>, prompt: PromptView },
    ReadChunk,
    Parse(Seq<char>),
    Nothing,
}

/// What came of what a run waited for.
#[verifier::ext_equal]
pub enum ReplyView {
    Token(Option<Seq<char>>),
    Account(Option<AccountView>),
    Prewarmed(Option<Seq<char>>),
    Chat(Result<Seq<char>, Seq<char>>),
    Started(Result<(), Seq<char>>),
    Chunk(Seq<u8>),
    ReadFailed(Seq<char>),
    EndOfStream,
    Parsed { error: Option<Seq<char>>, deltas: Seq<DeltaView> },
}

/// An account and the token to use it with.
#[verifier::ext_equal]
pub struct AccountView {
    pub email: Seq<char>,
    pub token: Seq<char>,
}

/// The state of a run.
#[verifier::ext_equal]
pub struct RunView {
    pub config: Executor,
    pub params: StreamParams,
    /// How many accounts are tried at most.
    pub attempts: u32,
    /// How many attempts have failed.
    pub attempt: u32,
    /// The accounts that are not asked for again.
    pub exclude: Set<Seq<char>>,
    pub last_error: Option<Seq<char>>,
    pub phase: Phase,
    /// The account of the running attempt.
    pub account: Option<AccountView>,
    /// The conversation of the running attempt.
    pub chat_id: Option<Seq<char>>,
    /// The conversation to delete when the attempt ends.
    pub doomed: Option<Seq<char>>,
    /// The bytes of the answer that have not been cut into messages.
    pub buffer: Seq<u8>,
    /// Whether a piece of the answer itself has come.
    pub answered: bool,
}

/// A state, what was done to get there, and what it waits for.
#[verifier::ext_equal]
pub struct StepView {
    pub run: RunView,
    pub effects: Seq<EffectView>,
    pub request: RequestView,
}

/// How long the account pool may take to find an account, in seconds.
pub const ACQUIRE_WAIT_SECS: u64 = 60;

// ----- texts -----

/// The text of an optional string.
pub open spec fn opt_text(s: Option<String>) -> Option<Seq<char>> {
    match s {
        Some(t) => Some(t@),
        None => None,
    }
}

/// No account of that name.
pub open spec fn missing_account_text(email: Seq<char>) -> Seq<char> {
    "指定帳號不存在: "@ + email
}

/// No account is free.
pub open spec fn no_account_text() -> Seq<char> {
    "帳號池無可用帳號（全忙或限流）"@
}

/// The answer broke off.
pub open spec fn read_error_text(detail: Seq<char>) -> Seq<char> {
    "串流讀取錯誤: "@ + detail
}

/// The answer came to its end without any content.
pub open spec fn no_answer_text() -> Seq<char> {
    "上游回應無 answer content（可能只有 reasoning 或全空），視為瞬時錯誤重試"@
}

/// Every attempt has failed.
pub open spec fn exhausted_text(attempts: u32, last_error: Option<Seq<char>>) -> Seq<char> {
    "全部 "@ + decimal(attempts as nat) + " 次嘗試失敗。最後錯誤: "@ + match last_error {
        Some(e) => e,
        None => "未知"@,
    }
}

// ----- steps -----

/// A step without effects.
pub open spec fn waits(run: RunView, request: RequestView) -> StepView {
    StepView { run, effects: Seq::empty(), request }
}

/// A step with more effects before its own.
pub open spec fn first(effects: Seq<EffectView>, step: StepView) -> StepView {
    StepView { effects: effects + step.effects, ..step }
}

/// Whether the accounts come from the pool; else the one account is given.
pub open spec fn pooled(run: RunView) -> bool {
    run.params.fixed_account is None
}

/// Whether the request is for text from text.
pub open spec fn is_chat(run: RunView) -> bool {
    run.params.chat_type@ == "t2t"@
}

/// How many accounts are tried at most: one where the account is given; else as many as the
/// request asks for, or the executor's number.
pub open spec fn attempts_of(config: Executor, params: StreamParams) -> u32 {
    if params.fixed_account is Some {
        1
    } else {
        match params.max_retries {
            Some(n) => n,
            None => config.max_retries,
        }
    }
}

/// What is left to do for the account of the running attempt.
pub open spec fn cleanup_of(run: RunView) -> CleanupView {
    CleanupView {
        delete: match run.doomed {
            Some(chat_id) => Some(
                DeletionView {
                    token: run.account->0.token,
                    chat_id,
                    attempts: run.config.delete_attempts,
                    delay_ms: run.config.delete_delay_ms,
                },
            ),
            None => None,
        },
        release: if pooled(run) {
            Some(run.account->0.email)
        } else {
            None
        },
    }
}

/// The state without an account.
pub open spec fn let_go(run: RunView, phase: Phase) -> RunView {
    RunView {
        phase,
        account: None,
        chat_id: None,
        doomed: None,
        buffer: Seq::empty(),
        answered: false,
        ..run
    }
}

/// The next attempt: an account is asked for; after the last one the run is over.
pub open spec fn begin_attempt(run: RunView) -> StepView {
    if run.attempt < run.attempts {
        waits(
            let_go(run, Phase::Account),
            match run.params.fixed_account {
                Some(email) => RequestView::TokenOf(email@),
                None => RequestView::AcquireAccount {
                    exclude: run.exclude,
                    wait_secs: ACQUIRE_WAIT_SECS,
                },
            },
        )
    } else {
        StepView {
            run: let_go(run, Phase::Finished),
            effects: seq![
                EffectView::Yield(EventView::Error(exhausted_text(run.attempts, run.last_error))),
            ],
            request: RequestView::Nothing,
        }
    }
}

/// The mark that an error leaves on an account.
pub open spec fn mark_effects(email: Seq<char>, err: Seq<char>) -> Seq<EffectView> {
    match mark_for(lower_form(err)) {
        AccountMark::RateLimited => seq![EffectView::MarkRateLimited(email)],
        AccountMark::Invalid(reason) => seq![
            EffectView::MarkInvalid { email, reason, detail: err },
        ],
        AccountMark::Unchanged => Seq::empty(),
    }
}

/// The running attempt has failed: its account is not asked for again, and is cleaned up after.
pub open spec fn attempt_fails(run: RunView, err: Seq<char>) -> StepView {
    let email = run.account->0.email;
    first(
        seq![EffectView::CleanUp(cleanup_of(run))],
        begin_attempt(
            RunView {
                last_error: Some(err),
                exclude: run.exclude.insert(email),
                attempt: (run.attempt + 1) as u32,
                ..run
            },
        ),
    )
}

/// The running attempt has failed with an error that may say something of the account.
pub open spec fn attempt_fails_marked(run: RunView, err: Seq<char>) -> StepView {
    first(mark_effects(run.account->0.email, err), attempt_fails(run, err))
}

/// The run ends with an event, and its account is cleaned up after.
pub open spec fn ends_with(run: RunView, event: EventView) -> StepView {
    StepView {
        run: let_go(run, Phase::Finished),
        effects: seq![EffectView::Yield(event), EffectView::CleanUp(cleanup_of(run))],
        request: RequestView::Nothing,
    }
}

/// The run ends with an error before it has an account.
pub open spec fn gives_up(run: RunView, err: Seq<char>) -> StepView {
    StepView {
        run: let_go(run, Phase::Finished),
        effects: seq![EffectView::Yield(EventView::Error(err))],
        request: RequestView::Nothing,
    }
}

/// A conversation is asked for.
pub open spec fn asks_for_chat(run: RunView) -> StepView {
    waits(
        RunView { phase: Phase::Chat, ..run },
        RequestView::CreateChat {
            token: run.account->0.token,
            model: run.params.model@,
            chat_type: run.params.chat_type@,
        },
    )
}

/// What a request asks the upstream.
pub open spec fn prompt_of(params: StreamParams) -> PromptView {
    PromptView {
        model: params.model@,
        content: params.content@,
        has_custom_tools: params.has_custom_tools,
        files: params.files@,
        chat_type: params.chat_type@,
        image_options: params.image_options,
        thinking_enabled: params.thinking_enabled,
        enable_search: params.enable_search,
    }
}

/// A conversation is there: `owns` where it was made for this run. The client learns of it, and
/// the whole request is put to the upstream.
pub open spec fn has_chat(run: RunView, chat_id: Seq<char>, owns: bool) -> StepView {
    StepView {
        run: RunView {
            phase: Phase::Stream,
            chat_id: Some(chat_id),
            doomed: if owns && run.params.delete_on_close {
                Some(chat_id)
            } else {
                None
            },
            ..run
        },
        effects: seq![
            EffectView::Yield(EventView::Meta { chat_id, email: run.account->0.email }),
        ],
        request: RequestView::StartStream {
            token: run.account->0.token,
            chat_id,
            prompt: prompt_of(run.params),
        },
    }
}

/// An account is there. An existing conversation is gone on with; a text request may take a
/// prepared one; else a new one is made.
pub open spec fn has_account(run: RunView, account: AccountView) -> StepView {
    let held = RunView { account: Some(account), ..run };
    match run.params.existing_chat_id {
        Some(chat_id) => has_chat(held, chat_id@, false),
        None => if run.params.use_prewarmed && is_chat(run) {
            waits(
                RunView { phase: Phase::Prewarmed, ..held },
                RequestView::AcquirePrewarmed {
                    email: account.email,
                    token: account.token,
                    model: run.params.model@,
                },
            )
        } else {
            asks_for_chat(held)
        },
    }
}

/// The next complete message is read; where there is none, more bytes are asked for.
pub open spec fn next_message(run: RunView) -> StepView {
    match first_end(run.buffer) {
        Some(p) => waits(
            RunView { phase: Phase::Message, buffer: run.buffer.skip(p + 2), ..run },
            RequestView::Parse(text_of(run.buffer.take(p))),
        ),
        None => waits(RunView { phase: Phase::Chunk, ..run }, RequestView::ReadChunk),
    }
}

/// The answer has come to its end. A text request without any answer counts as failed.
pub open spec fn answer_ends(run: RunView) -> StepView {
    if is_chat(run) && !run.answered {
        attempt_fails(run, no_answer_text())
    } else if pooled(run) {
        first(
            seq![EffectView::MarkSuccess(run.account->0.email)],
            ends_with(run, EventView::Done),
        )
    } else {
        ends_with(run, EventView::Done)
    }
}

/// The announcement of another attempt, where one is left.
pub open spec fn retry_notice(run: RunView) -> Seq<EffectView> {
    if run.attempt + 1 < run.attempts {
        seq![EffectView::Yield(EventView::Retrying)]
    } else {
        Seq::empty()
    }
}

/// The answer has failed. Before any content another account is tried; after content only where
/// that is likely to help, and where another attempt follows the client is told to forget what
/// came.
pub open spec fn answer_fails(run: RunView, err: Seq<char>) -> StepView {
    if !run.answered {
        attempt_fails_marked(run, err)
    } else if swap_helps(lower_form(err)) {
        first(retry_notice(run), attempt_fails_marked(run, err))
    } else {
        ends_with(run, EventView::Error(err))
    }
}

/// The pieces of an answer, as the client sees them.
pub open spec fn delta_effects(deltas: Seq<DeltaView>) -> Seq<EffectView> {
    Seq::new(deltas.len(), |i: int| EffectView::Yield(EventView::Delta(deltas[i])))
}

/// Whether one of the pieces is of the answer itself.
pub open spec fn some_answer(deltas: Seq<DeltaView>) -> bool {
    exists|i: int| 0 <= i < deltas.len() && (#[trigger] deltas[i]).has_answer_content
}

/// A message has been read.
pub open spec fn has_message(
    run: RunView,
    error: Option<Seq<char>>,
    deltas: Seq<DeltaView>,
) -> StepView {
    match error {
        Some(err) => answer_fails(run, err),
        None => {
            let heard = RunView { answered: run.answered || some_answer(deltas), ..run };
            first(
                delta_effects(deltas),
                if run.phase == Phase::LastMessage {
                    answer_ends(heard)
                } else {
                    next_message(heard)
                },
            )
        },
    }
}

/// No more bytes come: what is left over is read as the last message.
pub open spec fn bytes_end(run: RunView) -> StepView {
    if run.buffer.len() > 0 {
        waits(
            RunView { phase: Phase::LastMessage, buffer: Seq::empty(), ..run },
            RequestView::Parse(text_of(run.buffer)),
        )
    } else {
        answer_ends(run)
    }
}

/// The start of a run.
pub open spec fn start(config: Executor, params: StreamParams) -> StepView {
    begin_attempt(
        RunView {
            config,
            params,
            attempts: attempts_of(config, params),
            attempt: 0,
            exclude: name_set(params.exclude@),
            last_error: None,
            phase: Phase::Account,
            account: None,
            chat_id: None,
            doomed: None,
            buffer: Seq::empty(),
            answered: false,
        },
    )
}

/// The reply is one to what the run waits for.
pub open spec fn fits(run: RunView, reply: ReplyView) -> bool {
    match run.phase {
        Phase::Account => if pooled(run) {
            reply is Account
        } else {
            reply is Token
        },
        Phase::Prewarmed => reply is Prewarmed,
        Phase::Chat => reply is Chat,
        Phase::Stream => reply is Started,
        Phase::Chunk => reply is Chunk || reply is ReadFailed || reply is EndOfStream,
        Phase::Message => reply is Parsed,
        Phase::LastMessage => reply is Parsed,
        Phase::Finished => false,
    }
}

/// What happens after a reply.
pub open spec fn next(run: RunView, reply: ReplyView) -> StepView {
    match reply {
        ReplyView::Token(token) => {
            let email = opt_text(run.params.fixed_account)->0;
            match token {
                Some(token) => has_account(run, AccountView { email, token }),
                None => gives_up(run, missing_account_text(email)),
            }
        },
        ReplyView::Account(account) => match account {
            Some(account) => has_account(run, account),
            None => gives_up(
                run,
                match run.last_error {
                    Some(err) => err,
                    None => no_account_text(),
                },
            ),
        },
        ReplyView::Prewarmed(chat_id) => match chat_id {
            Some(chat_id) => has_chat(run, chat_id, true),
            None => asks_for_chat(run),
        },
        ReplyView::Chat(made) => match made {
            Ok(chat_id) => has_chat(run, chat_id, true),
            Err(err) => attempt_fails_marked(run, err),
        },
        ReplyView::Started(started) => match started {
            Ok(()) => waits(
                RunView { phase: Phase::Chunk, buffer: Seq::empty(), answered: false, ..run },
                RequestView::ReadChunk,
            ),
            Err(err) => attempt_fails_marked(run, err),
        },
        ReplyView::Chunk(bytes) => next_message(RunView { buffer: run.buffer + bytes, ..run }),
        ReplyView::ReadFailed(detail) => answer_fails(run, read_error_text(detail)),
        ReplyView::EndOfStream => bytes_end(run),
        ReplyView::Parsed { error, deltas } => has_message(run, error, deltas),
    }
}

/// What holds of every state of a run: an account is held from the moment it is found until the
/// attempt ends, and no more attempts begin than are allowed.
pub open spec fn well_formed(run: RunView) -> bool {
    &&& run.attempt <= run.attempts
    &&& run.phase != Phase::Finished ==> run.attempt < run.attempts
    &&& run.account is Some <==> (run.phase != Phase::Account && run.phase != Phase::Finished)
    &&& run.doomed is Some ==> run.doomed == run.chat_id
    &&& run.account is None ==> run.chat_id is None && run.doomed is None && run.buffer.len() == 0
        && !run.answered
    &&& run.chat_id is Some <==> (run.phase == Phase::Stream || run.phase == Phase::Chunk
        || run.phase == Phase::Message || run.phase == Phase::LastMessage)
}

/// What follows the end of an attempt is a state that a run can be in.
proof fn attempt_ends_well(run: RunView, err: Seq<char>)
    requires
        well_formed(run),
        run.account is Some,
    ensures
        well_formed(attempt_fails(run, err).run),
        well_formed(attempt_fails_marked(run, err).run),
        well_formed(answer_ends(run).run),
        well_formed(answer_fails(run, err).run),
{
    let later = RunView {
        last_error: Some(err),
        exclude: run.exclude.insert(run.account->0.email),
        attempt: (run.attempt + 1) as u32,
        ..run
    };
    assert(well_formed(begin_attempt(later).run));
    let silent = RunView { last_error: Some(no_answer_text()), ..later };
    assert(well_formed(begin_attempt(silent).run));
    assert(well_formed(let_go(run, Phase::Finished)));
}

/// A state that a run can be in is followed by one that it can be in.
pub proof fn well_formed_stays(run: RunView, reply: ReplyView)
    requires
        well_formed(run),
        fits(run, reply),
    ensures
        well_formed(next(run, reply).run),
{
    match reply {
        ReplyView::Chat(Err(err)) => {
            attempt_ends_well(run, err);
        },
        ReplyView::Started(Err(err)) => {
            attempt_ends_well(run, err);
        },
        ReplyView::ReadFailed(detail) => {
            attempt_ends_well(run, read_error_text(detail));
        },
        ReplyView::EndOfStream => {
            attempt_ends_well(run, no_answer_text());
        },
        ReplyView::Parsed { error, deltas } => match error {
            Some(err) => {
                attempt_ends_well(run, err);
            },
            None => {
                let heard = RunView { answered: run.answered || some_answer(deltas), ..run };
                attempt_ends_well(heard, no_answer_text());
                assert(well_formed(next_message(heard).run) || run.phase == Phase::LastMessage);
            },
        },
        _ => {},
    }
}

// ----- what is to be done, by kind -----

/// What `pick` finds in each part of a stretch, in order.
pub open spec fn picked<T>(effects: Seq<EffectView>, pick: spec_fn(EffectView) -> Option<T>) -> Seq<
    T,
>
    decreases effects.len(),
{
    if effects.len() == 0 {
        Seq::empty()
    } else {
        match pick(effects.last()) {
            Some(found) => picked(effects.drop_last(), pick).push(found),
            None => picked(effects.drop_last(), pick),
        }
    }
}

/// What is found in two stretches is what is found in the first, and what is found in the second
/// after it.
pub proof fn picked_add<T>(
    a: Seq<EffectView>,
    b: Seq<EffectView>,
    pick: spec_fn(EffectView) -> Option<T>,
)
    ensures
        picked(a + b, pick) == picked(a, pick) + picked(b, pick),
    decreases b.len(),
{
    if b.len() == 0 {
        assert(a + b =~= a);
        assert(picked(a, pick) + picked(b, pick) =~= picked(a, pick));
    } else {
        picked_add(a, b.drop_last(), pick);
        assert((a + b).drop_last() =~= a + b.drop_last());
        assert((a + b).last() == b.last());
        assert(picked(a + b, pick) =~= picked(a, pick) + picked(b, pick));
    }
}

/// What is found in a single part.
pub proof fn picked_one<T>(effect: EffectView, pick: spec_fn(EffectView) -> Option<T>)
    ensures
        picked(seq![effect], pick) == (match pick(effect) {
            Some(found) => seq![found],
            None => Seq::<T>::empty(),
        }),
{
    let one = seq![effect];
    assert(one.drop_last() =~= Seq::<EffectView>::empty());
    assert(picked(one.drop_last(), pick) =~= Seq::<T>::empty());
    assert(picked(one, pick) =~= match pick(effect) {
        Some(found) => seq![found],
        None => Seq::<T>::empty(),
    });
}

/// Finds the cleanups.
pub open spec fn as_cleanup() -> spec_fn(EffectView) -> Option<CleanupView> {
    |effect: EffectView|
        match effect {
            EffectView::CleanUp(cleanup) => Some(cleanup),
            _ => None,
        }
}

/// The cleanups among what is to be done.
pub open spec fn cleanups_in(effects: Seq<EffectView>) -> Seq<CleanupView> {
    picked(effects, as_cleanup())
}

/// The cleanup of the account that is held, if one is.
pub open spec fn held_cleanup(run: RunView) -> Seq<CleanupView> {
    if run.account is Some {
        seq![cleanup_of(run)]
    } else {
        Seq::empty()
    }
}

/// The cleanups of a stretch, by its first part.
pub proof fn cleanups_from_front(first: EffectView, rest: Seq<EffectView>)
    ensures
        cleanups_in(seq![first] + rest) == (match first {
            EffectView::CleanUp(cleanup) => seq![cleanup] + cleanups_in(rest),
            _ => cleanups_in(rest),
        }),
{
    picked_add(seq![first], rest, as_cleanup());
    picked_one(first, as_cleanup());
    assert(Seq::<CleanupView>::empty() + cleanups_in(rest) =~= cleanups_in(rest));
}

} // verus!
