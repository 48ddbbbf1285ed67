//! What each step of a run does, told by what the run was asked for and what it was given.
use vstd::prelude::*;
use crate::executor::{Executor, Phase, StreamParams};
use crate::framing::{first_end, text_of};
use crate::retry::{lower_form, InvalidReason};
use crate::stream_laws::{after, every_state_is_well_formed, in_turn, taken};
use crate::stream_model::{
    answer_ends, answer_fails, as_cleanup, attempt_fails, attempt_fails_marked, cleanups_in, fits,
    held_cleanup, next, next_message, picked_add, picked_one, start, well_formed, AccountView,
    CleanupView, DeletionView, DeltaView, EffectView, EventView, PromptView, ReplyView, RequestView,
    RunView, StepView,
};
use crate::text::{contains_text, decimal};

verus! {

// ----- what is promised -----

/// A lower-case error text names a limit.
pub open spec fn limit_is_named(lower: Seq<char>) -> bool {
    contains_text(lower, "429"@) || contains_text(lower, "rate limit"@) || contains_text(
        lower,
        "ratelimited"@,
    ) || contains_text(lower, "too many"@) || contains_text(lower, "upper limit"@)
        || contains_text(lower, "today's usage"@)
}

/// The mark that an error owes the account that met it.
pub open spec fn mark_owed(email: Seq<char>, err: Seq<char>) -> Seq<EffectView> {
    let lower = lower_form(err);
    if limit_is_named(lower) {
        seq![EffectView::MarkRateLimited(email)]
    } else if contains_text(lower, "unauthorized"@) || contains_text(lower, "401"@)
        || contains_text(lower, "403"@) {
        seq![
            EffectView::MarkInvalid {
                email,
                reason: if contains_text(lower, "activation"@) || contains_text(
                    lower,
                    "pending"@,
                ) {
                    InvalidReason::PendingActivation
                } else {
                    InvalidReason::AuthError
                },
                detail: err,
            },
        ]
    } else {
        Seq::empty()
    }
}

/// A lower-case error text that another account gets around.
pub open spec fn another_account_helps(lower: Seq<char>) -> bool {
    limit_is_named(lower) || contains_text(lower, "quota exceeded"@) || contains_text(
        lower,
        "allocated quota"@,
    ) || contains_text(lower, "token-limit"@) || contains_text(lower, "internal_error"@)
        || contains_text(lower, "internal error"@) || contains_text(lower, "service unavailable"@)
        || contains_text(lower, "503"@) || contains_text(lower, "502"@) || contains_text(
        lower,
        "504"@,
    )
}

/// The cleanup that is owed for the account that a run holds: the conversation that is to go is
/// deleted with the account's token, and an account of the pool is given back.
pub open spec fn cleanup_owed(run: RunView) -> EffectView {
    EffectView::CleanUp(
        CleanupView {
            delete: if run.doomed is Some {
                Some(
                    DeletionView {
                        token: run.account->0.token,
                        chat_id: run.doomed->0,
                        attempts: run.config.delete_attempts,
                        delay_ms: run.config.delete_delay_ms,
                    },
                )
            } else {
                None
            },
            release: if run.params.fixed_account is None {
                Some(run.account->0.email)
            } else {
                None
            },
        },
    )
}

/// An attempt is left after the running one.
pub open spec fn more_attempts(run: RunView) -> bool {
    run.attempt + 1 < run.attempts
}

/// What the client is told where the last attempt has failed, and nothing before that.
pub open spec fn last_word(run: RunView, err: Seq<char>) -> Seq<EffectView> {
    if more_attempts(run) {
        Seq::empty()
    } else {
        seq![
            EffectView::Yield(
                EventView::Error(
                    "全部 "@ + decimal(run.attempts as nat) + " 次嘗試失敗。最後錯誤: "@ + err,
                ),
            ),
        ]
    }
}

/// A run after its attempt has failed: the account is given up and not asked for again, the error
/// is remembered, and another account is asked for where an attempt is left.
pub open spec fn moved_on(run: RunView, err: Seq<char>, step: StepView) -> bool {
    let exclude = run.exclude.insert(run.account->0.email);
    &&& step.run.account is None
    &&& step.run.chat_id is None
    &&& step.run.doomed is None
    &&& step.run.buffer.len() == 0
    &&& !step.run.answered
    &&& step.run.attempt == run.attempt + 1
    &&& step.run.attempts == run.attempts
    &&& step.run.last_error == Some(err)
    &&& step.run.exclude == exclude
    &&& step.run.params == run.params
    &&& step.run.config == run.config
    &&& more_attempts(run) ==> step.run.phase == Phase::Account && step.request == (
    if run.params.fixed_account is None {
        RequestView::AcquireAccount { exclude, wait_secs: 60 }
    } else {
        RequestView::TokenOf(run.params.fixed_account->0@)
    })
    &&& !more_attempts(run) ==> step.run.phase == Phase::Finished && step.request
        == RequestView::Nothing
}

/// A run that is over and holds nothing.
pub open spec fn is_over(run: RunView, step: StepView) -> bool {
    &&& step.run.phase == Phase::Finished
    &&& step.request == RequestView::Nothing
    &&& step.run.account is None
    &&& step.run.doomed is None
}

/// The request says the same as what the client asked.
pub open spec fn carries(prompt: PromptView, params: StreamParams) -> bool {
    &&& prompt.model == params.model@
    &&& prompt.content == params.content@
    &&& prompt.has_custom_tools == params.has_custom_tools
    &&& prompt.files == params.files@
    &&& prompt.chat_type == params.chat_type@
    &&& prompt.image_options == params.image_options
    &&& prompt.thinking_enabled == params.thinking_enabled
    &&& prompt.enable_search == params.enable_search
}

/// The client hears of a conversation, and the upstream is asked in it.
pub open spec fn asks_upstream(
    run: RunView,
    account: AccountView,
    chat_id: Seq<char>,
    step: StepView,
) -> bool {
    &&& step.effects == seq![
        EffectView::Yield(EventView::Meta { chat_id, email: account.email }),
    ]
    &&& step.request matches RequestView::StartStream { token, chat_id: asked, prompt } && token
        == account.token && asked == chat_id && carries(prompt, run.params)
    &&& step.run.phase == Phase::Stream
    &&& step.run.account == Some(account)
    &&& step.run.chat_id == Some(chat_id)
}

/// A new conversation is asked for.
pub open spec fn asks_for_new_chat(run: RunView, account: AccountView, step: StepView) -> bool {
    &&& step.effects.len() == 0
    &&& step.request == (RequestView::CreateChat {
        token: account.token,
        model: run.params.model@,
        chat_type: run.params.chat_type@,
    })
    &&& step.run.phase == Phase::Chat
    &&& step.run.account == Some(account)
}

// ----- laws: the start -----

/// A run begins with no account and no error. It may try as many accounts as the request says, or
/// the executor where the request does not; one where the account is given. Then it asks for the
/// token of that account, or for an account of the pool other than those that the request
/// excludes, and waits for it up to 60 seconds; where it may try none it ends with an error.
pub proof fn start_asks_for_an_account(config: Executor, params: StreamParams)
    ensures
        ({
            let step = start(config, params);
            let allowed: u32 = if params.fixed_account is Some {
                1
            } else if params.max_retries is Some {
                params.max_retries->0
            } else {
                config.max_retries
            };
            &&& step.run.attempts == allowed
            &&& step.run.attempt == 0
            &&& step.run.last_error is None
            &&& step.run.account is None
            &&& step.run.doomed is None
            &&& step.run.params == params
            &&& step.run.config == config
            &&& forall|name: Seq<char>|
                step.run.exclude.contains(name) <==> exists|i: int|
                    0 <= i < params.exclude@.len() && (#[trigger] params.exclude@[i])@ == name
            &&& allowed > 0 ==> step.effects.len() == 0 && step.run.phase == Phase::Account
            &&& allowed > 0 && params.fixed_account is Some ==> step.request
                == RequestView::TokenOf(params.fixed_account->0@)
            &&& allowed > 0 && params.fixed_account is None ==> step.request
                == (RequestView::AcquireAccount { exclude: step.run.exclude, wait_secs: 60 })
            &&& allowed == 0 ==> step.run.phase == Phase::Finished && step.request
                == RequestView::Nothing && step.effects == seq![
                EffectView::Yield(
                    EventView::Error(
                        "全部 "@ + decimal(0) + " 次嘗試失敗。最後錯誤: "@ + "未知"@,
                    ),
                ),
            ]
        }),
{
}

// ----- laws: accounts and conversations -----

/// Where an account comes, a conversation of the request is gone on with; a text request that
/// allows it asks for a prepared one; any other asks for a new one.
pub proof fn account_leads_to_a_conversation(run: RunView, reply: ReplyView, account: AccountView)
    requires
        well_formed(run),
        fits(run, reply),
        match reply {
            ReplyView::Token(Some(token)) => account.token == token && account.email
                == run.params.fixed_account->0@,
            ReplyView::Account(Some(given)) => account == given,
            _ => false,
        },
    ensures
        ({
            let step = next(run, reply);
            &&& run.params.existing_chat_id matches Some(chat_id) ==> asks_upstream(
                run,
                account,
                chat_id@,
                step,
            ) && step.run.doomed is None
            &&& run.params.existing_chat_id is None && run.params.use_prewarmed
                && run.params.chat_type@ == "t2t"@ ==> step.effects.len() == 0 && step.run.account
                == Some(account) && step.run.phase == Phase::Prewarmed && step.request == (
            RequestView::AcquirePrewarmed {
                email: account.email,
                token: account.token,
                model: run.params.model@,
            })
            &&& run.params.existing_chat_id is None && !(run.params.use_prewarmed
                && run.params.chat_type@ == "t2t"@) ==> asks_for_new_chat(run, account, step)
        }),
{
}

/// Where no account comes the run ends with an error: that the given account is missing, or the
/// last real error, or that no account is free.
pub proof fn no_account_ends_the_run(run: RunView, reply: ReplyView)
    requires
        well_formed(run),
        fits(run, reply),
        reply == ReplyView::Token(None) || reply == ReplyView::Account(None),
    ensures
        is_over(run, next(run, reply)),
        reply == ReplyView::Token(None) ==> next(run, reply).effects == seq![
            EffectView::Yield(
                EventView::Error("指定帳號不存在: "@ + run.params.fixed_account->0@),
            ),
        ],
        reply == ReplyView::Account(None) && run.last_error is Some ==> next(run, reply).effects
            == seq![EffectView::Yield(EventView::Error(run.last_error->0))],
        reply == ReplyView::Account(None) && run.last_error is None ==> next(run, reply).effects
            == seq![
            EffectView::Yield(EventView::Error("帳號池無可用帳號（全忙或限流）"@)),
        ],
{
}

/// A conversation that was made, or prepared, is used at once, and is to be deleted at the end
/// exactly where the request wants that; where none was prepared a new one is asked for.
pub proof fn conversation_is_used(run: RunView, reply: ReplyView)
    requires
        well_formed(run),
        fits(run, reply),
    ensures
        reply matches ReplyView::Prewarmed(Some(chat_id)) ==> asks_upstream(
            run,
            run.account->0,
            chat_id,
            next(run, reply),
        ) && next(run, reply).run.doomed == (if run.params.delete_on_close {
            Some(chat_id)
        } else {
            None
        }),
        reply matches ReplyView::Chat(Ok(chat_id)) ==> asks_upstream(
            run,
            run.account->0,
            chat_id,
            next(run, reply),
        ) && next(run, reply).run.doomed == (if run.params.delete_on_close {
            Some(chat_id)
        } else {
            None
        }),
        reply == ReplyView::Prewarmed(None) ==> asks_for_new_chat(
            run,
            run.account->0,
            next(run, reply),
        ),
        reply matches ReplyView::Started(Ok(_)) ==> {
            let step = next(run, reply);
            &&& step.effects.len() == 0
            &&& step.request == RequestView::ReadChunk
            &&& step.run.phase == Phase::Chunk
            &&& step.run.buffer.len() == 0
            &&& !step.run.answered
            &&& step.run.account == run.account
            &&& step.run.doomed == run.doomed
        },
{
}

/// Whatever the request is for, every time that the upstream is asked it is told the model, the
/// content, the files and the options of the request, each as the request has it.
pub proof fn upstream_is_told_the_request(
    config: Executor,
    params: StreamParams,
    replies: Seq<ReplyView>,
)
    requires
        in_turn(config, params, replies),
    ensures
        after(config, params, replies).request matches RequestView::StartStream {
            token,
            chat_id,
            prompt,
        } ==> {
            &&& prompt.model == params.model@
            &&& prompt.content == params.content@
            &&& prompt.has_custom_tools == params.has_custom_tools
            &&& prompt.files == params.files@
            &&& prompt.chat_type == params.chat_type@
            &&& prompt.image_options == params.image_options
            &&& prompt.thinking_enabled == params.thinking_enabled
            &&& prompt.enable_search == params.enable_search
        },
{
    if replies.len() > 0 {
        let earlier = replies.drop_last();
        every_state_is_well_formed(config, params, earlier);
        step_tells_the_request(after(config, params, earlier).run, replies.last());
    }
}

/// The same of one step.
proof fn step_tells_the_request(run: RunView, reply: ReplyView)
    requires
        well_formed(run),
        fits(run, reply),
    ensures
        taken(run, reply).request matches RequestView::StartStream { token, chat_id, prompt }
            ==> carries(prompt, run.params),
{
    reveal(taken);
    match reply {
        ReplyView::Parsed { error: None, deltas } => {},
        _ => {},
    }
}

// ----- laws: failures -----

/// The error that a reply reports for the running attempt.
pub open spec fn error_reported(reply: ReplyView) -> Option<Seq<char>> {
    match reply {
        ReplyView::Chat(Err(err)) => Some(err),
        ReplyView::Started(Err(err)) => Some(err),
        ReplyView::ReadFailed(detail) => Some("串流讀取錯誤: "@ + detail),
        ReplyView::Parsed { error: Some(err), deltas: _ } => Some(err),
        _ => None,
    }
}

/// The words of this file are those that errors are judged by.
proof fn words_agree(err: Seq<char>, email: Seq<char>)
    ensures
        crate::retry::swap_helps(lower_form(err)) == another_account_helps(lower_form(err)),
        crate::stream_model::mark_effects(email, err) == mark_owed(email, err),
{
    assert(crate::stream_model::mark_effects(email, err) =~= mark_owed(email, err));
}

/// An attempt that fails with an error.
proof fn failure_is(run: RunView, err: Seq<char>)
    requires
        well_formed(run),
        run.account is Some,
    ensures
        moved_on(run, err, attempt_fails(run, err)),
        attempt_fails(run, err).effects == seq![cleanup_owed(run)] + last_word(run, err),
        moved_on(run, err, attempt_fails_marked(run, err)),
        attempt_fails_marked(run, err).effects == mark_owed(run.account->0.email, err) + seq![
            cleanup_owed(run),
        ] + last_word(run, err),
{
    words_agree(err, run.account->0.email);
    assert(attempt_fails(run, err).effects =~= seq![cleanup_owed(run)] + last_word(run, err));
    let mark = mark_owed(run.account->0.email, err);
    assert(attempt_fails_marked(run, err).effects =~= mark + seq![cleanup_owed(run)] + last_word(
        run,
        err,
    ));
}

/// An error before any content of the answer has come, whatever it is: the account gets the mark
/// that the error owes it, it is cleaned up after, and another one is tried; after the last
/// attempt the client is told how many there were, and the error.
pub proof fn error_without_content_moves_on(run: RunView, reply: ReplyView, err: Seq<char>)
    requires
        well_formed(run),
        fits(run, reply),
        error_reported(reply) == Some(err),
        reply is Chat || reply is Started || !run.answered,
    ensures
        moved_on(run, err, next(run, reply)),
        next(run, reply).effects == mark_owed(run.account->0.email, err) + seq![cleanup_owed(run)]
            + last_word(run, err),
{
    failure_is(run, err);
}

/// An error after content has come: where another account gets around it the same happens, after
/// the client has been told to forget what came if another attempt follows; else the client gets
/// the error itself, and the run is over.
pub proof fn error_with_content_is_judged(run: RunView, reply: ReplyView, err: Seq<char>)
    requires
        well_formed(run),
        fits(run, reply),
        error_reported(reply) == Some(err),
        reply is ReadFailed || reply is Parsed,
        run.answered,
    ensures
        another_account_helps(lower_form(err)) ==> moved_on(run, err, next(run, reply)) && next(
            run,
            reply,
        ).effects == (if more_attempts(run) {
            seq![EffectView::Yield(EventView::Retrying)]
        } else {
            Seq::empty()
        }) + mark_owed(run.account->0.email, err) + seq![cleanup_owed(run)] + last_word(run, err),
        !another_account_helps(lower_form(err)) ==> is_over(run, next(run, reply)) && next(
            run,
            reply,
        ).effects == seq![EffectView::Yield(EventView::Error(err)), cleanup_owed(run)],
{
    failure_is(run, err);
    words_agree(err, run.account->0.email);
    let notice = if more_attempts(run) {
        seq![EffectView::Yield(EventView::Retrying)]
    } else {
        Seq::empty()
    };
    let rest = mark_owed(run.account->0.email, err) + seq![cleanup_owed(run)] + last_word(run, err);
    if another_account_helps(lower_form(err)) {
        assert(next(run, reply).effects =~= notice + rest);
        assert(notice + rest =~= notice + mark_owed(run.account->0.email, err) + seq![
            cleanup_owed(run),
        ] + last_word(run, err));
    }
}

// ----- laws: answers -----

/// Whether a piece of the answer itself is among the pieces.
pub open spec fn some_content(deltas: Seq<DeltaView>) -> bool {
    exists|i: int| 0 <= i < deltas.len() && (#[trigger] deltas[i]).has_answer_content
}

/// What the end of an answer does: without content a text request counts as failed, with an error
/// of its own and no mark; else the request is done, and an account of the pool is marked as
/// successful.
pub open spec fn ends_answer(
    run: RunView,
    content: bool,
    effects: Seq<EffectView>,
    step: StepView,
) -> bool {
    let nothing =
        "上游回應無 answer content（可能只有 reasoning 或全空），視為瞬時錯誤重試"@;
    if run.params.chat_type@ == "t2t"@ && !content {
        moved_on(run, nothing, step) && effects == seq![cleanup_owed(run)] + last_word(run, nothing)
    } else {
        is_over(run, step) && effects == (if run.params.fixed_account is None {
            seq![EffectView::MarkSuccess(run.account->0.email)]
        } else {
            Seq::empty()
        }) + seq![EffectView::Yield(EventView::Done), cleanup_owed(run)]
    }
}

proof fn answer_end_is(run: RunView)
    requires
        well_formed(run),
        run.account is Some,
    ensures
        ends_answer(run, run.answered, answer_ends(run).effects, answer_ends(run)),
{
    let nothing =
        "上游回應無 answer content（可能只有 reasoning 或全空），視為瞬時錯誤重試"@;
    failure_is(run, nothing);
    if !(run.params.chat_type@ == "t2t"@ && !run.answered) {
        let mark = if run.params.fixed_account is None {
            seq![EffectView::MarkSuccess(run.account->0.email)]
        } else {
            Seq::empty()
        };
        assert(answer_ends(run).effects =~= mark + seq![
            EffectView::Yield(EventView::Done),
            cleanup_owed(run),
        ]);
    }
}

/// Where no more bytes come, bytes that are left over are read as the last message; where none are
/// the answer ends.
pub proof fn end_of_bytes_ends_the_answer(run: RunView)
    requires
        well_formed(run),
        fits(run, ReplyView::EndOfStream),
    ensures
        ({
            let step = next(run, ReplyView::EndOfStream);
            &&& run.buffer.len() == 0 ==> ends_answer(run, run.answered, step.effects, step)
            &&& run.buffer.len() > 0 ==> step.effects.len() == 0 && step.request
                == RequestView::Parse(text_of(run.buffer)) && step.run.phase == Phase::LastMessage
                && step.run.buffer.len() == 0 && step.run.account == run.account && step.run.doomed
                == run.doomed && step.run.answered == run.answered
        }),
{
    answer_end_is(run);
}

/// What is read next from some bytes: the text up to the first end, after which reading goes on;
/// where there is no end, more bytes are asked for.
pub open spec fn reads_next(run: RunView, bytes: Seq<u8>, content: bool, step: StepView) -> bool {
    &&& first_end(bytes) matches Some(p) ==> step.request == RequestView::Parse(
        text_of(bytes.take(p)),
    ) && step.run.buffer == bytes.skip(p + 2) && step.run.phase == Phase::Message
    &&& first_end(bytes) is None ==> step.request == RequestView::ReadChunk && step.run.buffer
        == bytes && step.run.phase == Phase::Chunk
    &&& step.run.account == run.account
    &&& step.run.doomed == run.doomed
    &&& step.run.answered == content
}

/// Bytes that come are added to those that wait, and the next message is read.
pub proof fn bytes_are_added(run: RunView, bytes: Seq<u8>)
    requires
        well_formed(run),
        fits(run, ReplyView::Chunk(bytes)),
    ensures
        next(run, ReplyView::Chunk(bytes)).effects.len() == 0,
        reads_next(run, run.buffer + bytes, run.answered, next(run, ReplyView::Chunk(bytes))),
{
}

/// The pieces of a message without an error go to the client, one by one and in order; after them
/// the next message is read, or the answer ends where it was the last one. Content counts from
/// then on.
pub proof fn pieces_go_to_the_client(run: RunView, deltas: Seq<DeltaView>)
    requires
        well_formed(run),
        fits(run, ReplyView::Parsed { error: None, deltas }),
    ensures
        ({
            let step = next(run, ReplyView::Parsed { error: None, deltas });
            let content = run.answered || some_content(deltas);
            let rest = step.effects.skip(deltas.len() as int);
            &&& step.effects.len() >= deltas.len()
            &&& forall|i: int|
                0 <= i < deltas.len() ==> #[trigger] step.effects[i] == EffectView::Yield(
                    EventView::Delta(deltas[i]),
                )
            &&& run.phase == Phase::Message ==> rest.len() == 0 && reads_next(
                run,
                run.buffer,
                content,
                step,
            )
            &&& run.phase == Phase::LastMessage ==> ends_answer(run, content, rest, step)
        }),
{
    let step = next(run, ReplyView::Parsed { error: None, deltas });
    let content = run.answered || some_content(deltas);
    let heard = RunView { answered: content, ..run };
    let shown = crate::stream_model::delta_effects(deltas);
    if run.phase == Phase::LastMessage {
        answer_end_is(heard);
        assert(step.effects == shown + answer_ends(heard).effects);
        assert(step.effects.skip(deltas.len() as int) =~= answer_ends(heard).effects);
    } else {
        assert(step.effects == shown + next_message(heard).effects);
        assert(step.effects.skip(deltas.len() as int) =~= Seq::<EffectView>::empty());
    }
}

// ----- laws: requests, replies and cleanups -----

/// While an attempt goes on, what the run counts and remembers stays as it is.
pub proof fn going_on_changes_no_count(run: RunView, reply: ReplyView)
    requires
        well_formed(run),
        fits(run, reply),
        error_reported(reply) is None,
        next(run, reply).run.account is Some,
    ensures
        ({
            let later = next(run, reply).run;
            &&& later.config == run.config
            &&& later.params == run.params
            &&& later.attempts == run.attempts
            &&& later.attempt == run.attempt
            &&& later.exclude == run.exclude
            &&& later.last_error == run.last_error
        }),
{
    match reply {
        ReplyView::Parsed { error, deltas } => {
            let heard = RunView {
                answered: run.answered || crate::stream_model::some_answer(deltas),
                ..run
            };
            answer_end_is(heard);
        },
        ReplyView::EndOfStream => {
            answer_end_is(run);
        },
        _ => {},
    }
}

/// A reply is one to what was asked, and to nothing else.
pub open spec fn answers(request: RequestView, reply: ReplyView) -> bool {
    match request {
        RequestView::TokenOf(_) => reply is Token,
        RequestView::AcquireAccount { exclude: _, wait_secs: _ } => reply is Account,
        RequestView::AcquirePrewarmed { email: _, token: _, model: _ } => reply is Prewarmed,
        RequestView::CreateChat { token: _, model: _, chat_type: _ } => reply is Chat,
        RequestView::StartStream { token: _, chat_id: _, prompt: _ } => reply is Started,
        RequestView::ReadChunk => reply is Chunk || reply is ReadFailed || reply is EndOfStream,
        RequestView::Parse(_) => reply is Parsed,
        RequestView::Nothing => false,
    }
}

/// A run takes exactly the replies to what it asked last.
pub proof fn run_takes_the_replies_it_asked_for(
    config: Executor,
    params: StreamParams,
    replies: Seq<ReplyView>,
    reply: ReplyView,
)
    requires
        in_turn(config, params, replies),
    ensures
        fits(after(config, params, replies).run, reply) <==> answers(
            after(config, params, replies).request,
            reply,
        ),
{
    if replies.len() > 0 {
        let earlier = replies.drop_last();
        every_state_is_well_formed(config, params, earlier);
        step_fits_its_request(after(config, params, earlier).run, replies.last(), reply);
    }
}

proof fn failing_fits(run: RunView, err: Seq<char>, reply: ReplyView)
    requires
        well_formed(run),
        run.account is Some,
    ensures
        fits(attempt_fails_marked(run, err).run, reply) <==> answers(
            attempt_fails_marked(run, err).request,
            reply,
        ),
        fits(answer_fails(run, err).run, reply) <==> answers(answer_fails(run, err).request, reply),
        fits(answer_ends(run).run, reply) <==> answers(answer_ends(run).request, reply),
{
    let nothing = crate::stream_model::no_answer_text();
    failure_is(run, err);
    failure_is(run, nothing);
}

proof fn step_fits_its_request(run: RunView, reply: ReplyView, then_reply: ReplyView)
    requires
        well_formed(run),
        fits(run, reply),
    ensures
        fits(taken(run, reply).run, then_reply) <==> answers(taken(run, reply).request, then_reply),
{
    reveal(taken);
    match reply {
        ReplyView::Chat(Err(err)) => {
            failing_fits(run, err, then_reply);
        },
        ReplyView::Started(Err(err)) => {
            failing_fits(run, err, then_reply);
        },
        ReplyView::ReadFailed(detail) => {
            failing_fits(run, crate::stream_model::read_error_text(detail), then_reply);
        },
        ReplyView::EndOfStream => {
            failing_fits(run, Seq::empty(), then_reply);
        },
        ReplyView::Parsed { error: Some(err), deltas } => {
            failing_fits(run, err, then_reply);
        },
        ReplyView::Parsed { error: None, deltas } => {
            let heard = RunView {
                answered: run.answered || crate::stream_model::some_answer(deltas),
                ..run
            };
            failing_fits(heard, Seq::empty(), then_reply);
        },
        _ => {},
    }
}

/// The cleanups of a stretch are the cleanups in it: one after the other, and nothing else counts.
pub proof fn cleanups_are_picked_out(
    before: Seq<EffectView>,
    effect: EffectView,
    rest: Seq<EffectView>,
)
    ensures
        cleanups_in(Seq::<EffectView>::empty()).len() == 0,
        effect matches EffectView::CleanUp(cleanup) ==> cleanups_in(before + seq![effect] + rest)
            == cleanups_in(before) + seq![cleanup] + cleanups_in(rest),
        !(effect is CleanUp) ==> cleanups_in(before + seq![effect] + rest) == cleanups_in(before)
            + cleanups_in(rest),
{
    picked_add(before + seq![effect], rest, as_cleanup());
    picked_add(before, seq![effect], as_cleanup());
    picked_one(effect, as_cleanup());
    assert(cleanups_in(before) + Seq::<CleanupView>::empty() =~= cleanups_in(before));
}

/// Breaking a run off owes the cleanup of the account that it holds, and nothing where it holds
/// none.
pub proof fn breaking_off_owes_the_held_account(run: RunView)
    ensures
        run.account is Some ==> held_cleanup(run).len() == 1 && EffectView::CleanUp(
            held_cleanup(run)[0],
        ) == cleanup_owed(run),
        run.account is None ==> held_cleanup(run).len() == 0,
{
}

} // verus!
