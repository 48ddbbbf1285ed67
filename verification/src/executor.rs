//! Running a streamed request: accounts, retries, conversations and their cleanup.
use vstd::prelude::*;
use std::collections::VecDeque;
use crate::framing::{message_text, MessageBuffer};
use crate::retry::{classify, is_account_swap_retryable, AccountMark, InvalidReason};
use crate::stream_model::{
    answer_ends, answer_fails, asks_for_chat, attempt_fails, attempt_fails_marked, begin_attempt,
    bytes_end, cleanup_of, cleanups_from_front, cleanups_in, delta_effects, ends_with,
    exhausted_text, fits, gives_up, has_account, has_chat, has_message, held_cleanup, is_chat,
    let_go, mark_effects, next, next_message, opt_text, prompt_of, some_answer, start, well_formed,
    well_formed_stays, AccountView, CleanupView, DeletionView, DeltaView, EffectView, EventView,
    PromptView, ReplyView, RequestView, RunView, StepView, ACQUIRE_WAIT_SECS,
};
use crate::text::{add_name, append_decimal, copy_names, is_text, name_set};

verus! {

/// What the executor needs to know of the configuration.
#[derive(Debug, Clone, Copy)]
pub struct Settings {
    pub max_retries: u32,
    pub chat_delete_retry_attempts: u32,
    pub chat_delete_retry_delay_ms: u64,
}

/// How requests are run.
#[derive(Debug, Clone, Copy)]
pub struct Executor {
    /// How many accounts a request tries where it does not say itself.
    pub max_retries: u32,
    /// How often deleting a conversation is tried.
    pub delete_attempts: u32,
    /// How long to wait between these tries.
    pub delete_delay_ms: u64,
}

/// A request.
#[derive(Clone)]
pub struct StreamParams {
    pub model: String,
    pub content: String,
    pub has_custom_tools: bool,
    pub files: Vec<serde_json::Value>,
    pub chat_type: String,
    pub image_options: Option<serde_json::Value>,
    pub thinking_enabled: Option<bool>,
    pub enable_search: bool,
    /// The account to use; else the pool gives one.
    pub fixed_account: Option<String>,
    /// The conversation to go on with; else one is made.
    pub existing_chat_id: Option<String>,
    /// Whether a conversation that was made is deleted at the end.
    pub delete_on_close: bool,
    /// Whether a prepared conversation may be used.
    pub use_prewarmed: bool,
    /// How many accounts are tried; nothing for the executor's number.
    pub max_retries: Option<u32>,
    /// The accounts not to ask for.
    pub exclude: Vec<String>,
}

/// Where a run stands.
#[derive(Debug, Clone, Copy, PartialEq, Eq, Structural)]
pub enum Phase {
    Account,
    Prewarmed,
    Chat,
    Stream,
    Chunk,
    Message,
    LastMessage,
    Finished,
}

/// A piece of an answer, as the upstream sent it.
#[derive(Debug, Clone)]
pub struct QwenDelta {
    pub raw: String,
    /// Whether it holds a part of the answer itself, and not of the reasoning before it.
    pub has_answer_content: bool,
}

/// What the client of a run sees.
#[derive(Debug, Clone)]
pub enum UpstreamEvent {
    /// An account and a conversation are there.
    Meta { chat_id: String, email: String },
    Delta(QwenDelta),
    Done,
    Error(String),
    /// Another account is about to be tried after part of an answer has come: the client forgets
    /// what it has gathered.
    Retrying,
}

/// An account and the token to use it with.
#[derive(Debug)]
pub struct AccountHandle {
    pub email: String,
    pub token: String,
}

/// A conversation to delete.
#[derive(Debug)]
pub struct Deletion {
    pub token: String,
    pub chat_id: String,
    pub attempts: u32,
    pub delay_ms: u64,
}

/// What is left to do for an account that is not used any more: first the deletion, and after it
/// the release of the account to the pool.
#[derive(Debug)]
pub struct Cleanup {
    pub delete: Option<Deletion>,
    pub release: Option<String>,
}

/// Something that a run wants done.
#[derive(Debug)]
pub enum Effect {
    Yield(UpstreamEvent),
    MarkSuccess(String),
    MarkRateLimited(String),
    MarkInvalid { email: String, reason: InvalidReason, detail: String },
    CleanUp(Cleanup),
}

/// What the upstream is asked in a conversation.
#[derive(Debug)]
pub struct Prompt {
    pub model: String,
    pub content: String,
    pub has_custom_tools: bool,
    pub files: Vec<serde_json::Value>,
    pub chat_type: String,
    pub image_options: Option<serde_json::Value>,
    pub thinking_enabled: Option<bool>,
    pub enable_search: bool,
}

/// What a run waits for.
#[derive(Debug)]
pub enum Request {
    TokenOf(String),
    AcquireAccount { exclude: Vec<String>, wait_secs: u64 },
    AcquirePrewarmed { email: String, token: String, model: String },
    CreateChat { token: String, model: String, chat_type: String },
    StartStream { token: String, chat_id: String, prompt: Prompt },
    ReadChunk,
    Parse(String),
    Nothing,
}

/// What came of what a run waited for.
#[derive(Debug)]
pub enum Reply {
    Token(Option<String>),
    Account(Option<AccountHandle>),
    Prewarmed(Option<String>),
    Chat(Result<String, String>),
    Started(Result<(), String>),
    Chunk(Vec<u8>),
    ReadFailed(String),
    EndOfStream,
    Parsed { error: Option<String>, deltas: Vec<QwenDelta> },
}

// ----- views -----

impl View for QwenDelta {
    type V = DeltaView;

    open spec fn view(&self) -> DeltaView {
        DeltaView { raw: self.raw@, has_answer_content: self.has_answer_content }
    }
}

impl View for UpstreamEvent {
    type V = EventView;

    open spec fn view(&self) -> EventView {
        match self {
            UpstreamEvent::Meta { chat_id, email } => EventView::Meta {
                chat_id: chat_id@,
                email: email@,
            },
            UpstreamEvent::Delta(delta) => EventView::Delta(delta@),
            UpstreamEvent::Done => EventView::Done,
            UpstreamEvent::Error(err) => EventView::Error(err@),
            UpstreamEvent::Retrying => EventView::Retrying,
        }
    }
}

impl View for AccountHandle {
    type V = AccountView;

    open spec fn view(&self) -> AccountView {
        AccountView { email: self.email@, token: self.token@ }
    }
}

impl View for Deletion {
    type V = DeletionView;

    open spec fn view(&self) -> DeletionView {
        DeletionView {
            token: self.token@,
            chat_id: self.chat_id@,
            attempts: self.attempts,
            delay_ms: self.delay_ms,
        }
    }
}

impl View for Cleanup {
    type V = CleanupView;

    open spec fn view(&self) -> CleanupView {
        CleanupView {
            delete: match self.delete {
                Some(d) => Some(d@),
                None => None,
            },
            release: opt_text(self.release),
        }
    }
}

impl View for Effect {
    type V = EffectView;

    open spec fn view(&self) -> EffectView {
        match self {
            Effect::Yield(event) => EffectView::Yield(event@),
            Effect::MarkSuccess(email) => EffectView::MarkSuccess(email@),
            Effect::MarkRateLimited(email) => EffectView::MarkRateLimited(email@),
            Effect::MarkInvalid { email, reason, detail } => EffectView::MarkInvalid {
                email: email@,
                reason: *reason,
                detail: detail@,
            },
            Effect::CleanUp(cleanup) => EffectView::CleanUp(cleanup@),
        }
    }
}

impl View for Prompt {
    type V = PromptView;

    open spec fn view(&self) -> PromptView {
        PromptView {
            model: self.model@,
            content: self.content@,
            has_custom_tools: self.has_custom_tools,
            files: self.files@,
            chat_type: self.chat_type@,
            image_options: self.image_options,
            thinking_enabled: self.thinking_enabled,
            enable_search: self.enable_search,
        }
    }
}

impl View for Request {
    type V = RequestView;

    open spec fn view(&self) -> RequestView {
        match self {
            Request::TokenOf(email) => RequestView::TokenOf(email@),
            Request::AcquireAccount { exclude, wait_secs } => RequestView::AcquireAccount {
                exclude: name_set(exclude@),
                wait_secs: *wait_secs,
            },
            Request::AcquirePrewarmed { email, token, model } => RequestView::AcquirePrewarmed {
                email: email@,
                token: token@,
                model: model@,
            },
            Request::CreateChat { token, model, chat_type } => RequestView::CreateChat {
                token: token@,
                model: model@,
                chat_type: chat_type@,
            },
            Request::StartStream { token, chat_id, prompt } => RequestView::StartStream {
                token: token@,
                chat_id: chat_id@,
                prompt: prompt@,
            },
            Request::ReadChunk => RequestView::ReadChunk,
            Request::Parse(text) => RequestView::Parse(text@),
            Request::Nothing => RequestView::Nothing,
        }
    }
}

/// The pieces of an answer.
pub open spec fn delta_views(deltas: Seq<QwenDelta>) -> Seq<DeltaView> {
    Seq::new(deltas.len(), |i: int| deltas[i]@)
}

/// What a run wants done.
pub open spec fn effect_views(effects: Seq<Effect>) -> Seq<EffectView> {
    Seq::new(effects.len(), |i: int| effects[i]@)
}

/// What is left to do for accounts.
pub open spec fn cleanup_views(cleanups: Seq<Cleanup>) -> Seq<CleanupView> {
    Seq::new(cleanups.len(), |i: int| cleanups[i]@)
}

impl View for Reply {
    type V = ReplyView;

    open spec fn view(&self) -> ReplyView {
        match self {
            Reply::Token(token) => ReplyView::Token(opt_text(*token)),
            Reply::Account(account) => ReplyView::Account(
                match account {
                    Some(a) => Some(a@),
                    None => None,
                },
            ),
            Reply::Prewarmed(chat_id) => ReplyView::Prewarmed(opt_text(*chat_id)),
            Reply::Chat(made) => ReplyView::Chat(
                match made {
                    Ok(chat_id) => Ok(chat_id@),
                    Err(err) => Err(err@),
                },
            ),
            Reply::Started(started) => ReplyView::Started(
                match started {
                    Ok(()) => Ok(()),
                    Err(err) => Err(err@),
                },
            ),
            Reply::Chunk(bytes) => ReplyView::Chunk(bytes@),
            Reply::ReadFailed(detail) => ReplyView::ReadFailed(detail@),
            Reply::EndOfStream => ReplyView::EndOfStream,
            Reply::Parsed { error, deltas } => ReplyView::Parsed {
                error: opt_text(*error),
                deltas: delta_views(deltas@),
            },
        }
    }
}

/// What stands for a piece of an answer, an event, an account or a deletion has its fields.
pub proof fn views_have_the_fields(
    delta: QwenDelta,
    event: UpstreamEvent,
    account: AccountHandle,
    deletion: Deletion,
    cleanup: Cleanup,
)
    ensures
        delta@.raw == delta.raw@,
        delta@.has_answer_content == delta.has_answer_content,
        event matches UpstreamEvent::Meta { chat_id, email } ==> event@ == (EventView::Meta {
            chat_id: chat_id@,
            email: email@,
        }),
        event matches UpstreamEvent::Delta(delta) ==> event@ == EventView::Delta(delta@),
        event is Done <==> event@ is Done,
        event matches UpstreamEvent::Error(err) ==> event@ == EventView::Error(err@),
        event is Retrying <==> event@ is Retrying,
        account@.email == account.email@,
        account@.token == account.token@,
        deletion@.token == deletion.token@,
        deletion@.chat_id == deletion.chat_id@,
        deletion@.attempts == deletion.attempts,
        deletion@.delay_ms == deletion.delay_ms,
        cleanup.delete is None <==> cleanup@.delete is None,
        cleanup.delete matches Some(deletion) ==> cleanup@.delete == Some(deletion@),
        cleanup.release is None <==> cleanup@.release is None,
        cleanup.release matches Some(email) ==> cleanup@.release == Some(email@),
{
}

/// What stands for something to be done has its fields.
pub proof fn effect_views_have_the_fields(effect: Effect)
    ensures
        effect matches Effect::Yield(event) ==> effect@ == EffectView::Yield(event@),
        effect matches Effect::MarkSuccess(email) ==> effect@ == EffectView::MarkSuccess(email@),
        effect matches Effect::MarkRateLimited(email) ==> effect@ == EffectView::MarkRateLimited(
            email@,
        ),
        effect matches Effect::MarkInvalid { email, reason, detail } ==> effect@ == (
        EffectView::MarkInvalid { email: email@, reason, detail: detail@ }),
        effect matches Effect::CleanUp(cleanup) ==> effect@ == EffectView::CleanUp(cleanup@),
{
}

/// What stands for a request has its fields.
pub proof fn request_views_have_the_fields(request: Request)
    ensures
        request matches Request::TokenOf(email) ==> request@ == RequestView::TokenOf(email@),
        request matches Request::AcquireAccount { exclude, wait_secs } ==> {
            &&& request@ matches RequestView::AcquireAccount { exclude: names, wait_secs: secs }
                && secs == wait_secs && forall|name: Seq<char>|
                names.contains(name) <==> exists|i: int|
                    0 <= i < exclude@.len() && (#[trigger] exclude@[i])@ == name
        },
        request matches Request::AcquirePrewarmed { email, token, model } ==> request@ == (
        RequestView::AcquirePrewarmed { email: email@, token: token@, model: model@ }),
        request matches Request::CreateChat { token, model, chat_type } ==> request@ == (
        RequestView::CreateChat { token: token@, model: model@, chat_type: chat_type@ }),
        request matches Request::StartStream { token, chat_id, prompt } ==> {
            &&& request@ == (RequestView::StartStream {
                token: token@,
                chat_id: chat_id@,
                prompt: prompt@,
            })
            &&& prompt@.model == prompt.model@
            &&& prompt@.content == prompt.content@
            &&& prompt@.has_custom_tools == prompt.has_custom_tools
            &&& prompt@.files == prompt.files@
            &&& prompt@.chat_type == prompt.chat_type@
            &&& prompt@.image_options == prompt.image_options
            &&& prompt@.thinking_enabled == prompt.thinking_enabled
            &&& prompt@.enable_search == prompt.enable_search
        },
        request is ReadChunk <==> request@ is ReadChunk,
        request matches Request::Parse(text) ==> request@ == RequestView::Parse(text@),
        request is Nothing <==> request@ is Nothing,
{
}

/// What stands for a reply has its fields.
pub proof fn reply_views_have_the_fields(reply: Reply)
    ensures
        reply matches Reply::Token(Some(token)) ==> reply@ == ReplyView::Token(Some(token@)),
        reply == Reply::Token(None) ==> reply@ == ReplyView::Token(None),
        reply matches Reply::Account(Some(account)) ==> reply@ == ReplyView::Account(
            Some(account@),
        ),
        reply == Reply::Account(None) ==> reply@ == ReplyView::Account(None),
        reply matches Reply::Prewarmed(Some(chat_id)) ==> reply@ == ReplyView::Prewarmed(
            Some(chat_id@),
        ),
        reply == Reply::Prewarmed(None) ==> reply@ == ReplyView::Prewarmed(None),
        reply matches Reply::Chat(Ok(chat_id)) ==> reply@ == ReplyView::Chat(Ok(chat_id@)),
        reply matches Reply::Chat(Err(err)) ==> reply@ == ReplyView::Chat(Err(err@)),
        reply matches Reply::Started(Ok(_)) ==> reply@ matches ReplyView::Started(Ok(_)),
        reply matches Reply::Started(Err(err)) ==> reply@ == ReplyView::Started(Err(err@)),
        reply matches Reply::Chunk(bytes) ==> reply@ == ReplyView::Chunk(bytes@),
        reply matches Reply::ReadFailed(detail) ==> reply@ == ReplyView::ReadFailed(detail@),
        reply is EndOfStream <==> reply@ is EndOfStream,
        reply matches Reply::Parsed { error, deltas } ==> {
            &&& reply@ matches ReplyView::Parsed { error: said, deltas: pieces } && (error is None
                <==> said is None) && (error matches Some(err) ==> said == Some(err@))
                && pieces.len() == deltas@.len() && forall|i: int|
                0 <= i < pieces.len() ==> #[trigger] pieces[i] == deltas@[i]@
        },
{
}

// ----- the run -----

impl Default for StreamParams {
    fn default() -> (params: Self)
        ensures
            params.model@ == Seq::<char>::empty(),
            params.content@ == Seq::<char>::empty(),
            !params.has_custom_tools,
            params.files@.len() == 0,
            params.chat_type@ == "t2t"@,
            params.image_options is None,
            params.thinking_enabled is None,
            !params.enable_search,
            params.fixed_account is None,
            params.existing_chat_id is None,
            params.delete_on_close,
            params.use_prewarmed,
            params.max_retries is None,
            params.exclude@.len() == 0,
    {
        StreamParams {
            model: String::new(),
            content: String::new(),
            has_custom_tools: false,
            files: Vec::new(),
            chat_type: "t2t".to_owned(),
            image_options: None,
            thinking_enabled: None,
            enable_search: false,
            fixed_account: None,
            existing_chat_id: None,
            delete_on_close: true,
            use_prewarmed: true,
            max_retries: None,
            exclude: Vec::new(),
        }
    }
}

impl Executor {
    /// The executor of a configuration.
    pub fn new(settings: &Settings) -> (executor: Executor)
        ensures
            executor.max_retries == settings.max_retries,
            executor.delete_attempts == settings.chat_delete_retry_attempts,
            executor.delete_delay_ms == settings.chat_delete_retry_delay_ms,
    {
        Executor {
            max_retries: settings.max_retries,
            delete_attempts: settings.chat_delete_retry_attempts,
            delete_delay_ms: settings.chat_delete_retry_delay_ms,
        }
    }
}

/// A request on its way. It holds what is to be done, in order, and a stream of replies drives
/// it on.
pub struct StreamRun {
    config: Executor,
    params: StreamParams,
    attempts: u32,
    attempt: u32,
    exclude: Vec<String>,
    last_error: Option<String>,
    phase: Phase,
    account: Option<AccountHandle>,
    chat_id: Option<String>,
    doomed: Option<String>,
    buffer: MessageBuffer,
    answered: bool,
    queue: VecDeque<Effect>,
}

impl StreamRun {
    /// Where the run stands.
    pub closed spec fn state(&self) -> RunView {
        RunView {
            config: self.config,
            params: self.params,
            attempts: self.attempts,
            attempt: self.attempt,
            exclude: name_set(self.exclude@),
            last_error: opt_text(self.last_error),
            phase: self.phase,
            account: match self.account {
                Some(a) => Some(a@),
                None => None,
            },
            chat_id: opt_text(self.chat_id),
            doomed: opt_text(self.doomed),
            buffer: self.buffer@,
            answered: self.answered,
        }
    }

    /// What is to be done and has not been taken yet.
    pub closed spec fn queued(&self) -> Seq<EffectView> {
        effect_views(self.queue@)
    }

    /// The run is in a state that a run can be in.
    pub open spec fn wf(&self) -> bool {
        well_formed(self.state())
    }

    /// The run has taken a step from an earlier state of it, and waits for `request`.
    pub open spec fn stepped(&self, before: &StreamRun, step: StepView, request: Request) -> bool {
        &&& self.state() == step.run
        &&& self.queued() == before.queued() + step.effects
        &&& request@ == step.request
    }

    /// Adds something to be done.
    fn emit(&mut self, effect: Effect)
        ensures
            final(self).state() == old(self).state(),
            final(self).queued() == old(self).queued().push(effect@),
    {
        self.queue.push_back(effect);
        assert(self.queued() =~= old(self).queued().push(effect@));
    }

    /// Drops everything that belongs to one attempt.
    fn clear(&mut self, phase: Phase)
        ensures
            final(self).state() == let_go(old(self).state(), phase),
            final(self).queued() == old(self).queued(),
    {
        self.phase = phase;
        self.account = None;
        self.chat_id = None;
        self.doomed = None;
        self.buffer = MessageBuffer::new();
        self.answered = false;
    }

    /// The next attempt, if there is one.
    fn begin_attempt(&mut self) -> (request: Request)
        ensures
            final(self).stepped(old(self), begin_attempt(old(self).state()), request),
    {
        if self.attempt < self.attempts {
            self.clear(Phase::Account);
            assert(self.queued() =~= old(self).queued() + Seq::<EffectView>::empty());
            match &self.params.fixed_account {
                Some(email) => Request::TokenOf(email.clone()),
                None => Request::AcquireAccount {
                    exclude: copy_names(&self.exclude),
                    wait_secs: ACQUIRE_WAIT_SECS,
                },
            }
        } else {
            let text = exhausted(self.attempts, &self.last_error);
            self.clear(Phase::Finished);
            self.emit(Effect::Yield(UpstreamEvent::Error(text)));
            assert(self.queued() =~= old(self).queued() + begin_attempt(old(self).state()).effects);
            Request::Nothing
        }
    }

    /// What is left to do for the account of the running attempt.
    fn cleanup(&self) -> (cleanup: Cleanup)
        requires
            self.state().account is Some,
        ensures
            cleanup@ == cleanup_of(self.state()),
    {
        match &self.account {
            Some(account) => Cleanup {
                delete: match &self.doomed {
                    Some(chat_id) => Some(
                        Deletion {
                            token: account.token.clone(),
                            chat_id: chat_id.clone(),
                            attempts: self.config.delete_attempts,
                            delay_ms: self.config.delete_delay_ms,
                        },
                    ),
                    None => None,
                },
                release: if self.params.fixed_account.is_none() {
                    Some(account.email.clone())
                } else {
                    None
                },
            },
            None => Cleanup { delete: None, release: None },
        }
    }

    /// The name of the account of the running attempt.
    fn email(&self) -> (email: String)
        requires
            self.state().account is Some,
        ensures
            email@ == self.state().account->0.email,
    {
        match &self.account {
            Some(account) => account.email.clone(),
            None => String::new(),
        }
    }

    /// The token of the account of the running attempt.
    fn token(&self) -> (token: String)
        requires
            self.state().account is Some,
        ensures
            token@ == self.state().account->0.token,
    {
        match &self.account {
            Some(account) => account.token.clone(),
            None => String::new(),
        }
    }

    /// Whether the request is for text from text.
    fn is_chat(&self) -> (yes: bool)
        ensures
            yes == is_chat(self.state()),
    {
        is_text(&self.params.chat_type, "t2t")
    }

    /// The running attempt has failed.
    fn attempt_fails(&mut self, err: String) -> (request: Request)
        requires
            old(self).state().account is Some,
            old(self).state().attempt < old(self).state().attempts,
        ensures
            final(self).stepped(old(self), attempt_fails(old(self).state(), err@), request),
    {
        let cleanup = self.cleanup();
        let email = self.email();
        self.emit(Effect::CleanUp(cleanup));
        add_name(&mut self.exclude, &email);
        self.last_error = Some(err);
        self.attempt = self.attempt + 1;
        let request = self.begin_attempt();
        assert(self.queued() =~= old(self).queued() + attempt_fails(
            old(self).state(),
            err@,
        ).effects);
        request
    }

    /// The running attempt has failed with an error that may say something of the account.
    fn attempt_fails_marked(&mut self, err: String) -> (request: Request)
        requires
            old(self).state().account is Some,
            old(self).state().attempt < old(self).state().attempts,
        ensures
            final(self).stepped(old(self), attempt_fails_marked(old(self).state(), err@), request),
    {
        let email = self.email();
        match classify(err.as_str()) {
            AccountMark::RateLimited => {
                self.emit(Effect::MarkRateLimited(email));
            },
            AccountMark::Invalid(reason) => {
                self.emit(Effect::MarkInvalid { email, reason, detail: err.clone() });
            },
            AccountMark::Unchanged => {},
        }
        assert(self.queued() =~= old(self).queued() + mark_effects(email@, err@));
        let request = self.attempt_fails(err);
        assert(self.queued() =~= old(self).queued() + attempt_fails_marked(
            old(self).state(),
            err@,
        ).effects);
        request
    }

    /// The run ends with an event.
    fn end_with(&mut self, event: UpstreamEvent) -> (request: Request)
        requires
            old(self).state().account is Some,
        ensures
            final(self).stepped(old(self), ends_with(old(self).state(), event@), request),
    {
        let cleanup = self.cleanup();
        self.emit(Effect::Yield(event));
        self.emit(Effect::CleanUp(cleanup));
        self.clear(Phase::Finished);
        assert(self.queued() =~= old(self).queued() + ends_with(old(self).state(), event@).effects);
        Request::Nothing
    }

    /// The run ends with an error before it has an account.
    fn give_up(&mut self, err: String) -> (request: Request)
        ensures
            final(self).stepped(old(self), gives_up(old(self).state(), err@), request),
    {
        self.emit(Effect::Yield(UpstreamEvent::Error(err)));
        self.clear(Phase::Finished);
        assert(self.queued() =~= old(self).queued() + gives_up(old(self).state(), err@).effects);
        Request::Nothing
    }

    /// A conversation is asked for.
    fn ask_for_chat(&mut self) -> (request: Request)
        requires
            old(self).state().account is Some,
        ensures
            final(self).stepped(old(self), asks_for_chat(old(self).state()), request),
    {
        self.phase = Phase::Chat;
        assert(self.queued() =~= old(self).queued() + Seq::<EffectView>::empty());
        Request::CreateChat {
            token: self.token(),
            model: self.params.model.clone(),
            chat_type: self.params.chat_type.clone(),
        }
    }

    /// A conversation is there.
    fn use_chat(&mut self, chat_id: String, owns: bool) -> (request: Request)
        requires
            old(self).state().account is Some,
        ensures
            final(self).stepped(old(self), has_chat(old(self).state(), chat_id@, owns), request),
    {
        let email = self.email();
        let token = self.token();
        self.phase = Phase::Stream;
        self.doomed = if owns && self.params.delete_on_close {
            Some(chat_id.clone())
        } else {
            None
        };
        self.chat_id = Some(chat_id.clone());
        self.emit(Effect::Yield(UpstreamEvent::Meta { chat_id: chat_id.clone(), email }));
        assert(self.queued() =~= old(self).queued() + has_chat(
            old(self).state(),
            chat_id@,
            owns,
        ).effects);
        Request::StartStream { token, chat_id, prompt: prompt(&self.params) }
    }

    /// An account is there.
    fn use_account(&mut self, account: AccountHandle) -> (request: Request)
        ensures
            final(self).stepped(old(self), has_account(old(self).state(), account@), request),
    {
        let email = account.email.clone();
        let token = account.token.clone();
        self.account = Some(account);
        let existing = match &self.params.existing_chat_id {
            Some(chat_id) => Some(chat_id.clone()),
            None => None,
        };
        match existing {
            Some(chat_id) => self.use_chat(chat_id, false),
            None => {
                if self.params.use_prewarmed && self.is_chat() {
                    self.phase = Phase::Prewarmed;
                    assert(self.queued() =~= old(self).queued() + Seq::<EffectView>::empty());
                    Request::AcquirePrewarmed { email, token, model: self.params.model.clone() }
                } else {
                    self.ask_for_chat()
                }
            },
        }
    }

    /// The next complete message is read, or more bytes are asked for.
    fn next_message(&mut self) -> (request: Request)
        ensures
            final(self).stepped(old(self), next_message(old(self).state()), request),
    {
        match self.buffer.next_message() {
            Some(message) => {
                self.phase = Phase::Message;
                assert(self.queued() =~= old(self).queued() + Seq::<EffectView>::empty());
                Request::Parse(message_text(&message))
            },
            None => {
                self.phase = Phase::Chunk;
                assert(self.queued() =~= old(self).queued() + Seq::<EffectView>::empty());
                Request::ReadChunk
            },
        }
    }

    /// The answer has come to its end.
    fn answer_ends(&mut self) -> (request: Request)
        requires
            old(self).state().account is Some,
            old(self).state().attempt < old(self).state().attempts,
        ensures
            final(self).stepped(old(self), answer_ends(old(self).state()), request),
    {
        if self.is_chat() && !self.answered {
            return self.attempt_fails(
                "上游回應無 answer content（可能只有 reasoning 或全空），視為瞬時錯誤重試".to_owned(),
            );
        }
        if self.params.fixed_account.is_none() {
            let email = self.email();
            self.emit(Effect::MarkSuccess(email));
        }
        let request = self.end_with(UpstreamEvent::Done);
        assert(self.queued() =~= old(self).queued() + answer_ends(old(self).state()).effects);
        request
    }

    /// The answer has failed.
    fn answer_fails(&mut self, err: String) -> (request: Request)
        requires
            old(self).state().account is Some,
            old(self).state().attempt < old(self).state().attempts,
        ensures
            final(self).stepped(old(self), answer_fails(old(self).state(), err@), request),
    {
        if self.answered {
            if !is_account_swap_retryable(err.as_str()) {
                return self.end_with(UpstreamEvent::Error(err));
            }
            if self.attempt + 1 < self.attempts {
                self.emit(Effect::Yield(UpstreamEvent::Retrying));
            }
        }
        let request = self.attempt_fails_marked(err);
        assert(self.queued() =~= old(self).queued() + answer_fails(old(self).state(), err@).effects);
        request
    }

    /// Hands the pieces of an answer on.
    fn relay(&mut self, deltas: Vec<QwenDelta>)
        ensures
            final(self).state() == (RunView {
                answered: old(self).state().answered || some_answer(delta_views(deltas@)),
                ..old(self).state()
            }),
            final(self).queued() == old(self).queued() + delta_effects(delta_views(deltas@)),
    {
        let ghost pieces = delta_views(deltas@);
        assert(self.queued() =~= old(self).queued() + delta_effects(pieces.take(0)));
        for delta in it: deltas
            invariant
                it.seq() == deltas@,
                pieces == delta_views(deltas@),
                self.state() == (RunView {
                    answered: old(self).state().answered || some_answer(pieces.take(it.index())),
                    ..old(self).state()
                }),
                self.queued() == old(self).queued() + delta_effects(pieces.take(it.index())),
        {
            let ghost seen = pieces.take(it.index());
            let ghost more = pieces.take(it.index() + 1);
            assert(more =~= seen.push(delta@));
            if delta.has_answer_content {
                self.answered = true;
                assert(more[it.index()].has_answer_content);
            }
            proof {
                assert(some_answer(more) == (some_answer(seen) || delta.has_answer_content)) by {
                    if some_answer(seen) {
                        let i = choose|i: int|
                            0 <= i < seen.len() && (#[trigger] seen[i]).has_answer_content;
                        assert(more[i].has_answer_content);
                    }
                    if some_answer(more) {
                        let i = choose|i: int|
                            0 <= i < more.len() && (#[trigger] more[i]).has_answer_content;
                        if i < seen.len() {
                            assert(seen[i].has_answer_content);
                        }
                    }
                }
            }
            self.emit(Effect::Yield(UpstreamEvent::Delta(delta)));
            assert(self.queued() =~= old(self).queued() + delta_effects(more));
        }
        assert(pieces.take(pieces.len() as int) =~= pieces);
    }

    /// A message has been read.
    fn use_message(&mut self, error: Option<String>, deltas: Vec<QwenDelta>) -> (request: Request)
        requires
            old(self).state().account is Some,
            old(self).state().attempt < old(self).state().attempts,
        ensures
            final(self).stepped(
                old(self),
                has_message(old(self).state(), opt_text(error), delta_views(deltas@)),
                request,
            ),
    {
        match error {
            Some(err) => self.answer_fails(err),
            None => {
                self.relay(deltas);
                let request = if self.phase == Phase::LastMessage {
                    self.answer_ends()
                } else {
                    self.next_message()
                };
                assert(self.queued() =~= old(self).queued() + has_message(
                    old(self).state(),
                    None,
                    delta_views(deltas@),
                ).effects);
                request
            },
        }
    }

    /// No more bytes come.
    fn bytes_end(&mut self) -> (request: Request)
        requires
            old(self).state().account is Some,
            old(self).state().attempt < old(self).state().attempts,
        ensures
            final(self).stepped(old(self), bytes_end(old(self).state()), request),
    {
        if self.buffer.is_empty() {
            return self.answer_ends();
        }
        let rest = self.buffer.take_all();
        self.phase = Phase::LastMessage;
        assert(self.queued() =~= old(self).queued() + Seq::<EffectView>::empty());
        Request::Parse(message_text(&rest))
    }

    /// Whether the run waits for a reply of this kind.
    pub fn accepts(&self, reply: &Reply) -> (yes: bool)
        ensures
            yes == fits(self.state(), reply@),
    {
        match self.phase {
            Phase::Account => if self.params.fixed_account.is_none() {
                matches!(reply, Reply::Account(_))
            } else {
                matches!(reply, Reply::Token(_))
            },
            Phase::Prewarmed => matches!(reply, Reply::Prewarmed(_)),
            Phase::Chat => matches!(reply, Reply::Chat(_)),
            Phase::Stream => matches!(reply, Reply::Started(_)),
            Phase::Chunk => matches!(
                reply,
                Reply::Chunk(_) | Reply::ReadFailed(_) | Reply::EndOfStream
            ),
            Phase::Message => matches!(reply, Reply::Parsed { .. }),
            Phase::LastMessage => matches!(reply, Reply::Parsed { .. }),
            Phase::Finished => false,
        }
    }

    /// Takes the reply to what the run waited for. What is to be done is added to the queue, and
    /// what the run waits for next is returned.
    pub fn step(&mut self, reply: Reply) -> (request: Request)
        requires
            old(self).wf(),
            fits(old(self).state(), reply@),
        ensures
            final(self).wf(),
            final(self).stepped(old(self), next(old(self).state(), reply@), request),
            final(self).state().params == old(self).state().params,
            request matches Request::StartStream { token, chat_id, prompt } ==> {
                let asked = old(self).state().params;
                &&& prompt.model@ == asked.model@
                &&& prompt.content@ == asked.content@
                &&& prompt.has_custom_tools == asked.has_custom_tools
                &&& prompt.files@ == asked.files@
                &&& prompt.chat_type@ == asked.chat_type@
                &&& prompt.image_options == asked.image_options
                &&& prompt.thinking_enabled == asked.thinking_enabled
                &&& prompt.enable_search == asked.enable_search
            },
    {
        proof {
            well_formed_stays(self.state(), reply@);
        }
        match reply {
            Reply::Token(token) => {
                let email = match &self.params.fixed_account {
                    Some(email) => email.clone(),
                    None => String::new(),
                };
                match token {
                    Some(token) => self.use_account(AccountHandle { email, token }),
                    None => {
                        let mut text = "指定帳號不存在: ".to_owned();
                        text.append(email.as_str());
                        self.give_up(text)
                    },
                }
            },
            Reply::Account(account) => match account {
                Some(account) => self.use_account(account),
                None => {
                    let text = match &self.last_error {
                        Some(err) => err.clone(),
                        None => "帳號池無可用帳號（全忙或限流）".to_owned(),
                    };
                    self.give_up(text)
                },
            },
            Reply::Prewarmed(chat_id) => match chat_id {
                Some(chat_id) => self.use_chat(chat_id, true),
                None => self.ask_for_chat(),
            },
            Reply::Chat(made) => match made {
                Ok(chat_id) => self.use_chat(chat_id, true),
                Err(err) => self.attempt_fails_marked(err),
            },
            Reply::Started(started) => match started {
                Ok(()) => {
                    self.phase = Phase::Chunk;
                    self.buffer = MessageBuffer::new();
                    self.answered = false;
                    assert(self.queued() =~= old(self).queued() + Seq::<EffectView>::empty());
                    Request::ReadChunk
                },
                Err(err) => self.attempt_fails_marked(err),
            },
            Reply::Chunk(bytes) => {
                self.buffer.extend(&bytes);
                self.next_message()
            },
            Reply::ReadFailed(detail) => {
                let mut text = "串流讀取錯誤: ".to_owned();
                text.append(detail.as_str());
                self.answer_fails(text)
            },
            Reply::EndOfStream => self.bytes_end(),
            Reply::Parsed { error, deltas } => self.use_message(error, deltas),
        }
    }

    /// Takes the next thing to be done.
    pub fn next_effect(&mut self) -> (effect: Option<Effect>)
        ensures
            final(self).state() == old(self).state(),
            match effect {
                Some(e) => {
                    &&& old(self).queued().len() > 0
                    &&& e@ == old(self).queued()[0]
                    &&& final(self).queued() == old(self).queued().skip(1)
                },
                None => {
                    &&& old(self).queued().len() == 0
                    &&& final(self).queued() == old(self).queued()
                },
            },
    {
        let effect = self.queue.pop_front();
        assert(effect is Some ==> self.queued() =~= old(self).queued().skip(1));
        assert(effect is None ==> self.queued() =~= old(self).queued());
        effect
    }

    /// Breaks the run off. What is returned is all that is left to do: the cleanups that have not
    /// been taken from the queue, and the one of the account that is still held.
    pub fn cancel(&mut self) -> (cleanups: Vec<Cleanup>)
        requires
            old(self).wf(),
        ensures
            final(self).wf(),
            final(self).state() == let_go(old(self).state(), Phase::Finished),
            final(self).queued() == Seq::<EffectView>::empty(),
            cleanup_views(cleanups@) == cleanups_in(old(self).queued()) + held_cleanup(
                old(self).state(),
            ),
    {
        let mut cleanups: Vec<Cleanup> = Vec::new();
        let ghost held = self.state();
        assert(cleanup_views(cleanups@) + cleanups_in(self.queued()) =~= cleanups_in(
            self.queued(),
        ));
        while self.queue.len() > 0
            invariant
                self.state() == held,
                cleanup_views(cleanups@) + cleanups_in(self.queued()) == cleanups_in(
                    old(self).queued(),
                ),
            decreases self.queue.len(),
        {
            let ghost before = self.queued();
            let ghost taken = cleanup_views(cleanups@);
            match self.next_effect() {
                Some(effect) => {
                    proof {
                        cleanups_from_front(effect@, self.queued());
                        assert(seq![effect@] + self.queued() =~= before);
                    }
                    match effect {
                        Effect::CleanUp(cleanup) => {
                            cleanups.push(cleanup);
                            assert(cleanup_views(cleanups@) =~= taken.push(cleanup@));
                            assert(taken + (seq![cleanup@] + cleanups_in(self.queued()))
                                =~= taken.push(cleanup@) + cleanups_in(self.queued()));
                        },
                        _ => {
                            assert(cleanups_in(before) =~= cleanups_in(self.queued()));
                        },
                    }
                },
                None => {},
            }
        }
        assert(cleanups_in(self.queued()) =~= Seq::<CleanupView>::empty());
        if self.account.is_some() {
            let cleanup = self.cleanup();
            let ghost taken = cleanup_views(cleanups@);
            cleanups.push(cleanup);
            assert(cleanup_views(cleanups@) =~= taken.push(cleanup@));
        }
        self.clear(Phase::Finished);
        cleanups
    }

    /// Whether the run is over.
    pub fn is_finished(&self) -> (over: bool)
        ensures
            over == (self.state().phase == Phase::Finished),
    {
        self.phase == Phase::Finished
    }
}

impl Executor {
    /// Starts a request: a run, and what it waits for first.
    pub fn run_stream(&self, params: StreamParams) -> (started: (StreamRun, Request))
        ensures
            started.0.wf(),
            started.0.state().params == params,
            started.0.state().config == *self,
            started.0.state() == start(*self, params).run,
            started.0.queued() == start(*self, params).effects,
            started.1@ == start(*self, params).request,
    {
        let attempts: u32 = match &params.fixed_account {
            Some(_) => 1,
            None => match params.max_retries {
                Some(n) => n,
                None => self.max_retries,
            },
        };
        let exclude = copy_names(&params.exclude);
        let mut run = StreamRun {
            config: *self,
            params,
            attempts,
            attempt: 0,
            exclude,
            last_error: None,
            phase: Phase::Account,
            account: None,
            chat_id: None,
            doomed: None,
            buffer: MessageBuffer::new(),
            answered: false,
            queue: VecDeque::new(),
        };
        let ghost empty = run.queued();
        let request = run.begin_attempt();
        assert(empty + start(*self, params).effects =~= start(*self, params).effects);
        (run, request)
    }
}

/// What a request asks the upstream.
fn prompt(params: &StreamParams) -> (prompt: Prompt)
    ensures
        prompt@ == prompt_of(*params),
        prompt.model@ == params.model@,
        prompt.content@ == params.content@,
        prompt.has_custom_tools == params.has_custom_tools,
        prompt.files@ == params.files@,
        prompt.chat_type@ == params.chat_type@,
        prompt.image_options == params.image_options,
        prompt.thinking_enabled == params.thinking_enabled,
        prompt.enable_search == params.enable_search,
{
    let mut files: Vec<serde_json::Value> = Vec::new();
    while files.len() < params.files.len()
        invariant
            files@.len() <= params.files@.len(),
            files@ == params.files@.take(files@.len() as int),
        decreases params.files.len() - files.len(),
    {
        let file = params.files[files.len()].clone();
        files.push(file);
        assert(files@ =~= params.files@.take(files@.len() as int));
    }
    assert(files@ =~= params.files@);
    Prompt {
        model: params.model.clone(),
        content: params.content.clone(),
        has_custom_tools: params.has_custom_tools,
        files,
        chat_type: params.chat_type.clone(),
        image_options: match &params.image_options {
            Some(options) => Some(options.clone()),
            None => None,
        },
        thinking_enabled: params.thinking_enabled,
        enable_search: params.enable_search,
    }
}

/// The text of a request whose every attempt has failed.
fn exhausted(attempts: u32, last_error: &Option<String>) -> (text: String)
    ensures
        text@ == exhausted_text(attempts, opt_text(*last_error)),
{
    let mut text = "全部 ".to_owned();
    append_decimal(&mut text, attempts as u64);
    text.append(" 次嘗試失敗。最後錯誤: ");
    match last_error {
        Some(e) => {
            text.append(e.as_str());
        },
        None => {
            text.append("未知");
        },
    }
    text
}

} // verus!
