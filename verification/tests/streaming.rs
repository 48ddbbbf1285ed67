use qwen2api::executor::{
    AccountHandle, Effect, Executor, QwenDelta, Reply, Request, Settings, StreamParams, StreamRun,
    UpstreamEvent,
};
use qwen2api::retry::InvalidReason;

fn executor(max_retries: u32) -> Executor {
    Executor::new(&Settings {
        max_retries,
        chat_delete_retry_attempts: 4,
        chat_delete_retry_delay_ms: 250,
    })
}

fn handle(name: &str) -> Reply {
    Reply::Account(Some(AccountHandle { email: name.to_string(), token: format!("tok-{name}") }))
}

fn delta(raw: &str, has_answer_content: bool) -> QwenDelta {
    QwenDelta { raw: raw.to_string(), has_answer_content }
}

fn parsed(deltas: Vec<QwenDelta>) -> Reply {
    Reply::Parsed { error: None, deltas }
}

fn broken(err: &str) -> Reply {
    Reply::Parsed { error: Some(err.to_string()), deltas: Vec::new() }
}

/// Answers what the run waits for, and tells what it waits for next.
fn answer(run: &mut StreamRun, reply: Reply) -> String {
    assert!(run.accepts(&reply));
    format!("{:?}", run.step(reply))
}

/// Everything that is to be done, one line each.
fn effects(run: &mut StreamRun) -> Vec<String> {
    let mut out = Vec::new();
    while let Some(effect) = run.next_effect() {
        out.push(match effect {
            Effect::Yield(UpstreamEvent::Meta { chat_id, email }) => format!("meta {chat_id} {email}"),
            Effect::Yield(UpstreamEvent::Delta(d)) => format!("delta {}", d.raw),
            Effect::Yield(UpstreamEvent::Done) => "done".to_string(),
            Effect::Yield(UpstreamEvent::Error(e)) => format!("error {e}"),
            Effect::Yield(UpstreamEvent::Retrying) => "retrying".to_string(),
            Effect::MarkSuccess(email) => format!("success {email}"),
            Effect::MarkRateLimited(email) => format!("limited {email}"),
            Effect::MarkInvalid { email, reason, detail } => {
                format!("invalid {email} {} {detail}", reason.as_str())
            }
            Effect::CleanUp(c) => {
                let gone = match c.delete {
                    Some(d) => format!("{}/{}/{}/{}", d.token, d.chat_id, d.attempts, d.delay_ms),
                    None => "-".to_string(),
                };
                format!("clean {gone} {}", c.release.unwrap_or("-".to_string()))
            }
        });
    }
    out
}

/// A run whose answer of one account is being read.
fn reading(params: StreamParams, retries: u32) -> StreamRun {
    let (mut run, _) = executor(retries).run_stream(params);
    answer(&mut run, handle("a"));
    answer(&mut run, Reply::Prewarmed(None));
    answer(&mut run, Reply::Chat(Ok("c1".to_string())));
    answer(&mut run, Reply::Started(Ok(())));
    assert_eq!(effects(&mut run), vec!["meta c1 a"]);
    run
}

#[test]
fn settings_reach_the_executor() {
    let ex = executor(3);
    assert_eq!((ex.max_retries, ex.delete_attempts, ex.delete_delay_ms), (3, 4, 250));
}

#[test]
fn a_request_has_defaults() {
    let p = StreamParams::default();
    assert_eq!((p.model.as_str(), p.content.as_str(), p.chat_type.as_str()), ("", "", "t2t"));
    assert!(p.delete_on_close && p.use_prewarmed);
    assert!(!p.has_custom_tools && !p.enable_search);
    assert!(p.files.is_empty() && p.exclude.is_empty());
    assert!(p.image_options.is_none() && p.thinking_enabled.is_none() && p.max_retries.is_none());
    assert!(p.fixed_account.is_none() && p.existing_chat_id.is_none());
}

#[test]
fn an_answer_is_relayed_to_its_end() {
    let params = StreamParams { model: "m".to_string(), ..StreamParams::default() };
    let (mut run, first) = executor(3).run_stream(params);
    assert_eq!(format!("{first:?}"), "AcquireAccount { exclude: [], wait_secs: 60 }");
    let next = answer(&mut run, handle("a"));
    assert_eq!(next, "AcquirePrewarmed { email: \"a\", token: \"tok-a\", model: \"m\" }");
    let next = answer(&mut run, Reply::Prewarmed(None));
    assert_eq!(next, "CreateChat { token: \"tok-a\", model: \"m\", chat_type: \"t2t\" }");
    let next = answer(&mut run, Reply::Chat(Ok("c1".to_string())));
    assert!(next.starts_with("StartStream { token: \"tok-a\", chat_id: \"c1\", prompt: "));
    assert_eq!(answer(&mut run, Reply::Started(Ok(()))), "ReadChunk");
    let next = answer(&mut run, Reply::Chunk(b"one\n\ntwo\n\nthr".to_vec()));
    assert_eq!(next, "Parse(\"one\")");
    assert_eq!(answer(&mut run, parsed(vec![delta("1", false)])), "Parse(\"two\")");
    assert_eq!(answer(&mut run, parsed(vec![delta("2", true), delta("3", true)])), "ReadChunk");
    assert_eq!(answer(&mut run, Reply::Chunk(b"ee".to_vec())), "ReadChunk");
    assert_eq!(answer(&mut run, Reply::EndOfStream), "Parse(\"three\")");
    assert!(!run.is_finished());
    assert_eq!(answer(&mut run, parsed(vec![delta("4", false)])), "Nothing");
    assert!(run.is_finished());
    assert_eq!(
        effects(&mut run),
        vec![
            "meta c1 a",
            "delta 1",
            "delta 2",
            "delta 3",
            "delta 4",
            "success a",
            "done",
            "clean tok-a/c1/4/250 a",
        ]
    );
    assert!(!run.accepts(&Reply::EndOfStream));
    assert!(run.cancel().is_empty());
}

#[test]
fn a_prepared_conversation_is_used_for_text_only() {
    let (mut run, _) = executor(1).run_stream(StreamParams::default());
    answer(&mut run, handle("a"));
    let next = answer(&mut run, Reply::Prewarmed(Some("warm".to_string())));
    assert!(next.starts_with("StartStream { token: \"tok-a\", chat_id: \"warm\", prompt: "));
    let image = StreamParams { chat_type: "t2i".to_string(), ..StreamParams::default() };
    let (mut run, _) = executor(1).run_stream(image);
    assert!(answer(&mut run, handle("a")).starts_with("CreateChat"));
    let cold = StreamParams { use_prewarmed: false, ..StreamParams::default() };
    let (mut run, _) = executor(1).run_stream(cold);
    assert!(answer(&mut run, handle("a")).starts_with("CreateChat"));
}

#[test]
fn an_existing_conversation_is_kept() {
    let params =
        StreamParams { existing_chat_id: Some("mine".to_string()), ..StreamParams::default() };
    let (mut run, _) = executor(1).run_stream(params);
    let next = answer(&mut run, handle("a"));
    assert!(next.starts_with("StartStream { token: \"tok-a\", chat_id: \"mine\", prompt: "));
    let left = run.cancel();
    assert_eq!(left.len(), 1);
    assert!(left[0].delete.is_none());
    assert_eq!(left[0].release.as_deref(), Some("a"));
}

#[test]
fn a_conversation_stays_where_the_request_wants_it() {
    let params = StreamParams { delete_on_close: false, ..StreamParams::default() };
    let mut run = reading(params, 1);
    assert!(run.cancel()[0].delete.is_none());
}

#[test]
fn a_given_account_is_tried_once_and_not_released() {
    let params = StreamParams {
        fixed_account: Some("me".to_string()),
        max_retries: Some(9),
        chat_type: "t2i".to_string(),
        ..StreamParams::default()
    };
    let (mut run, first) = executor(5).run_stream(params);
    assert_eq!(format!("{first:?}"), "TokenOf(\"me\")");
    assert!(!run.accepts(&handle("a")));
    answer(&mut run, Reply::Token(Some("t".to_string())));
    answer(&mut run, Reply::Chat(Err("HTTP 401".to_string())));
    assert_eq!(
        effects(&mut run),
        vec![
            "invalid me auth_error HTTP 401",
            "clean - -",
            "error 全部 1 次嘗試失敗。最後錯誤: HTTP 401",
        ]
    );
}

#[test]
fn a_given_account_that_is_missing_is_an_error() {
    let params = StreamParams { fixed_account: Some("me".to_string()), ..StreamParams::default() };
    let (mut run, _) = executor(5).run_stream(params);
    assert_eq!(answer(&mut run, Reply::Token(None)), "Nothing");
    assert_eq!(effects(&mut run), vec!["error 指定帳號不存在: me"]);
}

#[test]
fn a_given_account_is_not_marked_as_successful() {
    let params = StreamParams {
        fixed_account: Some("me".to_string()),
        existing_chat_id: Some("c".to_string()),
        chat_type: "t2v".to_string(),
        ..StreamParams::default()
    };
    let (mut run, _) = executor(5).run_stream(params);
    answer(&mut run, Reply::Token(Some("t".to_string())));
    answer(&mut run, Reply::Started(Ok(())));
    answer(&mut run, Reply::EndOfStream);
    assert_eq!(effects(&mut run), vec!["meta c me", "done", "clean - -"]);
}

#[test]
fn an_empty_pool_shows_the_last_real_error() {
    let (mut run, _) = executor(3).run_stream(StreamParams::default());
    answer(&mut run, Reply::Account(None));
    assert_eq!(effects(&mut run), vec!["error 帳號池無可用帳號（全忙或限流）"]);
    let (mut run, _) = executor(3).run_stream(StreamParams::default());
    answer(&mut run, handle("a"));
    answer(&mut run, Reply::Prewarmed(None));
    answer(&mut run, Reply::Chat(Err("HTTP 429".to_string())));
    answer(&mut run, Reply::Account(None));
    assert_eq!(effects(&mut run), vec!["limited a", "clean - a", "error HTTP 429"]);
}

#[test]
fn failed_accounts_are_not_asked_for_again() {
    let params = StreamParams { exclude: vec!["x".to_string()], ..StreamParams::default() };
    let (mut run, _) = executor(2).run_stream(params);
    answer(&mut run, handle("a"));
    answer(&mut run, Reply::Prewarmed(Some("w".to_string())));
    let next = answer(&mut run, Reply::Started(Err("timeout".to_string())));
    assert_eq!(next, "AcquireAccount { exclude: [\"x\", \"a\"], wait_secs: 60 }");
    answer(&mut run, handle("b"));
    answer(&mut run, Reply::Prewarmed(None));
    assert_eq!(answer(&mut run, Reply::Chat(Err("HTTP 403 pending".to_string()))), "Nothing");
    assert_eq!(
        effects(&mut run),
        vec![
            "meta w a",
            "clean tok-a/w/4/250 a",
            "invalid b pending_activation HTTP 403 pending",
            "clean - b",
            "error 全部 2 次嘗試失敗。最後錯誤: HTTP 403 pending",
        ]
    );
}

#[test]
fn no_attempts_at_all_is_an_error() {
    let (mut run, first) = executor(0).run_stream(StreamParams::default());
    assert!(matches!(first, Request::Nothing));
    assert_eq!(effects(&mut run), vec!["error 全部 0 次嘗試失敗。最後錯誤: 未知"]);
    let params = StreamParams { max_retries: Some(1), ..StreamParams::default() };
    let (run, first) = executor(0).run_stream(params);
    assert!(matches!(first, Request::AcquireAccount { .. }) && !run.is_finished());
}

#[test]
fn reasoning_alone_is_no_answer() {
    let mut run = reading(StreamParams::default(), 2);
    answer(&mut run, Reply::Chunk(b"x\n\n".to_vec()));
    answer(&mut run, parsed(vec![delta("think", false)]));
    let next = answer(&mut run, Reply::EndOfStream);
    assert_eq!(next, "AcquireAccount { exclude: [\"a\"], wait_secs: 60 }");
    assert_eq!(effects(&mut run), vec!["delta think", "clean tok-a/c1/4/250 a"]);
    answer(&mut run, Reply::Account(None));
    assert_eq!(
        effects(&mut run),
        vec!["error 上游回應無 answer content（可能只有 reasoning 或全空），視為瞬時錯誤重試"]
    );
}

#[test]
fn an_error_before_any_content_is_tried_elsewhere() {
    let mut run = reading(StreamParams::default(), 2);
    answer(&mut run, Reply::Chunk(b"x\n\ny\n\n".to_vec()));
    let next = answer(&mut run, broken("content refused"));
    assert!(next.starts_with("AcquireAccount"));
    assert_eq!(effects(&mut run), vec!["clean tok-a/c1/4/250 a"]);
}

#[test]
fn an_error_after_content_goes_to_the_client() {
    let mut run = reading(StreamParams::default(), 2);
    answer(&mut run, Reply::Chunk(b"x\n\n".to_vec()));
    answer(&mut run, parsed(vec![delta("hi", true)]));
    assert_eq!(answer(&mut run, Reply::ReadFailed("reset".to_string())), "Nothing");
    assert_eq!(
        effects(&mut run),
        vec!["delta hi", "error 串流讀取錯誤: reset", "clean tok-a/c1/4/250 a"]
    );
}

#[test]
fn a_quota_error_after_content_is_tried_elsewhere() {
    let mut run = reading(StreamParams::default(), 2);
    answer(&mut run, Reply::Chunk(b"x\n\n".to_vec()));
    answer(&mut run, parsed(vec![delta("hi", true)]));
    answer(&mut run, Reply::Chunk(b"tail".to_vec()));
    answer(&mut run, Reply::EndOfStream);
    let next = answer(&mut run, broken("Too many requests: upper limit"));
    assert_eq!(next, "AcquireAccount { exclude: [\"a\"], wait_secs: 60 }");
    assert_eq!(
        effects(&mut run),
        vec!["delta hi", "retrying", "limited a", "clean tok-a/c1/4/250 a"]
    );
}

#[test]
fn the_way_bytes_arrive_does_not_matter() {
    let bytes = "你\n\n好\n\n\n\nend".as_bytes();
    let mut seen = Vec::new();
    for size in 1..=bytes.len() {
        let mut run = reading(StreamParams::default(), 1);
        let mut texts = Vec::new();
        for chunk in bytes.chunks(size) {
            let mut next = run.step(Reply::Chunk(chunk.to_vec()));
            while let Request::Parse(text) = next {
                texts.push(text);
                next = run.step(parsed(Vec::new()));
            }
        }
        match run.step(Reply::EndOfStream) {
            Request::Parse(text) => texts.push(text),
            other => panic!("unexpected: {other:?}"),
        }
        seen.push(texts);
    }
    assert!(seen.iter().all(|t| *t == vec!["你", "好", "", "end"]));
}

#[test]
fn breaking_off_cleans_up_once() {
    let mut run = reading(StreamParams::default(), 2);
    let left = run.cancel();
    assert_eq!(left.len(), 1);
    let gone = left[0].delete.as_ref().unwrap();
    assert_eq!((gone.token.as_str(), gone.chat_id.as_str()), ("tok-a", "c1"));
    assert_eq!((gone.attempts, gone.delay_ms), (4, 250));
    assert_eq!(left[0].release.as_deref(), Some("a"));
    assert!(run.is_finished());
    assert!(run.cancel().is_empty());
    assert!(run.next_effect().is_none());
}

#[test]
fn breaking_off_keeps_cleanups_that_wait() {
    let mut run = reading(StreamParams::default(), 2);
    answer(&mut run, broken_start());
    answer(&mut run, handle("b"));
    let left = run.cancel();
    let released: Vec<&str> = left.iter().map(|c| c.release.as_deref().unwrap()).collect();
    assert_eq!(released, vec!["a", "b"]);
    assert!(left[0].delete.is_some() && left[1].delete.is_none());
}

fn broken_start() -> Reply {
    Reply::ReadFailed("503".to_string())
}

#[test]
fn a_run_that_waits_for_an_account_has_nothing_to_clean_up() {
    let (mut run, _) = executor(2).run_stream(StreamParams::default());
    assert!(run.cancel().is_empty());
}

#[test]
fn marks_carry_their_reason() {
    let (mut run, _) = executor(1).run_stream(StreamParams::default());
    answer(&mut run, handle("a"));
    answer(&mut run, Reply::Prewarmed(None));
    answer(&mut run, Reply::Chat(Err("Unauthorized".to_string())));
    match run.next_effect() {
        Some(Effect::MarkInvalid { email, reason, detail }) => {
            assert_eq!((email.as_str(), detail.as_str()), ("a", "Unauthorized"));
            assert_eq!(reason, InvalidReason::AuthError);
        }
        other => panic!("unexpected: {other:?}"),
    }
}

#[test]
fn the_last_attempt_announces_no_retry() {
    let mut run = reading(StreamParams::default(), 1);
    answer(&mut run, Reply::Chunk(b"x\n\n".to_vec()));
    answer(&mut run, parsed(vec![delta("hi", true)]));
    assert_eq!(answer(&mut run, Reply::ReadFailed("HTTP 503".to_string())), "Nothing");
    assert_eq!(
        effects(&mut run),
        vec![
            "delta hi",
            "clean tok-a/c1/4/250 a",
            "error 全部 1 次嘗試失敗。最後錯誤: 串流讀取錯誤: HTTP 503",
        ]
    );
}

#[test]
fn a_retry_is_announced_on_every_attempt_but_the_last() {
    let (mut run, mut next) = executor(3).run_stream(StreamParams::default());
    let mut seen = Vec::new();
    for name in ["a", "b", "c"] {
        assert!(matches!(next, Request::AcquireAccount { .. }));
        answer(&mut run, handle(name));
        answer(&mut run, Reply::Prewarmed(Some(format!("w{name}"))));
        answer(&mut run, Reply::Started(Ok(())));
        answer(&mut run, Reply::Chunk(b"x\n\ny\n\n".to_vec()));
        answer(&mut run, parsed(vec![delta("hi", true)]));
        next = run.step(broken("quota exceeded"));
        seen.push(effects(&mut run).iter().filter(|e| *e == "retrying").count());
    }
    assert_eq!(seen, vec![1, 1, 0]);
    assert!(matches!(next, Request::Nothing) && run.is_finished());
}

#[test]
fn a_given_account_announces_no_retry() {
    let params = StreamParams {
        fixed_account: Some("me".to_string()),
        existing_chat_id: Some("c".to_string()),
        ..StreamParams::default()
    };
    let (mut run, _) = executor(5).run_stream(params);
    answer(&mut run, Reply::Token(Some("t".to_string())));
    answer(&mut run, Reply::Started(Ok(())));
    answer(&mut run, Reply::Chunk(b"x\n\n".to_vec()));
    answer(&mut run, parsed(vec![delta("hi", true)]));
    answer(&mut run, Reply::ReadFailed("429".to_string()));
    assert_eq!(
        effects(&mut run),
        vec![
            "meta c me",
            "delta hi",
            "limited me",
            "clean - -",
            "error 全部 1 次嘗試失敗。最後錯誤: 串流讀取錯誤: 429",
        ]
    );
}

#[test]
fn the_whole_request_reaches_the_upstream() {
    let params = StreamParams {
        model: "m".to_string(),
        content: "hello".to_string(),
        has_custom_tools: true,
        files: vec![serde_json::Value::from(1), serde_json::Value::from("f")],
        chat_type: "t2i".to_string(),
        image_options: Some(serde_json::Value::from(true)),
        thinking_enabled: Some(false),
        enable_search: true,
        ..StreamParams::default()
    };
    let (mut run, _) = executor(1).run_stream(params);
    answer(&mut run, handle("a"));
    match run.step(Reply::Chat(Ok("c9".to_string()))) {
        Request::StartStream { token, chat_id, prompt } => {
            assert_eq!((token.as_str(), chat_id.as_str()), ("tok-a", "c9"));
            assert_eq!((prompt.model.as_str(), prompt.content.as_str()), ("m", "hello"));
            assert_eq!(prompt.chat_type, "t2i");
            assert_eq!(prompt.files.len(), 2);
            assert_eq!(prompt.files[0], serde_json::Value::from(1));
            assert_eq!(prompt.files[1], serde_json::Value::from("f"));
            assert_eq!(prompt.image_options, Some(serde_json::Value::from(true)));
            assert_eq!(prompt.thinking_enabled, Some(false));
            assert!(prompt.has_custom_tools && prompt.enable_search);
        }
        other => panic!("unexpected: {other:?}"),
    }
}

/// Runs two answers to their end, with their bytes in chunks of one size.
fn events_with_chunks_of(size: usize) -> Vec<String> {
    let bodies = ["說\n\nhi\n\nquota exceeded\n\nnever", "好\n\n\n\n.\n\nrest"];
    let (mut run, _) = executor(3).run_stream(StreamParams::default());
    for (name, body) in ["a", "b"].iter().zip(bodies) {
        answer(&mut run, handle(name));
        answer(&mut run, Reply::Prewarmed(Some(format!("w{name}"))));
        let mut chunks = body.as_bytes().chunks(size);
        let mut next = run.step(Reply::Started(Ok(())));
        loop {
            next = match next {
                Request::ReadChunk => match chunks.next() {
                    Some(chunk) => run.step(Reply::Chunk(chunk.to_vec())),
                    None => run.step(Reply::EndOfStream),
                },
                Request::Parse(text) if text.contains("quota") => run.step(broken(&text)),
                Request::Parse(text) => {
                    let content = text == "hi" || text == "好";
                    run.step(parsed(vec![delta(&text, content)]))
                }
                _ => break,
            };
        }
    }
    assert!(run.is_finished());
    effects(&mut run)
}

#[test]
fn chunks_do_not_change_the_events() {
    let expected = vec![
        "meta wa a",
        "delta 說",
        "delta hi",
        "retrying",
        "clean tok-a/wa/4/250 a",
        "meta wb b",
        "delta 好",
        "delta ",
        "delta .",
        "delta rest",
        "success b",
        "done",
        "clean tok-b/wb/4/250 b",
    ];
    for size in 1..40 {
        assert_eq!(events_with_chunks_of(size), expected);
    }
}
