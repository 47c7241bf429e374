use rag_core::index::VectorStore;
use rag_core::orchestrator::{
    build_prompt, chat_begin, chat_on_embedding, chat_on_generator, chat_retrieve, mode_params,
    ChatStart, EmbedStep, GenFailure, GenOutcome, GenStep, RetrieveStep, MAX_GENERATOR_ATTEMPTS,
    RETRY_DELAY_SECS,
};

#[test]
fn empty_query_is_answered_without_any_embedding() {
    match chat_begin("", 7) {
        ChatStart::Reply(rep) => {
            assert_eq!(rep.status, 200);
            assert_eq!(rep.answer, "Ask something!");
            assert!(rep.sources.is_empty());
        },
        ChatStart::Embed(_) => panic!("an empty query must not be embedded"),
    }
}

#[test]
fn whitespace_query_counts_as_empty() {
    match chat_begin("  \t \n ", 7) {
        ChatStart::Reply(rep) => {
            assert_eq!(rep.status, 200);
            assert_eq!(rep.answer, "Ask something!");
        },
        ChatStart::Embed(_) => panic!("a whitespace query must not be embedded"),
    }
}

#[test]
fn empty_index_is_answered_without_any_embedding() {
    match chat_begin("x", 0) {
        ChatStart::Reply(rep) => {
            assert_eq!(rep.status, 200);
            assert_eq!(
                rep.answer,
                "⚠️ Please upload some documents first! Use the upload section to add PDF or Markdown files."
            );
            assert!(rep.sources.is_empty());
        },
        ChatStart::Embed(_) => panic!("an empty index must not trigger embedding"),
    }
}

#[test]
fn valid_query_proceeds_trimmed_to_embedding() {
    match chat_begin("  what is this?  ", 3) {
        ChatStart::Embed(q) => assert_eq!(q, "what is this?"),
        ChatStart::Reply(_) => panic!("a valid query over a non-empty index proceeds"),
    }
}

#[test]
fn embedding_failure_is_an_internal_error() {
    match chat_on_embedding(Err("boom".to_string())) {
        EmbedStep::Reply(rep) => {
            assert_eq!(rep.status, 500);
            assert_eq!(rep.answer, "Failed to generate query embedding: boom");
            assert!(rep.sources.is_empty());
        },
        EmbedStep::Retrieve(_) => panic!("a failed embedding must not retrieve"),
    }
}

#[test]
fn empty_embedding_batch_is_an_internal_error() {
    match chat_on_embedding(Ok(Vec::new())) {
        EmbedStep::Reply(rep) => {
            assert_eq!(rep.status, 500);
            assert_eq!(rep.answer, "Failed to generate query embedding");
        },
        EmbedStep::Retrieve(_) => panic!("an empty batch must not retrieve"),
    }
}

#[test]
fn first_embedding_of_the_batch_is_used() {
    match chat_on_embedding(Ok(vec![vec![1, 2], vec![3, 4]])) {
        EmbedStep::Retrieve(q) => assert_eq!(q, vec![1, 2]),
        EmbedStep::Reply(_) => panic!("a non-empty batch proceeds"),
    }
}

#[test]
fn modes_are_the_two_named_quadruples() {
    let deep = mode_params(true);
    assert_eq!(deep.temperature_tenths, 1);
    assert_eq!(deep.context_window, 2048);
    assert_eq!(deep.max_tokens, 384);
    assert_eq!(deep.timeout_secs, 120);
    let quick = mode_params(false);
    assert_eq!(quick.temperature_tenths, 7);
    assert_eq!(quick.context_window, 1024);
    assert_eq!(quick.max_tokens, 192);
    assert_eq!(quick.timeout_secs, 60);
}

#[test]
fn prompt_carries_the_grounding_instruction_context_and_question() {
    let p = build_prompt("CTX", "why?");
    assert_eq!(
        p,
        "Answer using ONLY this context. If not found, say \"I don't know based on the provided documents.\"\n\nContext:\nCTX\n\nQuestion: why?\n\nAnswer:"
    );
    assert!(p.contains("I don't know based on the provided documents."));
}

#[test]
fn retrieval_over_an_empty_store_ends_with_a_fixed_reply() {
    let store = VectorStore::new();
    match chat_retrieve(&store, &vec![1, 0], "q", false) {
        RetrieveStep::Reply(rep) => {
            assert_eq!(rep.status, 200);
            assert_eq!(rep.answer, "No relevant information found in the documents.");
        },
        RetrieveStep::Generate(_) => panic!("nothing can be retrieved from an empty store"),
    }
}

#[test]
fn retrieval_prepares_a_grounded_generator_call() {
    let mut store = VectorStore::new();
    store.add("the sky is blue".to_string(), vec![1000, 0], "sky.md".to_string());
    match chat_retrieve(&store, &vec![1000, 0], "what color is the sky?", true) {
        RetrieveStep::Generate(pq) => {
            assert!(pq.prompt.contains("the sky is blue"));
            assert!(pq.prompt.contains("Question: what color is the sky?"));
            assert!(pq.prompt.contains("I don't know based on the provided documents."));
            assert_eq!(pq.sources, vec!["sky.md".to_string()]);
            assert_eq!(pq.mode.timeout_secs, 120);
        },
        RetrieveStep::Reply(_) => panic!("a non-empty store yields a generator call"),
    }
}

#[test]
fn successful_generation_returns_the_trimmed_answer_with_sources() {
    let sources = vec!["a.md".to_string()];
    match chat_on_generator(GenOutcome::Answer("  blue.  ".to_string()), 1, sources.clone()) {
        GenStep::Reply(rep) => {
            assert_eq!(rep.status, 200);
            assert_eq!(rep.answer, "blue.");
            assert_eq!(rep.sources, sources);
        },
        GenStep::Retry(_, _) => panic!("an answer is never retried"),
    }
}

#[test]
fn connection_failures_retry_exactly_three_attempts_with_fixed_delay() {
    assert_eq!(MAX_GENERATOR_ATTEMPTS, 3);
    assert_eq!(RETRY_DELAY_SECS, 2);
    let refused = || GenOutcome::Failed(GenFailure::Connect("connection refused".to_string()));
    match chat_on_generator(refused(), 1, Vec::new()) {
        GenStep::Retry(delay, next) => {
            assert_eq!(delay, 2);
            assert_eq!(next, 2);
        },
        GenStep::Reply(_) => panic!("the first connection failure is retried"),
    }
    match chat_on_generator(refused(), 2, Vec::new()) {
        GenStep::Retry(delay, next) => {
            assert_eq!(delay, 2);
            assert_eq!(next, 3);
        },
        GenStep::Reply(_) => panic!("the second connection failure is retried"),
    }
    match chat_on_generator(refused(), 3, Vec::new()) {
        GenStep::Reply(rep) => {
            assert_eq!(rep.status, 502);
            assert_eq!(
                rep.answer,
                "❌ Cannot connect to Ollama. Please start Ollama:\n\n1. Run: `ollama serve`\n2. In another terminal: `ollama pull phi3`\n3. Try your question again"
            );
            assert!(rep.sources.is_empty());
        },
        GenStep::Retry(_, _) => panic!("the third failure ends the query"),
    }
}

#[test]
fn timeouts_retry_and_then_surface_a_timeout_diagnostic() {
    let timed_out = || GenOutcome::Failed(GenFailure::Timeout("deadline".to_string()));
    assert!(matches!(chat_on_generator(timed_out(), 1, Vec::new()), GenStep::Retry(2, 2)));
    assert!(matches!(chat_on_generator(timed_out(), 2, Vec::new()), GenStep::Retry(2, 3)));
    match chat_on_generator(timed_out(), 3, Vec::new()) {
        GenStep::Reply(rep) => {
            assert_eq!(rep.status, 502);
            assert!(rep.answer.starts_with("⏱️ Ollama took too long to respond."));
        },
        GenStep::Retry(_, _) => panic!("the third timeout ends the query"),
    }
}

#[test]
fn status_failures_are_never_retried() {
    let failed = GenOutcome::Failed(GenFailure::Status(500, "boom".to_string()));
    match chat_on_generator(failed, 1, Vec::new()) {
        GenStep::Reply(rep) => {
            assert_eq!(rep.status, 502);
            assert_eq!(rep.answer, "Ollama error: 500 - boom");
        },
        GenStep::Retry(_, _) => panic!("a status failure is surfaced at once"),
    }
}

#[test]
fn missing_model_status_gets_the_guidance_message() {
    let failed = GenOutcome::Failed(
        GenFailure::Status(404, "model 'phi3' not found, try pulling it".to_string()),
    );
    match chat_on_generator(failed, 1, Vec::new()) {
        GenStep::Reply(rep) => {
            assert_eq!(rep.status, 502);
            assert_eq!(rep.answer, "❌ Model 'phi3' not found. Please run: `ollama pull phi3`");
        },
        GenStep::Retry(_, _) => panic!("a status failure is surfaced at once"),
    }
}

#[test]
fn malformed_body_is_an_internal_error_without_retry() {
    let failed = GenOutcome::Failed(GenFailure::MalformedBody("expected field".to_string()));
    match chat_on_generator(failed, 1, Vec::new()) {
        GenStep::Reply(rep) => {
            assert_eq!(rep.status, 500);
            assert_eq!(rep.answer, "Failed to parse Ollama response: expected field");
        },
        GenStep::Retry(_, _) => panic!("a malformed body is surfaced at once"),
    }
}

#[test]
fn other_transport_failures_are_surfaced_with_guidance() {
    let failed = GenOutcome::Failed(GenFailure::Other("dns error".to_string()));
    match chat_on_generator(failed, 1, Vec::new()) {
        GenStep::Reply(rep) => {
            assert_eq!(rep.status, 502);
            assert_eq!(
                rep.answer,
                "❌ Ollama connection error: dns error\n\nMake sure Ollama is running with: `ollama serve`"
            );
        },
        GenStep::Retry(_, _) => panic!("other failures are surfaced at once"),
    }
}

#[test]
fn health_body_is_the_fixed_literal() {
    assert_eq!(rag_core::health_message(), "OK");
}
