//! The answer orchestrator: validates the query, checks the corpus, hands
//! out the embedding work, retrieves and assembles the prompt, selects the
//! generation mode, and decides retries and error classification for the
//! generator call. Each step is a pure decision from state and event to the
//! next action; the surrounding process performs the embedding, HTTP and
//! waiting that the decisions call for.

use crate::context::{build_context, context_upto, dedup_sources, included_count};
use crate::index::{hit_views, search_post, HitModel, VectorStore};
use crate::score::valid_embedding;
use crate::strutil::{
    dec_digits, str_contains, str_views, trim_string, trimmed_of, u64_to_string,
};
use vstd::prelude::*;

verus! {

/// How many ranked results a query retrieves.
pub const TOP_K: usize = 5;

/// Word budget for one context snippet.
pub const CONTEXT_WORDS_PER_CHUNK: usize = 150;

/// Word budget for the whole context.
pub const CONTEXT_TOTAL_WORDS: usize = 500;

/// How many times the generator is called before giving up.
pub const MAX_GENERATOR_ATTEMPTS: u64 = 3;

/// Seconds waited between generator attempts.
pub const RETRY_DELAY_SECS: u64 = 2;

/// One HTTP response of the chat endpoint: status code, answer text, and the
/// source documents the answer drew on.
pub struct ChatReply {
    pub status: u16,
    pub answer: String,
    pub sources: Vec<String>,
}

/// Generator invocation parameters of a named mode. The temperature is kept
/// in tenths.
#[derive(Clone, Copy, PartialEq, Eq, Structural, Debug)]
pub struct ModeParams {
    pub temperature_tenths: u64,
    pub context_window: u64,
    pub max_tokens: u64,
    pub timeout_secs: u64,
}

/// The two named modes: `deep` trades latency for context and length,
/// `quick` answers concisely.
pub open spec fn mode_spec(deep_think: bool) -> ModeParams {
    if deep_think {
        ModeParams { temperature_tenths: 1, context_window: 2048, max_tokens: 384, timeout_secs: 120 }
    } else {
        ModeParams { temperature_tenths: 7, context_window: 1024, max_tokens: 192, timeout_secs: 60 }
    }
}

/// Selects the generation mode from the caller's flag.
pub fn mode_params(deep_think: bool) -> (r: ModeParams)
    ensures
        r == mode_spec(deep_think),
{
    if deep_think {
        ModeParams { temperature_tenths: 1, context_window: 2048, max_tokens: 384, timeout_secs: 120 }
    } else {
        ModeParams { temperature_tenths: 7, context_window: 1024, max_tokens: 192, timeout_secs: 60 }
    }
}

/// First step of a chat query: either an immediate reply, or the trimmed
/// query to be embedded.
pub enum ChatStart {
    Reply(ChatReply),
    Embed(String),
}

/// Validates the query and checks the corpus. An all-whitespace query and an
/// empty index are answered at once, with no embedding work at all.
pub fn chat_begin(query: &str, corpus_count: usize) -> (r: ChatStart)
    ensures
        trimmed_of(query@).len() == 0 ==> (r matches ChatStart::Reply(rep) && rep.status == 200
            && rep.answer@ == "Ask something!"@ && rep.sources@.len() == 0),
        trimmed_of(query@).len() > 0 && corpus_count == 0 ==> (r matches ChatStart::Reply(rep)
            && rep.status == 200 && rep.answer@
            == "⚠️ Please upload some documents first! Use the upload section to add PDF or Markdown files."@
            && rep.sources@.len() == 0),
        trimmed_of(query@).len() > 0 && corpus_count > 0 ==> (r matches ChatStart::Embed(q) && q@
            == trimmed_of(query@)),
{
    let trimmed = trim_string(query);
    if trimmed.as_str().is_empty() {
        return ChatStart::Reply(
            ChatReply {
                status: 200,
                answer: String::from_str("Ask something!"),
                sources: Vec::new(),
            },
        );
    }
    if corpus_count == 0 {
        return ChatStart::Reply(
            ChatReply {
                status: 200,
                answer: String::from_str(
                    "⚠️ Please upload some documents first! Use the upload section to add PDF or Markdown files.",
                ),
                sources: Vec::new(),
            },
        );
    }
    ChatStart::Embed(trimmed)
}

/// Second step: either an internal-error reply, or the query embedding to
/// retrieve with.
pub enum EmbedStep {
    Reply(ChatReply),
    Retrieve(Vec<i64>),
}

/// Maps the embedding capability's outcome: a failure or an empty batch ends
/// the query as an internal error; otherwise the first vector is the query
/// embedding.
pub fn chat_on_embedding(outcome: Result<Vec<Vec<i64>>, String>) -> (r: EmbedStep)
    ensures
        (outcome matches Err(e) ==> (r matches EmbedStep::Reply(rep) && rep.status == 500
            && rep.answer@ == "Failed to generate query embedding: "@ + e@ && rep.sources@.len()
            == 0)),
        (outcome matches Ok(v) ==> ((v@.len() == 0 ==> (r matches EmbedStep::Reply(rep)
            && rep.status == 500 && rep.answer@ == "Failed to generate query embedding"@
            && rep.sources@.len() == 0)) && (v@.len() > 0 ==> (r matches EmbedStep::Retrieve(q)
            && q == v@[0])))),
{
    match outcome {
        Err(e) => {
            let mut answer = String::from_str("Failed to generate query embedding: ");
            answer.append(e.as_str());
            EmbedStep::Reply(ChatReply { status: 500, answer, sources: Vec::new() })
        },
        Ok(mut v) => {
            if v.len() == 0 {
                EmbedStep::Reply(
                    ChatReply {
                        status: 500,
                        answer: String::from_str("Failed to generate query embedding"),
                        sources: Vec::new(),
                    },
                )
            } else {
                let first = v.remove(0);
                EmbedStep::Retrieve(first)
            }
        },
    }
}

/// The fixed grounding prompt around a context and a question.
pub open spec fn prompt_text(context: Seq<char>, q: Seq<char>) -> Seq<char> {
    "Answer using ONLY this context. If not found, say \"I don't know based on the provided documents.\"\n\nContext:\n"@
        + context + "\n\nQuestion: "@ + q + "\n\nAnswer:"@
}

/// Concatenates the grounding instruction, the context and the question.
pub fn build_prompt(context: &str, query: &str) -> (r: String)
    ensures
        r@ == prompt_text(context@, query@),
{
    let mut p = String::from_str(
        "Answer using ONLY this context. If not found, say \"I don't know based on the provided documents.\"\n\nContext:\n",
    );
    p.append(context);
    p.append("\n\nQuestion: ");
    p.append(query);
    p.append("\n\nAnswer:");
    proof {
        assert(p@ =~= prompt_text(context@, query@));
    }
    p
}

/// Everything a generator call needs: the grounded prompt, the mode
/// parameters, and the sources to attach to a successful answer.
pub struct PreparedQuery {
    pub prompt: String,
    pub mode: ModeParams,
    pub sources: Vec<String>,
}

/// Third step: either a no-results reply, or a prepared generator call.
pub enum RetrieveStep {
    Reply(ChatReply),
    Generate(PreparedQuery),
}

/// Retrieves the ranked results for the query embedding, builds the bounded
/// context and the grounded prompt, and selects the mode. With nothing
/// retrieved the query ends with a fixed reply.
pub fn chat_retrieve(
    store: &VectorStore,
    query_embedding: &Vec<i64>,
    query: &str,
    deep_think: bool,
) -> (r: RetrieveStep)
    requires
        store.wf(),
        valid_embedding(query_embedding@),
    ensures
        store@.len() == 0 ==> (r matches RetrieveStep::Reply(rep) && rep.status == 200
            && rep.answer@ == "No relevant information found in the documents."@
            && rep.sources@.len() == 0),
        store@.len() > 0 ==> (r matches RetrieveStep::Generate(pq) && pq.mode == mode_spec(
            deep_think,
        ) && (exists|hits: Seq<HitModel>|
            {
                &&& #[trigger] search_post(store@, query_embedding@, TOP_K as int, hits)
                &&& pq.prompt@ == prompt_text(
                    context_upto(
                        hits,
                        CONTEXT_WORDS_PER_CHUNK as int,
                        included_count(
                            hits,
                            CONTEXT_WORDS_PER_CHUNK as int,
                            CONTEXT_TOTAL_WORDS as int,
                        ),
                    ),
                    query@,
                )
                &&& str_views(pq.sources@) == dedup_sources(
                    hits,
                    included_count(
                        hits,
                        CONTEXT_WORDS_PER_CHUNK as int,
                        CONTEXT_TOTAL_WORDS as int,
                    ),
                )
            })),
{
    let results = store.search(query_embedding, TOP_K);
    if results.is_empty() {
        return RetrieveStep::Reply(
            ChatReply {
                status: 200,
                answer: String::from_str("No relevant information found in the documents."),
                sources: Vec::new(),
            },
        );
    }
    let ghost hits = hit_views(results@);
    proof {
        assert forall|i: int| 0 <= i < results@.len() implies crate::score::score_wf(
            (#[trigger] results@[i])@.score,
        ) by {
            assert(hit_views(results@)[i] == results@[i]@);
        }
    }
    let built = build_context(&results, CONTEXT_WORDS_PER_CHUNK, CONTEXT_TOTAL_WORDS);
    let prompt = build_prompt(built.context.as_str(), query);
    RetrieveStep::Generate(
        PreparedQuery { prompt, mode: mode_params(deep_think), sources: built.sources },
    )
}

/// Why a generator call failed, as the network layer classified it.
pub enum GenFailure {
    /// The connection could not be made: retried.
    Connect(String),
    /// The call timed out: retried.
    Timeout(String),
    /// The generator answered with a non-success status and this body: never
    /// retried.
    Status(u16, String),
    /// The generator answered success but the body was not the expected
    /// shape: never retried.
    MalformedBody(String),
    /// Any other transport failure: never retried.
    Other(String),
}

/// What one generator attempt produced: the generated text, or a classified
/// failure.
pub enum GenOutcome {
    Answer(String),
    Failed(GenFailure),
}

/// What to do after a generator attempt: wait and try again, or reply.
pub enum GenStep {
    Retry(u64, u64),
    Reply(ChatReply),
}

/// Decides the retry policy and the failure classification after generator
/// attempt number `attempt`. Connection and timeout failures are retried
/// after a fixed delay until the attempt limit; every other failure, and any
/// failure on the final attempt, is surfaced at once with a classified
/// diagnostic.
pub fn chat_on_generator(outcome: GenOutcome, attempt: u64, sources: Vec<String>) -> (r: GenStep)
    requires
        1 <= attempt <= MAX_GENERATOR_ATTEMPTS,
    ensures
        (outcome matches GenOutcome::Answer(a) ==> (r matches GenStep::Reply(rep) && rep.status
            == 200 && rep.answer@ == trimmed_of(a@) && rep.sources == sources)),
        (outcome matches GenOutcome::Failed(f) ==> match f {
            GenFailure::Connect(_) => {
                if attempt < MAX_GENERATOR_ATTEMPTS {
                    r == GenStep::Retry(RETRY_DELAY_SECS, (attempt + 1) as u64)
                } else {
                    r matches GenStep::Reply(rep) && rep.status == 502 && rep.answer@
                        == "❌ Cannot connect to Ollama. Please start Ollama:\n\n1. Run: `ollama serve`\n2. In another terminal: `ollama pull phi3`\n3. Try your question again"@
                        && rep.sources@.len() == 0
                }
            },
            GenFailure::Timeout(_) => {
                if attempt < MAX_GENERATOR_ATTEMPTS {
                    r == GenStep::Retry(RETRY_DELAY_SECS, (attempt + 1) as u64)
                } else {
                    r matches GenStep::Reply(rep) && rep.status == 502 && rep.answer@
                        == "⏱️ Ollama took too long to respond. The model might be loading for the first time, or the query is too complex. Try again or use a simpler question."@
                        && rep.sources@.len() == 0
                }
            },
            GenFailure::Status(code, body) => {
                r matches GenStep::Reply(rep) && rep.status == 502 && rep.sources@.len() == 0 && (
                if crate::strutil::contains_seq(body@, "not found"@) || crate::strutil::contains_seq(
                    body@,
                    "does not exist"@,
                ) {
                    rep.answer@ == "❌ Model 'phi3' not found. Please run: `ollama pull phi3`"@
                } else {
                    rep.answer@ == "Ollama error: "@ + dec_digits(code as nat) + " - "@ + body@
                })
            },
            GenFailure::MalformedBody(e) => {
                r matches GenStep::Reply(rep) && rep.status == 500 && rep.sources@.len() == 0
                    && rep.answer@ == "Failed to parse Ollama response: "@ + e@
            },
            GenFailure::Other(m) => {
                r matches GenStep::Reply(rep) && rep.status == 502 && rep.sources@.len() == 0
                    && rep.answer@ == "❌ Ollama connection error: "@ + m@
                        + "\n\nMake sure Ollama is running with: `ollama serve`"@
            },
        }),
{
    match outcome {
        GenOutcome::Answer(a) => {
            let answer = trim_string(a.as_str());
            GenStep::Reply(ChatReply { status: 200, answer, sources })
        },
        GenOutcome::Failed(f) => match f {
            GenFailure::Connect(_) => {
                if attempt < MAX_GENERATOR_ATTEMPTS {
                    GenStep::Retry(RETRY_DELAY_SECS, attempt + 1)
                } else {
                    GenStep::Reply(
                        ChatReply {
                            status: 502,
                            answer: String::from_str(
                                "❌ Cannot connect to Ollama. Please start Ollama:\n\n1. Run: `ollama serve`\n2. In another terminal: `ollama pull phi3`\n3. Try your question again",
                            ),
                            sources: Vec::new(),
                        },
                    )
                }
            },
            GenFailure::Timeout(_) => {
                if attempt < MAX_GENERATOR_ATTEMPTS {
                    GenStep::Retry(RETRY_DELAY_SECS, attempt + 1)
                } else {
                    GenStep::Reply(
                        ChatReply {
                            status: 502,
                            answer: String::from_str(
                                "⏱️ Ollama took too long to respond. The model might be loading for the first time, or the query is too complex. Try again or use a simpler question.",
                            ),
                            sources: Vec::new(),
                        },
                    )
                }
            },
            GenFailure::Status(code, body) => {
                let model_missing = str_contains(body.as_str(), "not found") || str_contains(
                    body.as_str(),
                    "does not exist",
                );
                if model_missing {
                    GenStep::Reply(
                        ChatReply {
                            status: 502,
                            answer: String::from_str(
                                "❌ Model 'phi3' not found. Please run: `ollama pull phi3`",
                            ),
                            sources: Vec::new(),
                        },
                    )
                } else {
                    let mut answer = String::from_str("Ollama error: ");
                    let code_text = u64_to_string(code as u64);
                    answer.append(code_text.as_str());
                    answer.append(" - ");
                    answer.append(body.as_str());
                    GenStep::Reply(ChatReply { status: 502, answer, sources: Vec::new() })
                }
            },
            GenFailure::MalformedBody(e) => {
                let mut answer = String::from_str("Failed to parse Ollama response: ");
                answer.append(e.as_str());
                GenStep::Reply(ChatReply { status: 500, answer, sources: Vec::new() })
            },
            GenFailure::Other(m) => {
                let mut answer = String::from_str("❌ Ollama connection error: ");
                answer.append(m.as_str());
                answer.append("\n\nMake sure Ollama is running with: `ollama serve`");
                GenStep::Reply(ChatReply { status: 502, answer, sources: Vec::new() })
            },
        },
    }
}

} // verus!
