//! Per-file upload processing and the delete outcome: extension dispatch,
//! extraction, the blank-text check, chunking, the per-file error taxonomy
//! with its user-facing messages, and the upload batch status. One file's
//! failure never aborts the batch; the caller collects errors per file.
//!
//! PDF processing is two-staged: `prepare_document` finishes whenever the
//! primary parser yields text, and otherwise asks the caller to run the
//! fallback extractor — which can panic on unsupported font encodings, so it
//! runs outside the library — and hand its outcome to
//! `prepare_pdf_fallback`.

use crate::chunker::{chunk_text, chunk_texts, ChunkConfig};
use crate::extract::{
    extract_text_from_md, extract_pdf_primary, pdf_parse_ok, pdf_primary_text,
    resolve_pdf_fallback,
};
use crate::strutil::{
    dec_digits, decoded_utf8, str_ends_with, str_views, trim_string, trimmed_of, u64_to_string,
    words_of,
};
use vstd::prelude::*;

verus! {

/// Why one uploaded file was rejected.
#[derive(Debug)]
pub enum IngestError {
    /// The file extension is not recognized.
    UnsupportedFormat,
    /// The bytes could not be decoded or parsed; the detail text says why.
    DecodeFailure(String),
    /// Parsing succeeded but yielded no usable text.
    EmptyExtraction,
}

/// What processing one uploaded file comes to: its chunks, a rejection, or a
/// request to run the fallback PDF extractor at the caller's boundary.
pub enum PrepareStep {
    Ready(Vec<String>),
    NeedPdfFallback,
    Rejected(IngestError),
}

/// Checks the extension, extracts the text, rejects whitespace-only
/// extractions, and chunks the text with the given configuration. Only
/// Markdown and PDF files are accepted; a PDF whose primary extraction
/// yields nothing asks for the fallback extractor instead of deciding.
pub fn prepare_document(filename: &str, content: &Vec<u8>, cfg: &ChunkConfig) -> (r: PrepareStep)
    requires
        cfg.valid(),
    ensures
        (!crate::strutil::ends_with_seq(filename@, ".md"@) && !crate::strutil::ends_with_seq(
            filename@,
            ".pdf"@,
        ) ==> (r matches PrepareStep::Rejected(e) && e is UnsupportedFormat)),
        (crate::strutil::ends_with_seq(filename@, ".md"@) ==> match decoded_utf8(content@) {
            Option::None => (r matches PrepareStep::Rejected(e) && e is DecodeFailure),
            Option::Some(t) => {
                if trimmed_of(t).len() == 0 {
                    (r matches PrepareStep::Rejected(e) && e is EmptyExtraction)
                } else {
                    (r matches PrepareStep::Ready(c) && str_views(c@) == chunk_texts(
                        words_of(t),
                        cfg.size_words as int,
                        cfg.overlap_words as int,
                    ))
                }
            },
        }),
        (crate::strutil::ends_with_seq(filename@, ".pdf"@) && !crate::strutil::ends_with_seq(
            filename@,
            ".md"@,
        ) ==> ({
            if pdf_parse_ok(content@) && trimmed_of(pdf_primary_text(content@)).len() > 0 {
                (r matches PrepareStep::Ready(c) && str_views(c@) == chunk_texts(
                    words_of(pdf_primary_text(content@)),
                    cfg.size_words as int,
                    cfg.overlap_words as int,
                ))
            } else {
                r is NeedPdfFallback
            }
        })),
        (crate::strutil::ends_with_seq(filename@, ".pdf"@) ==> !(r matches PrepareStep::Rejected(
            e,
        ) && e is UnsupportedFormat)),
        (r matches PrepareStep::Ready(c) ==> c@.len() > 0 && (forall|i: int|
            0 <= i < c@.len() ==> (#[trigger] c@[i])@.len() > 0)),
        (r matches PrepareStep::Ready(c) ==> exists|t: Seq<char>|
            #![trigger words_of(t)]
            trimmed_of(t).len() > 0 && str_views(c@) == chunk_texts(
                words_of(t),
                cfg.size_words as int,
                cfg.overlap_words as int,
            )),
{
    let text: String = if str_ends_with(filename, ".md") {
        match extract_text_from_md(content) {
            Ok(t) => t,
            Err(e) => {
                return PrepareStep::Rejected(IngestError::DecodeFailure(e));
            },
        }
    } else if str_ends_with(filename, ".pdf") {
        proof {
            reveal_strlit(".md");
            reveal_strlit(".pdf");
        }
        match extract_pdf_primary(content) {
            Some(t) => t,
            None => {
                return PrepareStep::NeedPdfFallback;
            },
        }
    } else {
        return PrepareStep::Rejected(IngestError::UnsupportedFormat);
    };
    let tr = trim_string(text.as_str());
    if tr.as_str().is_empty() {
        return PrepareStep::Rejected(IngestError::EmptyExtraction);
    }
    let chunks = chunk_text(text.as_str(), cfg.size_words, cfg.overlap_words);
    PrepareStep::Ready(chunks)
}

/// Finishes PDF processing from the fallback extractor's outcome: its text
/// is chunked when not all whitespace; otherwise the file is rejected with
/// the extraction failure, never as an unsupported format.
pub fn prepare_pdf_fallback(outcome: Result<String, String>, cfg: &ChunkConfig) -> (r: Result<
    Vec<String>,
    IngestError,
>)
    requires
        cfg.valid(),
    ensures
        (outcome matches Ok(t) ==> {
            if trimmed_of(t@).len() == 0 {
                (r matches Err(e) && e matches IngestError::DecodeFailure(m) && m@
                    == "PDF contains no extractable text"@)
            } else {
                (r matches Ok(c) && str_views(c@) == chunk_texts(
                    words_of(t@),
                    cfg.size_words as int,
                    cfg.overlap_words as int,
                ))
            }
        }),
        (outcome matches Err(d) ==> (r matches Err(e) && e matches IngestError::DecodeFailure(m)
            && m@ == "Failed to extract PDF text: "@ + d@)),
        (r matches Ok(c) ==> c@.len() > 0 && (forall|i: int|
            0 <= i < c@.len() ==> (#[trigger] c@[i])@.len() > 0)),
        (r matches Ok(c) ==> exists|t: Seq<char>|
            #![trigger words_of(t)]
            trimmed_of(t).len() > 0 && str_views(c@) == chunk_texts(
                words_of(t),
                cfg.size_words as int,
                cfg.overlap_words as int,
            )),
{
    match resolve_pdf_fallback(outcome) {
        Ok(t) => {
            let chunks = chunk_text(t.as_str(), cfg.size_words, cfg.overlap_words);
            Ok(chunks)
        },
        Err(e) => Err(IngestError::DecodeFailure(e)),
    }
}

/// The per-file error line that the upload response collects.
pub fn ingest_error_message(filename: &str, e: &IngestError) -> (r: String)
    ensures
        (e is UnsupportedFormat ==> r@ == "Unsupported file type: "@ + filename@),
        (e matches IngestError::DecodeFailure(d) ==> r@ == "Failed to parse "@ + filename@ + ": "@
            + d@),
        (e is EmptyExtraction ==> r@ == "No text extracted from "@ + filename@),
{
    match e {
        IngestError::UnsupportedFormat => {
            let mut m = String::from_str("Unsupported file type: ");
            m.append(filename);
            m
        },
        IngestError::DecodeFailure(d) => {
            let mut m = String::from_str("Failed to parse ");
            m.append(filename);
            m.append(": ");
            m.append(d.as_str());
            m
        },
        IngestError::EmptyExtraction => {
            let mut m = String::from_str("No text extracted from ");
            m.append(filename);
            m
        },
    }
}

/// The error line for an embedding failure over one file's chunks.
pub fn embedding_failure_message(filename: &str, detail: &str) -> (r: String)
    ensures
        r@ == "Failed to generate embeddings for "@ + filename@ + ": "@ + detail@,
{
    let mut m = String::from_str("Failed to generate embeddings for ");
    m.append(filename);
    m.append(": ");
    m.append(detail);
    m
}

/// The upload batch status: bad request exactly when every file failed and
/// at least one error was recorded; success otherwise, partial failures
/// included.
pub fn upload_status(processed_count: usize, error_count: usize) -> (r: u16)
    ensures
        r == 400 <==> (processed_count == 0 && error_count > 0),
        r == 400 || r == 200,
{
    if processed_count == 0 && error_count > 0 {
        400
    } else {
        200
    }
}

/// The delete endpoint's reply.
pub struct DeleteReply {
    pub status: u16,
    pub status_text: String,
    pub message: String,
}

/// Maps a deletion's removed-chunk count to the endpoint reply: success when
/// anything was removed, not-found otherwise.
pub fn delete_outcome(filename: &str, removed: usize) -> (r: DeleteReply)
    ensures
        removed > 0 ==> r.status == 200 && r.status_text@ == "success"@ && r.message@
            == "Removed "@ + dec_digits(removed as nat) + " chunks from "@ + filename@,
        removed == 0 ==> r.status == 404 && r.status_text@ == "error"@ && r.message@
            == "Document "@ + filename@ + " not found"@,
{
    if removed > 0 {
        let mut m = String::from_str("Removed ");
        let count_text = u64_to_string(removed as u64);
        m.append(count_text.as_str());
        m.append(" chunks from ");
        m.append(filename);
        DeleteReply { status: 200, status_text: String::from_str("success"), message: m }
    } else {
        let mut m = String::from_str("Document ");
        m.append(filename);
        m.append(" not found");
        DeleteReply { status: 404, status_text: String::from_str("error"), message: m }
    }
}

} // verus!
