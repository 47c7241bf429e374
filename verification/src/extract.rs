//! Document byte-to-text extraction. Markdown is UTF-8 decoding. PDF has two
//! stages: a primary parse reads the pages here, and when it fails or yields
//! only whitespace, a fallback extractor runs *outside* the library — that
//! extractor can panic on font encodings it does not support, so the caller
//! runs it at the unverified boundary and hands its outcome to
//! `resolve_pdf_fallback`, which decides the result for every outcome.
//!
//! The primary parser computes from the bytes alone, so its outcomes carry
//! names the contracts here speak of exactly: which bytes parse, what pages
//! they have, and what each page yields.

use crate::strutil::{decode_utf8, decoded_utf8, trim_string, trimmed_of};
use vstd::prelude::*;

verus! {

/// Relies on `lopdf::Document`: a parsed PDF, opaque to the library.
#[verifier::external_type_specification]
#[verifier::external_body]
pub struct ExPdfDocument(lopdf::Document);

/// Whether `lopdf::Document::load_mem` parses these bytes.
pub uninterp spec fn pdf_parse_ok(bytes: Seq<u8>) -> bool;

/// The page numbers `lopdf::Document::get_pages` reports for these bytes,
/// in the order its page map yields them.
pub uninterp spec fn pdf_pages_of(bytes: Seq<u8>) -> Seq<u32>;

/// The text `lopdf::Document::extract_text` yields for one page of these
/// bytes, when it succeeds.
pub uninterp spec fn pdf_page_text_of(bytes: Seq<u8>, page: u32) -> Option<Seq<char>>;

/// A parsed PDF paired with the bytes it was parsed from, so that page
/// queries can be stated over the bytes. The contracts of the wrappers below
/// are sound because the two fields always belong together: both are
/// private, and `pdf_open` is the only constructor.
struct PdfDoc {
    inner: lopdf::Document,
    bytes: Ghost<Seq<u8>>,
}

/// Relies on `lopdf::Document::load_mem`: parses a PDF from bytes, a
/// function of the bytes alone; malformed input yields an error, never a
/// panic. The error is rendered to its display text, about which nothing is
/// claimed.
#[verifier::external_body]
fn pdf_load(bytes: &Vec<u8>) -> (r: Result<lopdf::Document, String>)
    ensures
        r is Ok <==> pdf_parse_ok(bytes@),
{
    lopdf::Document::load_mem(bytes.as_slice()).map_err(|e| e.to_string())
}

/// Parses the bytes and pairs the document with them.
fn pdf_open(content: &Vec<u8>) -> (r: Result<PdfDoc, String>)
    ensures
        r is Ok <==> pdf_parse_ok(content@),
        (r matches Ok(d) ==> d.bytes@ == content@),
{
    match pdf_load(content) {
        Ok(doc) => Ok(PdfDoc { inner: doc, bytes: Ghost(content@) }),
        Err(e) => Err(e),
    }
}

/// Relies on `lopdf::Document::get_pages`: the document's page numbers, a
/// function of the parsed bytes alone.
#[verifier::external_body]
fn pdf_page_numbers(doc: &PdfDoc) -> (r: Vec<u32>)
    ensures
        r@ == pdf_pages_of(doc.bytes@),
{
    doc.inner.get_pages().into_keys().collect()
}

/// Relies on `lopdf::Document::extract_text`: the text of one page, a
/// function of the parsed bytes and the page number alone. The error is
/// rendered to its display text, about which nothing is claimed.
#[verifier::external_body]
fn pdf_page_text(doc: &PdfDoc, page: u32) -> (r: Result<String, String>)
    ensures
        r is Ok <==> pdf_page_text_of(doc.bytes@, page) is Some,
        (r matches Ok(t) ==> Some(t@) == pdf_page_text_of(doc.bytes@, page)),
{
    doc.inner.extract_text(&[page]).map_err(|e| e.to_string())
}

/// The primary extraction: each page's text followed by a line break, in
/// page order, pages that fail skipped.
pub open spec fn pages_text_concat(bytes: Seq<u8>, pages: Seq<u32>) -> Seq<char>
    decreases pages.len(),
{
    if pages.len() == 0 {
        Seq::empty()
    } else {
        pages_text_concat(bytes, pages.drop_last()) + (match pdf_page_text_of(
            bytes,
            pages.last(),
        ) {
            Option::Some(t) => t + seq!['\n'],
            Option::None => Seq::empty(),
        })
    }
}

/// What the primary extractor yields for these bytes over all their pages.
pub open spec fn pdf_primary_text(bytes: Seq<u8>) -> Seq<char> {
    pages_text_concat(bytes, pdf_pages_of(bytes))
}

/// Decodes Markdown bytes as UTF-8: succeeds exactly on valid UTF-8 and
/// returns the decoded text unchanged.
pub fn extract_text_from_md(content: &Vec<u8>) -> (r: Result<String, String>)
    ensures
        r is Ok <==> decoded_utf8(content@) is Some,
        (r matches Ok(t) ==> Some(t@) == decoded_utf8(content@)),
        (r matches Err(e) ==> e@.len() >= 15 && e@.subrange(0, 15) == "Invalid UTF-8: "@),
{
    match decode_utf8(content) {
        Ok(t) => Ok(t),
        Err(m) => {
            let mut e = String::from_str("Invalid UTF-8: ");
            e.append(m.as_str());
            proof {
                reveal_strlit("Invalid UTF-8: ");
                assert(e@.subrange(0, 15) =~= "Invalid UTF-8: "@);
            }
            Err(e)
        },
    }
}

/// The primary PDF extraction: parses the bytes and concatenates the page
/// texts. Yields the concatenation exactly when the bytes parse and the
/// pages are not all whitespace; otherwise the caller must run the fallback
/// extractor and decide with `resolve_pdf_fallback`.
pub fn extract_pdf_primary(content: &Vec<u8>) -> (r: Option<String>)
    ensures
        r is Some <==> (pdf_parse_ok(content@) && trimmed_of(pdf_primary_text(content@)).len()
            > 0),
        (r matches Some(t) ==> t@ == pdf_primary_text(content@) && trimmed_of(t@).len() > 0),
{
    let opened = pdf_open(content);
    match opened {
        Ok(doc) => {
            let pages = pdf_page_numbers(&doc);
            let mut text = String::new();
            let mut i: usize = 0;
            proof {
                reveal_strlit("\n");
                assert("\n"@ =~= seq!['\n']);
                assert(text@ =~= pages_text_concat(content@, pages@.take(0)));
            }
            while i < pages.len()
                invariant
                    i <= pages@.len(),
                    pages@ == pdf_pages_of(content@),
                    doc.bytes@ == content@,
                    "\n"@ == seq!['\n'],
                    text@ == pages_text_concat(content@, pages@.take(i as int)),
                decreases pages@.len() - i,
            {
                let page_result = pdf_page_text(&doc, pages[i]);
                proof {
                    assert(pages@.take(i as int + 1).drop_last() =~= pages@.take(i as int));
                    assert(pages@.take(i as int + 1).last() == pages@[i as int]);
                }
                match page_result {
                    Ok(t) => {
                        text.append(t.as_str());
                        text.append("\n");
                        proof {
                            assert(text@ =~= pages_text_concat(
                                content@,
                                pages@.take(i as int + 1),
                            ));
                        }
                    },
                    Err(_) => {
                        proof {
                            assert(text@ =~= pages_text_concat(
                                content@,
                                pages@.take(i as int + 1),
                            ));
                        }
                    },
                }
                i = i + 1;
            }
            proof {
                assert(pages@.take(pages@.len() as int) =~= pages@);
                assert(text@ == pdf_primary_text(content@));
            }
            let tr = trim_string(text.as_str());
            if !tr.as_str().is_empty() {
                Some(text)
            } else {
                None
            }
        },
        Err(_) => None,
    }
}

/// Decides the PDF extraction result from the fallback extractor's outcome,
/// for the bytes whose primary extraction yielded nothing: the fallback's
/// text when it is not all whitespace, the fixed no-text error when it is,
/// and a prefixed error when the fallback failed. A returned text is never
/// all whitespace.
pub fn resolve_pdf_fallback(outcome: Result<String, String>) -> (r: Result<String, String>)
    ensures
        (outcome matches Ok(t) ==> {
            if trimmed_of(t@).len() == 0 {
                (r matches Err(e) && e@ == "PDF contains no extractable text"@)
            } else {
                (r matches Ok(u) && u@ == t@)
            }
        }),
        (outcome matches Err(d) ==> (r matches Err(e) && e@ == "Failed to extract PDF text: "@
            + d@)),
        (r matches Ok(t) ==> trimmed_of(t@).len() > 0),
{
    match outcome {
        Ok(t) => {
            let tr = trim_string(t.as_str());
            if tr.as_str().is_empty() {
                Err(String::from_str("PDF contains no extractable text"))
            } else {
                Ok(t)
            }
        },
        Err(d) => {
            let mut m = String::from_str("Failed to extract PDF text: ");
            m.append(d.as_str());
            Err(m)
        },
    }
}

} // verus!
