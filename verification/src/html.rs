//! The boundary to the HTML parser. The crawl core never looks inside a
//! parsed document: it only needs the anchor elements' link targets, in
//! document order, and hands the document itself through to the caller.

use vstd::prelude::*;

verus! {

#[verifier::external_type_specification]
#[verifier::external_body]
pub struct ExDocument(select::document::Document);

/// The `href` attribute values of the anchor elements of an HTML document, in
/// document order. Parsing is a function of the bytes alone, so the sequence
/// is too; nothing more is assumed of it.
pub uninterp spec fn hrefs_of(body: Seq<u8>) -> Seq<Seq<u8>>;

/// Relies on select's `Document::from`, `Document::find` with the `Name("a")`
/// predicate, and `Node::attr`: parses the bytes (lossily decoded as UTF-8) as
/// an HTML document and hands back the document together with each anchor
/// element's `href` value, in document order.
#[verifier::external_body]
pub(crate) fn parse_page(body: &[u8]) -> (r: (select::document::Document, Vec<Vec<u8>>))
    ensures
        r.1.deep_view() == hrefs_of(body@),
{
    let text = String::from_utf8_lossy(body);
    let doc = select::document::Document::from(text.as_ref());
    let mut hrefs: Vec<Vec<u8>> = Vec::new();
    for node in doc.find(select::predicate::Name("a")) {
        if let Some(h) = node.attr("href") {
            hrefs.push(h.as_bytes().to_vec());
        }
    }
    (doc, hrefs)
}

} // verus!
