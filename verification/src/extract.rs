//! The schedule extractor: scan the inline script blocks of an HTML document
//! for the `var confData` assignment and isolate its object literal — the
//! text from the first `{` to the last `}` of that block. The heuristic is
//! brittle by nature, so it fails closed: a missing marker and a malformed
//! block are distinct errors, and nothing here guesses.

use vstd::prelude::*;

use crate::text::{contains_pat, contains_str, find_char, find_char_str, rfind_char,
    rfind_char_str};

verus! {

/// Why an extraction failed: no script block carries the marker, or the
/// first block that does holds no well-formed object literal.
#[derive(Clone, Copy, Debug, PartialEq, Eq, Structural)]
pub enum ExtractError {
    MarkerNotFound,
    Malformed,
}

/// The marker that singles out the script block holding the schedule.
pub open spec fn marker_chars() -> Seq<char> {
    "var confData"@
}

/// The object literal inside a marked script block: the text from the first
/// `{` to the last `}`, or a malformation error when the braces are missing
/// or cross.
pub open spec fn object_literal(s: Seq<char>) -> Result<Seq<char>, ExtractError> {
    match (find_char(s, '{'), rfind_char(s, '}')) {
        (Some(a), Some(b)) => if a <= b {
            Ok(s.subrange(a, b + 1))
        } else {
            Err(ExtractError::Malformed)
        },
        _ => Err(ExtractError::Malformed),
    }
}

/// What extraction answers on a document's script blocks, in document order:
/// the object literal of the first block containing the marker, or the error
/// that says why there is none.
pub open spec fn extracted(scripts: Seq<Seq<char>>) -> Result<Seq<char>, ExtractError>
    decreases scripts.len(),
{
    if scripts.len() == 0 {
        Err(ExtractError::MarkerNotFound)
    } else if contains_pat(scripts[0], marker_chars()) {
        object_literal(scripts[0])
    } else {
        extracted(scripts.drop_first())
    }
}

/// Isolate the object literal of a marked script block.
fn object_literal_of(s: &str) -> (r: Result<String, ExtractError>)
    ensures
        ({
            let spec_r = object_literal(s@);
            match r {
                Ok(t) => spec_r == Ok::<Seq<char>, ExtractError>(t@),
                Err(e) => spec_r == Err::<Seq<char>, ExtractError>(e),
            }
        }),
{
    let a = match find_char_str(s, '{') {
        Some(a) => a,
        None => {
            return Err(ExtractError::Malformed);
        },
    };
    let b = match rfind_char_str(s, '}') {
        Some(b) => b,
        None => {
            return Err(ExtractError::Malformed);
        },
    };
    if a <= b {
        let end = s.unicode_len();
        proof {
            crate::text::lemma_rfind_char(s@, '}');
            assert(b < end);
        }
        Ok(s.substring_char(a, b + 1).to_owned())
    } else {
        Err(ExtractError::Malformed)
    }
}

/// Find the schedule's object literal among a document's script block texts,
/// given in document order.
pub fn extract_from_scripts(scripts: &Vec<String>) -> (r: Result<String, ExtractError>)
    ensures
        ({
            let spec_r = extracted(scripts.deep_view());
            match r {
                Ok(t) => spec_r == Ok::<Seq<char>, ExtractError>(t@),
                Err(e) => spec_r == Err::<Seq<char>, ExtractError>(e),
            }
        }),
{
    let ghost dv = scripts.deep_view();
    let n = scripts.len();
    proof {
        assert(dv.skip(0) =~= dv);
    }
    let mut i: usize = 0;
    while i < n
        invariant
            0 <= i <= n,
            n == scripts@.len(),
            dv == scripts.deep_view(),
            dv.len() == n,
            extracted(dv) == extracted(dv.skip(i as int)),
        decreases n - i,
    {
        proof {
            assert(dv[i as int] == scripts@[i as int]@);
            assert(dv.skip(i as int).drop_first() =~= dv.skip(i + 1));
            assert(dv.skip(i as int)[0] == dv[i as int]);
        }
        let marker = "var confData";
        proof {
            assert(marker@ == marker_chars());
        }
        if contains_str(scripts[i].as_str(), marker) {
            return object_literal_of(scripts[i].as_str());
        }
        i += 1;
    }
    proof {
        assert(dv.skip(n as int) =~= Seq::<Seq<char>>::empty());
    }
    Err(ExtractError::MarkerNotFound)
}

/// The text content of each inline script block of an HTML document, in
/// document order. The result is a function of the document text alone.
pub uninterp spec fn script_texts_of(html: Seq<char>) -> Seq<Seq<char>>;

/// Relies on scraper's `Html::parse_document`, `Selector::parse` and
/// `ElementRef::text`: the concatenated text of each `script` element of the
/// parsed document, in document order — a function of the document alone.
#[verifier::external_body]
fn script_texts(html: &str) -> (r: Vec<String>)
    ensures
        r.deep_view() == script_texts_of(html@),
{
    let doc = scraper::Html::parse_document(html);
    let selector = scraper::Selector::parse("script").unwrap();
    doc.select(&selector).map(|s| s.text().collect::<String>()).collect()
}

/// Extract the schedule's object literal from a complete HTML document: take
/// the script blocks in document order, find the first one marked with the
/// `var confData` assignment, and isolate its object literal.
pub fn extract_conf(html: &str) -> (r: Result<String, ExtractError>)
    ensures
        ({
            let spec_r = extracted(script_texts_of(html@));
            match r {
                Ok(t) => spec_r == Ok::<Seq<char>, ExtractError>(t@),
                Err(e) => spec_r == Err::<Seq<char>, ExtractError>(e),
            }
        }),
{
    let scripts = script_texts(html);
    extract_from_scripts(&scripts)
}

} // verus!
