//! Payload extraction: locating the embedded JSON assignment inside one
//! HTML report page and stripping its wrapper.

use vstd::prelude::*;
use vstd::string::*;
use crate::errors::ExtractError;

verus! {

/// The inner text of the first script element of the page, as the HTML
/// fragment parser sees it; a function of the page text alone.
pub uninterp spec fn script_text_of(page: Seq<char>) -> Option<Seq<char>>;

/// Relies on scraper: `Html::parse_fragment`, selecting the first `script`
/// element, and `inner_html`.  The result depends on the page text alone.
#[verifier::external_body]
fn first_script_text(page: &str) -> (r: Option<String>)
    ensures
        match r {
            Some(t) => script_text_of(page@) == Some(t@),
            None => script_text_of(page@) is None,
        },
{
    let fragment = scraper::Html::parse_fragment(page);
    let selector = scraper::Selector::parse("script").ok()?;
    let element = fragment.select(&selector).next()?;
    Some(element.inner_html())
}

/// The exact assignment prefix that wraps the payload.
pub open spec fn payload_prefix() -> Seq<char> {
    "window.data = "@
}

/// Whether a script text has the expected wrapper shape: the assignment
/// prefix in front and the statement terminator at the end.
pub open spec fn wrapper_ok(t: Seq<char>) -> bool {
    t.len() >= 15 && t.take(14) == payload_prefix() && t.last() == ';'
}

/// The JSON text inside a well-wrapped script text.
pub open spec fn payload_of(t: Seq<char>) -> Seq<char> {
    t.subrange(14, t.len() - 1)
}

/// The script text under an optional result, empty when there is none.
pub open spec fn opt_text(o: Option<Seq<char>>) -> Seq<char> {
    match o {
        Some(t) => t,
        None => Seq::<char>::empty(),
    }
}

/// Extracts the embedded JSON payload text of one HTML page: the inner
/// text of its first script element, stripped of the assignment prefix and
/// the trailing statement terminator.  Decoding that text into the
/// document model is the caller's step; a decode failure there is the
/// distinct `BadJson` kind, which this function itself never returns.
pub fn extract_payload(page: &str) -> (r: Result<String, ExtractError>)
    ensures
        match r {
            Ok(p) => script_text_of(page@) is Some && wrapper_ok(opt_text(script_text_of(page@)))
                && p@ == payload_of(opt_text(script_text_of(page@))),
            Err(e) => match e {
                ExtractError::NoPayload => script_text_of(page@) is None,
                ExtractError::BadWrapper => script_text_of(page@) is Some && !wrapper_ok(
                    opt_text(script_text_of(page@)),
                ),
                ExtractError::BadJson => false,
            },
        },
{
    let t = match first_script_text(page) {
        Some(t) => t,
        None => {
            return Err(ExtractError::NoPayload);
        },
    };
    let ts = t.as_str();
    let n = ts.unicode_len();
    let prefix = "window.data = ";
    proof {
        reveal_strlit("window.data = ");
    }
    if n < 15 {
        return Err(ExtractError::BadWrapper);
    }
    let mut i: usize = 0;
    while i < 14
        invariant
            n == ts@.len(),
            n >= 15,
            ts@ == opt_text(script_text_of(page@)),
            i <= 14,
            prefix@ == payload_prefix(),
            prefix@.len() == 14,
            forall|k: int| 0 <= k < i ==> ts@[k] == payload_prefix()[k],
        decreases 14 - i,
    {
        if ts.get_char(i) != prefix.get_char(i) {
            proof {
                assert(ts@.take(14)[i as int] != payload_prefix()[i as int]);
            }
            return Err(ExtractError::BadWrapper);
        }
        i += 1;
    }
    proof {
        assert(ts@.take(14) =~= payload_prefix());
    }
    if ts.get_char(n - 1) != ';' {
        return Err(ExtractError::BadWrapper);
    }
    let body = ts.substring_char(14, n - 1).to_owned();
    proof {
        assert(body@ =~= payload_of(ts@));
    }
    Ok(body)
}

} // verus!
