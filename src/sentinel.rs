//! Recognising the spellings of "no value" in text, for the optional decoders.
use crate::error::{fault_error, reject, DecodeError, Expectation, Fault};
use crate::value::{TextInput, Value};
use vstd::prelude::*;

verus! {

/// The lowercase form of a text, as `str::to_lowercase` gives it.
pub uninterp spec fn lower_of(s: Seq<char>) -> Seq<char>;

/// Relies on `str::to_lowercase`: its result depends on the characters of the text alone.
#[verifier::external_body]
pub(crate) fn lowercase(s: &str) -> (r: String)
    ensures
        r@ == lower_of(s@),
{
    s.to_lowercase()
}

/// Whether two texts hold the same characters.
pub fn same_text(a: &str, b: &str) -> (r: bool)
    ensures
        r == (a@ == b@),
{
    let n = a.unicode_len();
    if n != b.unicode_len() {
        return false;
    }
    let mut i: usize = 0;
    while i < n
        invariant
            i <= n,
            n == a@.len(),
            n == b@.len(),
            forall|j: int| 0 <= j < i ==> a@[j] == b@[j],
        decreases n - i,
    {
        if a.get_char(i) != b.get_char(i) {
            return false;
        }
        i = i + 1;
    }
    assert(a@ =~= b@);
    true
}

/// The lowercase spellings of "no value".
pub open spec fn is_sentinel_word(w: Seq<char>) -> bool {
    w == "null"@ || w == "none"@ || w == "unknown"@
}

/// Whether an already lowercased text spells "no value".
pub fn is_sentinel(lowered: &str) -> (r: bool)
    ensures
        r == is_sentinel_word(lowered@),
{
    same_text(lowered, "null") || same_text(lowered, "none") || same_text(lowered, "unknown")
}

/// What an optional decoder makes of a text input, given what its type's own parser made
/// of the text: a parsed value is present; failing that, the text `null` or any spelling of
/// "no value", in any case, is no value; anything else keeps the parser's fault, a range
/// error or an invalid value.
pub open spec fn optional_text<T>(t: TextInput, parsed: Result<T, Fault>, expected: Expectation) -> Result<
    Option<T>,
    DecodeError,
> {
    match parsed {
        Ok(x) => Ok(Some(x)),
        Err(fault) => if t.text@ == "null"@ || is_sentinel_word(lower_of(t.text@)) {
            Ok(None)
        } else {
            Err(fault_error(fault, Value::Text(t), expected))
        },
    }
}

/// The last step of an optional decoder's text path, once its type's parser has failed
/// with `fault` and the text's lowercase form is at hand: "no value" for a spelling of it,
/// else the fault, tied to the text.
pub fn sentinel_or_fault<T>(t: TextInput, lowered: &str, fault: Fault, expected: Expectation) -> (r: Result<
    Option<T>,
    DecodeError,
>)
    ensures
        r == if is_sentinel_word(lowered@) {
            Ok::<Option<T>, DecodeError>(None)
        } else {
            Err(fault_error(fault, Value::Text(t), expected))
        },
{
    if is_sentinel(lowered) {
        Ok(None)
    } else {
        Err(reject(fault, Value::Text(t), expected))
    }
}

/// The text path of an optional decoder: a value its type's parser found, or "no value"
/// for a spelling of it, or the parser's fault as an error.
pub fn str_wrap_as_opt<T>(t: TextInput, parsed: Result<T, Fault>, expected: Expectation) -> (r: Result<
    Option<T>,
    DecodeError,
>)
    ensures
        r == optional_text(t, parsed, expected),
{
    match parsed {
        Ok(x) => Ok(Some(x)),
        Err(fault) => {
            if same_text(t.text.as_str(), "null") {
                return Ok(None);
            }
            let lowered = lowercase(t.text.as_str());
            sentinel_or_fault(t, lowered.as_str(), fault, expected)
        },
    }
}

} // verus!
