//! Recovering the analysis tool's JSON payload from noisy output: terminal
//! escape sequences and progress text may precede the one JSON object the
//! tool emits last.

use vstd::prelude::*;
use vstd::string::*;

verus! {

/// The structured payload the analysis tool prints: a status word plus the
/// response, session and model fields, and the error fields on failure.
pub struct AmplifierJsonOutput {
    pub status: String,
    pub response: String,
    pub session_id: String,
    pub model: String,
    pub error: Option<String>,
    pub error_type: Option<String>,
}

/// What parsing a character stream as a payload yields. The result is a
/// function of the characters alone; its exact shape is the JSON grammar's
/// business, and `parse_payload` is the only way to observe it.
pub uninterp spec fn amplifier_payload(s: Seq<char>) -> Option<AmplifierJsonOutput>;

/// Relies on serde_json's `Deserializer`/`Value`: parses the first JSON
/// value at the head of the stream, tolerating trailing text, and reads the
/// payload's string fields, the status being required. The result depends
/// on the characters alone.
#[verifier::external_body]
fn parse_payload(s: &str) -> (r: Option<AmplifierJsonOutput>)
    ensures
        r == amplifier_payload(s@),
{
    let v: serde_json::Value = serde_json::Deserializer::from_str(s).into_iter().next()?.ok()?;
    let field = |k: &str| v.get(k).and_then(|x| x.as_str()).map(|x| x.to_string());
    Some(
        AmplifierJsonOutput {
            status: field("status")?,
            response: field("response").unwrap_or_default(),
            session_id: field("session_id").unwrap_or_default(),
            model: field("model").unwrap_or_default(),
            error: field("error"),
            error_type: field("error_type"),
        },
    )
}

/// There is a payload opening at position `i`: an opening brace whose
/// suffix parses.
pub open spec fn payload_at(s: Seq<char>, i: int) -> bool {
    &&& 0 <= i < s.len()
    &&& s[i] == '{'
    &&& amplifier_payload(s.skip(i)) is Some
}

/// Extracts the payload from raw output: the whole stream when it parses
/// as-is, else the suffix opening at the rightmost brace that parses; no
/// such position means no payload.
pub fn extract_json(raw: &str) -> (r: Option<AmplifierJsonOutput>)
    ensures
        amplifier_payload(raw@) is Some ==> r == amplifier_payload(raw@),
        amplifier_payload(raw@) is None ==> match r {
            Option::Some(_) => exists|i: int|
                #[trigger] payload_at(raw@, i) && r == amplifier_payload(raw@.skip(i)) && (
                forall|j: int| i < j < raw@.len() ==> !payload_at(raw@, j)),
            Option::None => forall|j: int| 0 <= j < raw@.len() ==> !payload_at(raw@, j),
        },
{
    let fast = parse_payload(raw);
    if fast.is_some() {
        return fast;
    }
    let n = raw.unicode_len();
    let mut i = n;
    while i > 0
        invariant
            n == raw@.len(),
            0 <= i <= n,
            amplifier_payload(raw@) is None,
            forall|j: int| i <= j < n ==> !payload_at(raw@, j),
        decreases i,
    {
        i -= 1;
        if raw.get_char(i) == '{' {
            let suffix = raw.substring_char(i, n);
            proof {
                assert(suffix@ =~= raw@.skip(i as int));
            }
            let attempt = parse_payload(suffix);
            if attempt.is_some() {
                proof {
                    assert(payload_at(raw@, i as int));
                }
                return attempt;
            }
        }
    }
    Option::None
}

} // verus!
