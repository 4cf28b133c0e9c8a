use vstd::prelude::*;

use crate::assoc::assoc_get;
use crate::json::{get_v, json_parse, parse_json, Json, JsonV};
use crate::types::{opt_view, ApiError};

verus! {

/// The number of attempts at a request when the provider answers 429.
pub const MAX_ATTEMPTS: u32 = 3;

/// One step of a JSON pointer whose token is `0`: member `0` of an object,
/// element 0 of an array.
pub open spec fn pointer_zero(v: JsonV) -> Option<JsonV> {
    match v {
        JsonV::Obj(m) => assoc_get(m, "0"@),
        JsonV::Arr(items) => if items.len() > 0 {
            Some(items[0])
        } else {
            None
        },
        _ => None,
    }
}

/// `s.trim_end_matches('s')`.
pub open spec fn trim_end_s(s: Seq<char>) -> Seq<char>
    decreases s.len(),
{
    if s.len() > 0 && s.last() == 's' {
        trim_end_s(s.drop_last())
    } else {
        s
    }
}

/// The retry delay that an error answer suggests, as text without its
/// trailing `s`: the string at `/error/details/0/retryDelay`.
pub open spec fn retry_delay_v(err: JsonV) -> Option<Seq<char>> {
    match get_v(err, "error"@) {
        Some(e) => match get_v(e, "details"@) {
            Some(d) => match pointer_zero(d) {
                Some(z) => match get_v(z, "retryDelay"@) {
                    Some(JsonV::Str(s)) => Some(trim_end_s(s)),
                    _ => None,
                },
                None => None,
            },
            None => None,
        },
        None => None,
    }
}

/// Whether an HTTP status is a success (`200..=299`).
pub fn is_success(status: u16) -> (r: bool)
    ensures
        r == (200 <= status <= 299),
{
    200 <= status && status <= 299
}

/// The retry delay that the body of an error answer suggests: the text at
/// `/error/details/0/retryDelay` of the JSON it holds, without its trailing
/// `s`; `None` when the body is not JSON or names none.
pub fn retry_delay_from_body(body: &str) -> (r: Option<String>)
    ensures
        opt_view(r) == match json_parse(body@) {
            Some(e) => retry_delay_v(e),
            None => None,
        },
{
    match parse_json(body) {
        Ok(e) => retry_delay_text(Some(&e)),
        Err(_) => None,
    }
}

/// The retry delay that an error answer suggests (`None` when the answer is
/// not JSON or names none); the caller reads it as seconds.
pub fn retry_delay_text(err: Option<&Json>) -> (r: Option<String>)
    ensures
        opt_view(r) == match err {
            Some(e) => retry_delay_v(e@),
            None => None,
        },
{
    let e = match err {
        Some(e) => e,
        None => {
            return None;
        },
    };
    let details = match e.get("error") {
        Some(x) => match x.get("details") {
            Some(d) => d,
            None => {
                return None;
            },
        },
        None => {
            return None;
        },
    };
    let zero: &Json = match details {
        Json::Obj(_) => match details.get("0") {
            Some(z) => z,
            None => {
                return None;
            },
        },
        Json::Arr(items) => {
            if items.len() > 0 {
                &items[0]
            } else {
                return None;
            }
        },
        _ => {
            return None;
        },
    };
    match zero.get("retryDelay") {
        Some(Json::Str(s)) => {
            let cs = crate::text::chars_of(s.as_str());
            let mut n: usize = cs.len();
            proof {
                assert(cs@.subrange(0, n as int) =~= cs@);
            }
            while n > 0 && cs[n - 1] == 's'
                invariant
                    n <= cs.len(),
                    cs@ == s@,
                    trim_end_s(cs@) == trim_end_s(cs@.subrange(0, n as int)),
                decreases n,
            {
                proof {
                    assert(cs@.subrange(0, n as int).drop_last() =~= cs@.subrange(0, n - 1));
                }
                n = n - 1;
            }
            proof {
                assert(trim_end_s(cs@.subrange(0, n as int)) == cs@.subrange(0, n as int));
            }
            let mut out = String::new();
            let mut k: usize = 0;
            while k < n
                invariant
                    k <= n <= cs.len(),
                    out@ == cs@.subrange(0, k as int),
                decreases n - k,
            {
                crate::text::push_char(&mut out, cs[k]);
                proof {
                    assert(out@ =~= cs@.subrange(0, k + 1));
                }
                k = k + 1;
            }
            Some(out)
        },
        _ => None,
    }
}

/// What to do after the provider answered a request with a failure status.
#[derive(Debug)]
pub enum FailureStep {
    /// Wait the suggested delay and send the request again as this attempt.
    Retry { next_attempt: u32 },
    /// Give up with this error.
    Fail(ApiError),
}

/// Whether a failed attempt is retried: a 429 answer before the last attempt,
/// whose suggested delay is not over the limit.
pub open spec fn retried(status: u16, attempt: u32, delay_over_limit: bool) -> bool {
    status == 429 && attempt < MAX_ATTEMPTS && !delay_over_limit
}

/// The error of a failed attempt that is not retried: an API error with the
/// answer's status and body, `gemini_quota_exhausted` with its message when a
/// 429 answer came before the last attempt, else `gemini_error`.
pub open spec fn failure_error(e: ApiError, status: u16, attempt: u32, body: Seq<char>) -> bool {
    match e {
        ApiError::Api { status: st, error_type: Some(et), message, request_id: None, body: b, retryable: false } => {
            &&& st == status
            &&& b@ == body
            &&& if status == 429 && attempt < MAX_ATTEMPTS {
                et@ == "gemini_quota_exhausted"@ && opt_view(message) == Some("Quota fully exhausted, retry later."@)
            } else {
                et@ == "gemini_error"@ && message is None
            }
        },
        _ => false,
    }
}

/// The decision after a failed attempt. A 429 answer before the last attempt
/// is retried, unless its suggested delay is over the limit (the caller reads
/// the delay, 5 seconds when none is suggested, and compares it with 300
/// seconds), which fails as a quota exhaustion. Every other failure fails with
/// the answer's status and body.
pub fn after_failure(status: u16, attempt: u32, delay_over_limit: bool, body: String) -> (s: FailureStep)
    ensures
        match s {
            FailureStep::Retry { next_attempt } => retried(status, attempt, delay_over_limit) && next_attempt
                == attempt + 1,
            FailureStep::Fail(e) => !retried(status, attempt, delay_over_limit) && failure_error(
                e,
                status,
                attempt,
                body@,
            ),
        },
{
    if status == 429 && attempt < MAX_ATTEMPTS {
        if delay_over_limit {
            return FailureStep::Fail(
                ApiError::Api {
                    status,
                    error_type: Some("gemini_quota_exhausted".to_owned()),
                    message: Some("Quota fully exhausted, retry later.".to_owned()),
                    request_id: None,
                    body,
                    retryable: false,
                },
            );
        }
        return FailureStep::Retry { next_attempt: attempt + 1 };
    }
    FailureStep::Fail(
        ApiError::Api {
            status,
            error_type: Some("gemini_error".to_owned()),
            message: None,
            request_id: None,
            body,
            retryable: false,
        },
    )
}

/// A request is sent at most three times: along any run of retries that
/// starts at the first attempt, every attempt is the one before plus one, and
/// the attempts number at most three.
pub proof fn lemma_at_most_three_attempts(attempts: Seq<u32>, statuses: Seq<u16>, over: Seq<bool>)
    requires
        attempts.len() >= 1,
        statuses.len() == attempts.len(),
        over.len() == attempts.len(),
        attempts[0] == 1,
        forall|k: int|
            0 <= k < attempts.len() - 1 ==> retried(#[trigger] statuses[k], attempts[k], over[k]) && attempts[k
                + 1] == attempts[k] + 1,
    ensures
        attempts.len() <= MAX_ATTEMPTS,
{
    assert forall|k: int| 0 <= k < attempts.len() implies attempts[k] == k + 1 by {
        lemma_attempt_index(attempts, statuses, over, k);
    }
    if attempts.len() > 3 {
        assert(retried(statuses[2], attempts[2], over[2]));
    }
}

proof fn lemma_attempt_index(attempts: Seq<u32>, statuses: Seq<u16>, over: Seq<bool>, k: int)
    requires
        0 <= k < attempts.len(),
        statuses.len() == attempts.len(),
        over.len() == attempts.len(),
        attempts[0] == 1,
        forall|j: int|
            0 <= j < attempts.len() - 1 ==> retried(#[trigger] statuses[j], attempts[j], over[j]) && attempts[j
                + 1] == attempts[j] + 1,
    ensures
        attempts[k] == k + 1,
    decreases k,
{
    if k > 0 {
        lemma_attempt_index(attempts, statuses, over, k - 1);
        assert(retried(statuses[k - 1], attempts[k - 1], over[k - 1]));
    }
}

}
