//! The boolean-expression scripts that gate audiences and frequency, and
//! the evaluator contract the engine consumes: an absent script is always
//! true, a present one must evaluate to a boolean.

use vstd::prelude::*;

use crate::errors::HttpError;
use crate::trusted::script_eval_of;
use crate::trusted::script_evaluate;
use crate::trusted::script_parse_check;
use crate::trusted::script_parses;
use vstd::utf8::is_ascii_chars;

verus! {

/// A boolean-expression script, kept as its source text; evaluation parses
/// it against a context.
#[derive(Debug)]
pub struct Script {
    pub src: String,
}

impl Script {
    /// Wraps a source text that parses as a boolean expression; a malformed
    /// or non-ASCII one is rejected (the script language is ASCII).
    pub fn new(src: String) -> (r: Result<Script, HttpError>)
        ensures
            match r {
                Ok(s) => is_ascii_chars(src@) && script_parses(src@) && s.src@ == src@,
                Err(e) => !(is_ascii_chars(src@) && script_parses(src@)) && (e
                    matches HttpError::BadRequest(_)),
            },
    {
        if !src.as_str().is_ascii() {
            let msg = crate::errors::join3("malformed script (not ASCII): ", src.as_str(), "");
            return Err(HttpError::BadRequest(msg));
        }
        if script_parse_check(src.as_str()) {
            Ok(Script { src })
        } else {
            let msg = crate::errors::join3("malformed script: ", src.as_str(), "");
            Err(HttpError::BadRequest(msg))
        }
    }
}

/// What handing a script source to the evaluator yields: a non-ASCII
/// source cannot be lexed and fails outright; an ASCII one evaluates to
/// the named outcome.
pub open spec fn script_outcome(src: Seq<char>, ctx_json: Seq<char>) -> Option<bool> {
    if is_ascii_chars(src) {
        script_eval_of(src, ctx_json)
    } else {
        None
    }
}

/// The text an evaluation failure carries: the script source, the
/// evaluator's reason, and the context it was evaluated against.
pub open spec fn eval_error_message(src: Seq<char>, reason: Seq<char>, ctx: Seq<char>) -> Seq<
    char,
> {
    "script="@ + src + " failed: "@ + reason + " ctx="@ + ctx
}

/// Evaluates scripts against JSON-encoded contexts.
pub struct ScriptEvaluator {}

impl ScriptEvaluator {
    pub fn new() -> ScriptEvaluator {
        ScriptEvaluator {  }
    }

    /// Evaluates a script against a context.  An absent script is true; a
    /// script that fails to evaluate or returns a non-boolean is an
    /// evaluation error carrying the script source and the context.
    pub fn evaluate(&self, script: Option<&Script>, ctx_json: &str) -> (r: Result<
        bool,
        HttpError,
    >)
        ensures
            match script {
                None => r == Result::<bool, HttpError>::Ok(true),
                Some(s) => match script_outcome(s.src@, ctx_json@) {
                    Some(b) => r == Result::<bool, HttpError>::Ok(b),
                    None => r matches Err(e) && (e matches HttpError::EvaluationError(m)
                        && exists|reason: Seq<char>|
                        m@ == #[trigger] eval_error_message(s.src@, reason, ctx_json@)),
                },
            },
    {
        match script {
            None => Ok(true),
            Some(s) => if !s.src.as_str().is_ascii() {
                let mut msg = crate::errors::join3("script=", s.src.as_str(), " failed: ");
                msg.append("the script is not ASCII");
                msg.append(" ctx=");
                msg.append(ctx_json);
                proof {
                    reveal_strlit("the script is not ASCII");
                    assert(msg@ =~= eval_error_message(
                        s.src@,
                        "the script is not ASCII"@,
                        ctx_json@,
                    ));
                }
                Err(HttpError::EvaluationError(msg))
            } else {
                match script_evaluate(s.src.as_str(), ctx_json) {
                Ok(b) => Ok(b),
                Err(reason) => {
                    let mut msg = crate::errors::join3(
                        "script=",
                        s.src.as_str(),
                        " failed: ",
                    );
                    msg.append(reason.as_str());
                    msg.append(" ctx=");
                    msg.append(ctx_json);
                    proof {
                        assert(msg@ =~= eval_error_message(s.src@, reason@, ctx_json@));
                    }
                    Err(HttpError::EvaluationError(msg))
                },
                }
            },
        }
    }

    /// Evaluates a source text directly, as audiences store plain sources.
    pub fn evaluate_src(&self, script_src: Option<&String>, ctx_json: &str) -> (r: Result<
        bool,
        HttpError,
    >)
        ensures
            match script_src {
                None => r == Result::<bool, HttpError>::Ok(true),
                Some(s) => match script_outcome(s@, ctx_json@) {
                    Some(b) => r == Result::<bool, HttpError>::Ok(b),
                    None => r matches Err(e) && (e matches HttpError::EvaluationError(m)
                        && exists|reason: Seq<char>|
                        m@ == #[trigger] eval_error_message(s@, reason, ctx_json@)),
                },
            },
    {
        match script_src {
            None => Ok(true),
            Some(s) => if !s.as_str().is_ascii() {
                let mut msg = crate::errors::join3("script=", s.as_str(), " failed: ");
                msg.append("the script is not ASCII");
                msg.append(" ctx=");
                msg.append(ctx_json);
                proof {
                    reveal_strlit("the script is not ASCII");
                    assert(msg@ =~= eval_error_message(
                        s@,
                        "the script is not ASCII"@,
                        ctx_json@,
                    ));
                }
                Err(HttpError::EvaluationError(msg))
            } else {
                match script_evaluate(s.as_str(), ctx_json) {
                Ok(b) => Ok(b),
                Err(reason) => {
                    let mut msg = crate::errors::join3("script=", s.as_str(), " failed: ");
                    msg.append(reason.as_str());
                    msg.append(" ctx=");
                    msg.append(ctx_json);
                    proof {
                        assert(msg@ =~= eval_error_message(s@, reason@, ctx_json@));
                    }
                    Err(HttpError::EvaluationError(msg))
                },
                }
            },
        }
    }
}

} // verus!
