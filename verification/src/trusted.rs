//! The library's view of the outside crates it computes with: hashing,
//! script evaluation, identifier generation and sampling.  Each wrapper's
//! contract states what the named call returns; nothing else is assumed.

use vstd::prelude::*;

verus! {

/// What the 32-bit murmur3 hash (x86 variant) of a string's bytes is, for a
/// given seed.  The hash is a pure function of its inputs, identical across
/// processes of a given platform (the reference implementation reads its
/// blocks with plain loads, so byte order follows the machine's).
pub uninterp spec fn murmur3_of(s: Seq<char>, seed: u32) -> u32;

/// Relies on fasthash::murmur3::hash32_with_seed: the hash depends on the
/// bytes and the seed alone.  The call casts the byte length to a signed
/// 32-bit value, so inputs of 2 GiB and more are left out: under 2^29
/// characters means under 2^31 bytes, UTF-8 spending at most four bytes a
/// character.
#[verifier::external_body]
pub fn murmur3_str(s: &str, seed: u32) -> (r: u32)
    requires
        s@.len() < 0x2000_0000,
    ensures
        r == murmur3_of(s@, seed),
{
    fasthash::murmur3::hash32_with_seed(s, seed)
}

/// Whether a script source is a well-formed boolean expression.
pub uninterp spec fn script_parses(src: Seq<char>) -> bool;

/// Relies on jexl_parser::Parser::parse: whether a source parses depends on
/// the source text alone.  The lexer slices the source at character-counted
/// positions, which panics inside a multi-byte character, so only ASCII
/// sources are admitted.
#[verifier::external_body]
pub fn script_parse_check(src: &str) -> (r: bool)
    requires
        vstd::utf8::is_ascii_chars(src@),
    ensures
        r == script_parses(src@),
{
    jexl_parser::Parser::parse(src).is_ok()
}

/// What evaluating a script source against a JSON-encoded context yields:
/// Some(b) for a clean boolean result, None where evaluation fails or the
/// result is not a boolean.
pub uninterp spec fn script_eval_of(src: Seq<char>, ctx_json: Seq<char>) -> Option<bool>;

/// Relies on jexl_eval::Evaluator::eval_in_context (and serde_json's parser
/// for the context argument): the outcome depends on the source and the
/// context text alone.  Evaluation parses the source with the same
/// character-position lexer, so only ASCII sources are admitted; the
/// context is read by serde_json, which takes any UTF-8.
#[verifier::external_body]
pub fn script_evaluate(src: &str, ctx_json: &str) -> (r: Result<bool, String>)
    requires
        vstd::utf8::is_ascii_chars(src@),
    ensures
        (r matches Ok(b) ==> script_eval_of(src@, ctx_json@) == Some(b)),
        (r matches Err(_) ==> script_eval_of(src@, ctx_json@) is None),
{
    let ctx: serde_json::Value = match serde_json::from_str(ctx_json) {
        Ok(v) => v,
        Err(e) => return Err(format!("invalid context: {}", e)),
    };
    match jexl_eval::Evaluator::new().eval_in_context(src, &ctx) {
        Ok(serde_json::Value::Bool(b)) => Ok(b),
        Ok(other) => Err(format!("not a boolean result: {}", other)),
        Err(e) => Err(format!("{}", e)),
    }
}

/// Relies on nanoid::format with the default alphabet and random source: a
/// fresh 21-character identifier.  The result is random; only its length is
/// assumed.
#[verifier::external_body]
pub fn new_id() -> (r: String)
    ensures
        r@.len() == 21,
{
    nanoid::format(nanoid::rngs::default, &nanoid::alphabet::SAFE, 21)
}

/// Relies on rand's gen_range over 0..10000: a sampled value below 10000.
/// The result is random; only its range is assumed.
#[verifier::external_body]
pub fn sample_variation_bucket() -> (r: u64)
    ensures
        r < 10000,
{
    rand::Rng::gen_range(&mut rand::thread_rng(), 0u64..10000u64)
}

} // verus!
