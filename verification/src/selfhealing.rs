//! Classification of failures and the decision, after each failed attempt,
//! whether to retry, and how.

use vstd::prelude::*;
use crate::text::contains_seq;
use crate::text::lowercase;
use crate::text::str_contains;
use crate::text::to_lowercase;

verus! {

/// Why a healed task gave up. Checkpoint storage happens outside this
/// library; its failures are carried as messages.
#[derive(Debug)]
pub enum HealingError {
    MaxRetriesExceeded(u32),
    Unrecoverable(String),
    CheckpointNotFound(String),
    Database(String),
    Serialization(String),
}

/// The kind of a failure, judged from its message.
#[derive(Clone, Copy, Debug, PartialEq, Eq, Structural)]
pub enum ErrorClass {
    Transient,
    RateLimited,
    AuthFailure,
    ResourceExhausted,
    InvalidInput,
    Unrecoverable,
}

/// What to do about a failure.
#[derive(Clone, Copy, Debug, PartialEq, Eq, Structural)]
pub enum FallbackStrategy {
    RetryWithDelay,
    SwitchModel,
    SkipStep,
    UseCache,
    AskUser,
}

/// `s` holds one of the words.
pub open spec fn mentions_any(s: Seq<char>, words: Seq<Seq<char>>) -> bool {
    exists|i: int| 0 <= i < words.len() && contains_seq(s, #[trigger] words[i])
}

/// The class of a lower-cased message: the first group of words that it
/// mentions decides, and a message that mentions none is transient.
pub open spec fn class_of_lower(s: Seq<char>) -> ErrorClass {
    if mentions_any(s, seq!["rate limit"@, "429"@, "too many requests"@]) {
        ErrorClass::RateLimited
    } else if mentions_any(s, seq!["unauthorized"@, "401"@, "forbidden"@, "403"@]) {
        ErrorClass::AuthFailure
    } else if mentions_any(s, seq!["timeout"@, "connection"@, "network"@, "503"@]) {
        ErrorClass::Transient
    } else if mentions_any(s, seq!["out of memory"@, "quota exceeded"@, "context length"@]) {
        ErrorClass::ResourceExhausted
    } else if mentions_any(s, seq!["invalid"@, "parse error"@, "bad request"@, "400"@]) {
        ErrorClass::InvalidInput
    } else if mentions_any(s, seq!["fatal"@, "panic"@, "unrecoverable"@]) {
        ErrorClass::Unrecoverable
    } else {
        ErrorClass::Transient
    }
}

/// The strategy for a class of failure at the given attempt.
pub open spec fn fallback_for(class: ErrorClass, attempt: u32) -> FallbackStrategy {
    match class {
        ErrorClass::Transient => FallbackStrategy::RetryWithDelay,
        ErrorClass::RateLimited => FallbackStrategy::RetryWithDelay,
        ErrorClass::AuthFailure => FallbackStrategy::AskUser,
        ErrorClass::ResourceExhausted => if attempt < 2 {
            FallbackStrategy::SwitchModel
        } else {
            FallbackStrategy::AskUser
        },
        ErrorClass::InvalidInput => FallbackStrategy::SkipStep,
        ErrorClass::Unrecoverable => FallbackStrategy::AskUser,
    }
}

/// Only transient and rate-limited failures are worth retrying as they are.
pub open spec fn retryable(class: ErrorClass) -> bool {
    class == ErrorClass::Transient || class == ErrorClass::RateLimited
}

/// Whether `s` holds any of the words, checked in turn.
fn contains_any(s: &str, words: &[&str]) -> (b: bool)
    ensures
        b == exists|i: int| 0 <= i < words@.len() && contains_seq(s@, #[trigger] words@[i]@),
{
    let mut i: usize = 0;
    while i < words.len()
        invariant
            i <= words@.len(),
            forall|j: int| 0 <= j < i ==> !contains_seq(s@, #[trigger] words@[j]@),
        decreases words@.len() - i,
    {
        if str_contains(s, words[i]) {
            return true;
        }
        i += 1;
    }
    false
}

/// Whether `s` mentions one of the words; the words are given as a list of literals.
fn mentions(s: &str, words: &[&str], Ghost(spec_words): Ghost<Seq<Seq<char>>>) -> (b: bool)
    requires
        words@.len() == spec_words.len(),
        forall|i: int| 0 <= i < words@.len() ==> #[trigger] words@[i]@ == spec_words[i],
    ensures
        b == mentions_any(s@, spec_words),
{
    let b = contains_any(s, words);
    proof {
        if b {
            let i = choose|i: int| 0 <= i < words@.len() && contains_seq(s@, #[trigger] words@[i]@);
            assert(contains_seq(s@, spec_words[i]));
        }
        if mentions_any(s@, spec_words) {
            let i = choose|i: int| 0 <= i < spec_words.len() && contains_seq(s@, #[trigger] spec_words[i]);
            assert(contains_seq(s@, words@[i]@));
        }
    }
    b
}

/// Judging, advising and gating retries of failures.
pub struct ErrorClassifier;

impl ErrorClassifier {
    /// The class of a failure message, read case-insensitively.
    pub fn classify(error_str: &str) -> (c: ErrorClass)
        ensures
            c == class_of_lower(lowercase(error_str@)),
    {
        let lower = to_lowercase(error_str);
        let l = lower.as_str();
        let words1 = ["rate limit", "429", "too many requests"];
        let ghost spec1: Seq<Seq<char>> = seq!["rate limit"@, "429"@, "too many requests"@];
        if mentions(l, &words1, Ghost(spec1)) {
            return ErrorClass::RateLimited;
        }
        let words2 = ["unauthorized", "401", "forbidden", "403"];
        let ghost spec2: Seq<Seq<char>> = seq!["unauthorized"@, "401"@, "forbidden"@, "403"@];
        if mentions(l, &words2, Ghost(spec2)) {
            return ErrorClass::AuthFailure;
        }
        let words3 = ["timeout", "connection", "network", "503"];
        let ghost spec3: Seq<Seq<char>> = seq!["timeout"@, "connection"@, "network"@, "503"@];
        if mentions(l, &words3, Ghost(spec3)) {
            return ErrorClass::Transient;
        }
        let words4 = ["out of memory", "quota exceeded", "context length"];
        let ghost spec4: Seq<Seq<char>> = seq!["out of memory"@, "quota exceeded"@, "context length"@];
        if mentions(l, &words4, Ghost(spec4)) {
            return ErrorClass::ResourceExhausted;
        }
        let words5 = ["invalid", "parse error", "bad request", "400"];
        let ghost spec5: Seq<Seq<char>> = seq!["invalid"@, "parse error"@, "bad request"@, "400"@];
        if mentions(l, &words5, Ghost(spec5)) {
            return ErrorClass::InvalidInput;
        }
        let words6 = ["fatal", "panic", "unrecoverable"];
        let ghost spec6: Seq<Seq<char>> = seq!["fatal"@, "panic"@, "unrecoverable"@];
        if mentions(l, &words6, Ghost(spec6)) {
            return ErrorClass::Unrecoverable;
        }
        ErrorClass::Transient
    }

    /// The strategy for a class of failure at the given attempt.
    pub fn suggest_fallback(class: &ErrorClass, attempt: u32) -> (f: FallbackStrategy)
        ensures
            f == fallback_for(*class, attempt),
    {
        match class {
            ErrorClass::Transient => FallbackStrategy::RetryWithDelay,
            ErrorClass::RateLimited => FallbackStrategy::RetryWithDelay,
            ErrorClass::AuthFailure => FallbackStrategy::AskUser,
            ErrorClass::ResourceExhausted => {
                if attempt < 2 {
                    FallbackStrategy::SwitchModel
                } else {
                    FallbackStrategy::AskUser
                }
            },
            ErrorClass::InvalidInput => FallbackStrategy::SkipStep,
            ErrorClass::Unrecoverable => FallbackStrategy::AskUser,
        }
    }

    /// Whether failures of this class are retried as they are.
    pub fn is_retryable(class: &ErrorClass) -> (b: bool)
        ensures
            b == retryable(*class),
    {
        match class {
            ErrorClass::Transient => true,
            ErrorClass::RateLimited => true,
            _ => false,
        }
    }
}


/// What to do after a failed attempt: wait and try again, or give up.
#[derive(Debug)]
pub enum HealingStep {
    Retry,
    GiveUp(HealingError),
}

/// The failure of `attempt` (counted from 0) is followed by another attempt:
/// it is not unrecoverable, attempts remain, and the advice is to retry,
/// switch model or use a cache (the last two are retried as they are).
pub open spec fn retries_after(error: Seq<char>, attempt: u32, max_retries: u32) -> bool {
    let class = class_of_lower(lowercase(error));
    &&& class != ErrorClass::Unrecoverable
    &&& attempt < max_retries
    &&& match fallback_for(class, attempt) {
        FallbackStrategy::AskUser => false,
        FallbackStrategy::SkipStep => false,
        _ => true,
    }
}

/// The decision after attempt `attempt` (counted from 0) failed with `error`,
/// under a policy of at most `max_retries` retries.
pub fn healing_step(error: &str, attempt: u32, max_retries: u32) -> (s: HealingStep)
    requires
        attempt < u32::MAX,
    ensures
        s is Retry <==> retries_after(error@, attempt, max_retries),
        ({
            let class = class_of_lower(lowercase(error@));
            &&& class == ErrorClass::Unrecoverable ==> (s matches HealingStep::GiveUp(
                HealingError::Unrecoverable(m),
            ) && m@ == error@)
            &&& class != ErrorClass::Unrecoverable && attempt >= max_retries ==> (s matches HealingStep::GiveUp(
                HealingError::MaxRetriesExceeded(n),
            ) && n == attempt + 1)
            &&& class != ErrorClass::Unrecoverable && attempt < max_retries && fallback_for(class, attempt)
                == FallbackStrategy::AskUser ==> (s matches HealingStep::GiveUp(
                HealingError::Unrecoverable(m),
            ) && m@ == "Requires user intervention: "@ + error@)
            &&& class != ErrorClass::Unrecoverable && attempt < max_retries && fallback_for(class, attempt)
                == FallbackStrategy::SkipStep ==> (s matches HealingStep::GiveUp(
                HealingError::Unrecoverable(m),
            ) && m@ == "Step skipped due to: "@ + error@)
        }),
{
    let class = ErrorClassifier::classify(error);
    let fallback = ErrorClassifier::suggest_fallback(&class, attempt);
    if class == ErrorClass::Unrecoverable {
        return HealingStep::GiveUp(HealingError::Unrecoverable(String::from_str(error)));
    }
    if attempt >= max_retries {
        return HealingStep::GiveUp(HealingError::MaxRetriesExceeded(attempt + 1));
    }
    match fallback {
        FallbackStrategy::AskUser => {
            let mut m = String::from_str("Requires user intervention: ");
            m.append(error);
            HealingStep::GiveUp(HealingError::Unrecoverable(m))
        },
        FallbackStrategy::SkipStep => {
            let mut m = String::from_str("Step skipped due to: ");
            m.append(error);
            HealingStep::GiveUp(HealingError::Unrecoverable(m))
        },
        _ => HealingStep::Retry,
    }
}

/// How a failure is judged, by the words its lower-cased message holds:
/// a rate limit (`rate limit`, `429`, `too many requests`) is retried; an
/// authentication failure (`unauthorized`, `401`, `forbidden`, `403`) that is
/// no rate limit is never retried and, while attempts remain, is handed to
/// the user; a timeout or lost connection (`timeout`, `connection`,
/// `network`, `503`) that is neither is retried.
pub proof fn failures_are_judged_by_their_words(error: Seq<char>, attempt: u32, max_retries: u32)
    ensures
        ({
            let s = lowercase(error);
            let rate = contains_seq(s, "rate limit"@) || contains_seq(s, "429"@) || contains_seq(
                s,
                "too many requests"@,
            );
            let auth = contains_seq(s, "unauthorized"@) || contains_seq(s, "401"@) || contains_seq(s, "forbidden"@)
                || contains_seq(s, "403"@);
            let transient = contains_seq(s, "timeout"@) || contains_seq(s, "connection"@) || contains_seq(
                s,
                "network"@,
            ) || contains_seq(s, "503"@);
            &&& rate ==> class_of_lower(s) == ErrorClass::RateLimited
            &&& rate && attempt < max_retries ==> retries_after(error, attempt, max_retries)
            &&& !rate && auth ==> class_of_lower(s) == ErrorClass::AuthFailure
            &&& !rate && auth ==> !retries_after(error, attempt, max_retries)
            &&& !rate && auth ==> fallback_for(class_of_lower(s), attempt) == FallbackStrategy::AskUser
            &&& !rate && !auth && transient ==> class_of_lower(s) == ErrorClass::Transient
            &&& !rate && !auth && transient && attempt < max_retries ==> retries_after(error, attempt, max_retries)
        }),
{
    let s = lowercase(error);
    let w1: Seq<Seq<char>> = seq!["rate limit"@, "429"@, "too many requests"@];
    let w2: Seq<Seq<char>> = seq!["unauthorized"@, "401"@, "forbidden"@, "403"@];
    let w3: Seq<Seq<char>> = seq!["timeout"@, "connection"@, "network"@, "503"@];
    if mentions_any(s, w1) {
        let i = choose|i: int| 0 <= i < w1.len() && contains_seq(s, #[trigger] w1[i]);
        if i == 0 {} else if i == 1 {} else {}
    }
    if contains_seq(s, "rate limit"@) {
        assert(contains_seq(s, w1[0]));
    } else if contains_seq(s, "429"@) {
        assert(contains_seq(s, w1[1]));
    } else if contains_seq(s, "too many requests"@) {
        assert(contains_seq(s, w1[2]));
    }
    if mentions_any(s, w2) {
        let i = choose|i: int| 0 <= i < w2.len() && contains_seq(s, #[trigger] w2[i]);
        if i == 0 {} else if i == 1 {} else if i == 2 {} else {}
    }
    if contains_seq(s, "unauthorized"@) {
        assert(contains_seq(s, w2[0]));
    } else if contains_seq(s, "401"@) {
        assert(contains_seq(s, w2[1]));
    } else if contains_seq(s, "forbidden"@) {
        assert(contains_seq(s, w2[2]));
    } else if contains_seq(s, "403"@) {
        assert(contains_seq(s, w2[3]));
    }
    if mentions_any(s, w3) {
        let i = choose|i: int| 0 <= i < w3.len() && contains_seq(s, #[trigger] w3[i]);
        if i == 0 {} else if i == 1 {} else if i == 2 {} else {}
    }
    if contains_seq(s, "timeout"@) {
        assert(contains_seq(s, w3[0]));
    } else if contains_seq(s, "connection"@) {
        assert(contains_seq(s, w3[1]));
    } else if contains_seq(s, "network"@) {
        assert(contains_seq(s, w3[2]));
    } else if contains_seq(s, "503"@) {
        assert(contains_seq(s, w3[3]));
    }
}

/// How the remaining failures are judged, when the message names no rate
/// limit, authentication failure or lost connection: running out of
/// resources (`out of memory`, `quota exceeded`, `context length`) switches
/// model for the first two attempts and then asks the user; bad input
/// (`invalid`, `parse error`, `bad request`, `400`) skips the step; a fatal
/// error (`fatal`, `panic`, `unrecoverable`) is never retried; and a message
/// naming none of these words is taken as transient and retried.
pub proof fn other_failures_are_judged_by_their_words(error: Seq<char>, attempt: u32, max_retries: u32)
    ensures
        ({
            let s = lowercase(error);
            let earlier = contains_seq(s, "rate limit"@) || contains_seq(s, "429"@) || contains_seq(
                s,
                "too many requests"@,
            ) || contains_seq(s, "unauthorized"@) || contains_seq(s, "401"@) || contains_seq(s, "forbidden"@)
                || contains_seq(s, "403"@) || contains_seq(s, "timeout"@) || contains_seq(s, "connection"@)
                || contains_seq(s, "network"@) || contains_seq(s, "503"@);
            let exhausted = contains_seq(s, "out of memory"@) || contains_seq(s, "quota exceeded"@) || contains_seq(
                s,
                "context length"@,
            );
            let invalid = contains_seq(s, "invalid"@) || contains_seq(s, "parse error"@) || contains_seq(
                s,
                "bad request"@,
            ) || contains_seq(s, "400"@);
            let fatal = contains_seq(s, "fatal"@) || contains_seq(s, "panic"@) || contains_seq(s, "unrecoverable"@);
            &&& !earlier && exhausted ==> class_of_lower(s) == ErrorClass::ResourceExhausted
            &&& !earlier && exhausted ==> fallback_for(class_of_lower(s), attempt) == if attempt < 2 {
                FallbackStrategy::SwitchModel
            } else {
                FallbackStrategy::AskUser
            }
            &&& !earlier && !exhausted && invalid ==> class_of_lower(s) == ErrorClass::InvalidInput
            &&& !earlier && !exhausted && invalid ==> !retries_after(error, attempt, max_retries)
            &&& !earlier && !exhausted && !invalid && fatal ==> class_of_lower(s) == ErrorClass::Unrecoverable
            &&& !earlier && !exhausted && !invalid && fatal ==> !retries_after(error, attempt, max_retries)
            &&& !earlier && !exhausted && !invalid && !fatal ==> class_of_lower(s) == ErrorClass::Transient
        }),
{
    let s = lowercase(error);
    failures_are_judged_by_their_words(error, attempt, max_retries);
    let w1: Seq<Seq<char>> = seq!["rate limit"@, "429"@, "too many requests"@];
    let w2: Seq<Seq<char>> = seq!["unauthorized"@, "401"@, "forbidden"@, "403"@];
    let w3: Seq<Seq<char>> = seq!["timeout"@, "connection"@, "network"@, "503"@];
    let w4: Seq<Seq<char>> = seq!["out of memory"@, "quota exceeded"@, "context length"@];
    let w5: Seq<Seq<char>> = seq!["invalid"@, "parse error"@, "bad request"@, "400"@];
    let w6: Seq<Seq<char>> = seq!["fatal"@, "panic"@, "unrecoverable"@];
    if mentions_any(s, w1) {
        let i = choose|i: int| 0 <= i < w1.len() && contains_seq(s, #[trigger] w1[i]);
        if i == 0 {} else if i == 1 {} else {}
    }
    if mentions_any(s, w2) {
        let i = choose|i: int| 0 <= i < w2.len() && contains_seq(s, #[trigger] w2[i]);
        if i == 0 {} else if i == 1 {} else if i == 2 {} else {}
    }
    if mentions_any(s, w3) {
        let i = choose|i: int| 0 <= i < w3.len() && contains_seq(s, #[trigger] w3[i]);
        if i == 0 {} else if i == 1 {} else if i == 2 {} else {}
    }
    if mentions_any(s, w4) {
        let i = choose|i: int| 0 <= i < w4.len() && contains_seq(s, #[trigger] w4[i]);
        if i == 0 {} else if i == 1 {} else {}
    }
    if contains_seq(s, "out of memory"@) {
        assert(contains_seq(s, w4[0]));
    } else if contains_seq(s, "quota exceeded"@) {
        assert(contains_seq(s, w4[1]));
    } else if contains_seq(s, "context length"@) {
        assert(contains_seq(s, w4[2]));
    }
    if mentions_any(s, w5) {
        let i = choose|i: int| 0 <= i < w5.len() && contains_seq(s, #[trigger] w5[i]);
        if i == 0 {} else if i == 1 {} else if i == 2 {} else {}
    }
    if contains_seq(s, "invalid"@) {
        assert(contains_seq(s, w5[0]));
    } else if contains_seq(s, "parse error"@) {
        assert(contains_seq(s, w5[1]));
    } else if contains_seq(s, "bad request"@) {
        assert(contains_seq(s, w5[2]));
    } else if contains_seq(s, "400"@) {
        assert(contains_seq(s, w5[3]));
    }
    if mentions_any(s, w6) {
        let i = choose|i: int| 0 <= i < w6.len() && contains_seq(s, #[trigger] w6[i]);
        if i == 0 {} else if i == 1 {} else {}
    }
    if contains_seq(s, "fatal"@) {
        assert(contains_seq(s, w6[0]));
    } else if contains_seq(s, "panic"@) {
        assert(contains_seq(s, w6[1]));
    } else if contains_seq(s, "unrecoverable"@) {
        assert(contains_seq(s, w6[2]));
    }
}

/// Retries are bounded and reserved: nothing is retried once `max_retries`
/// attempts have failed, an unrecoverable failure is never retried, and a
/// transient or rate-limited failure is always retried while attempts remain.
pub proof fn retries_are_bounded(error: Seq<char>, attempt: u32, max_retries: u32)
    ensures
        attempt >= max_retries ==> !retries_after(error, attempt, max_retries),
        class_of_lower(lowercase(error)) == ErrorClass::Unrecoverable ==> !retries_after(
            error,
            attempt,
            max_retries,
        ),
        retryable(class_of_lower(lowercase(error))) && attempt < max_retries ==> retries_after(
            error,
            attempt,
            max_retries,
        ),
{
}

} // verus!
