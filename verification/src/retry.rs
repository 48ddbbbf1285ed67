//! What an upstream error says about the account that met it.
use vstd::prelude::*;
use vstd::utf8::is_ascii_chars;
use crate::outside::{ascii_lower, lowercase, to_lowercase};
use crate::text::{chars_of, contains, contains_text};

verus! {

/// A lower-case error text that speaks of a rate limit or of a daily quota.
pub open spec fn speaks_of_limit(lower: Seq<char>) -> bool {
    ||| contains_text(lower, "429"@)
    ||| contains_text(lower, "rate limit"@)
    ||| contains_text(lower, "ratelimited"@)
    ||| contains_text(lower, "too many"@)
    ||| contains_text(lower, "upper limit"@)
    ||| contains_text(lower, "today's usage"@)
}

/// A lower-case error text that speaks of a used-up quota or of a token limit.
pub open spec fn speaks_of_quota(lower: Seq<char>) -> bool {
    ||| contains_text(lower, "quota exceeded"@)
    ||| contains_text(lower, "allocated quota"@)
    ||| contains_text(lower, "token-limit"@)
}

/// A lower-case error text that speaks of a passing fault of the upstream.
pub open spec fn speaks_of_outage(lower: Seq<char>) -> bool {
    ||| contains_text(lower, "internal_error"@)
    ||| contains_text(lower, "internal error"@)
    ||| contains_text(lower, "service unavailable"@)
    ||| contains_text(lower, "503"@)
    ||| contains_text(lower, "502"@)
    ||| contains_text(lower, "504"@)
}

/// A lower-case error text that speaks of a refused login.
pub open spec fn speaks_of_refusal(lower: Seq<char>) -> bool {
    ||| contains_text(lower, "unauthorized"@)
    ||| contains_text(lower, "401"@)
    ||| contains_text(lower, "403"@)
}

/// A lower-case error text that speaks of an account that has not been activated.
pub open spec fn speaks_of_activation(lower: Seq<char>) -> bool {
    ||| contains_text(lower, "activation"@)
    ||| contains_text(lower, "pending"@)
}

/// Another account is likely to succeed where this lower-case error text came.
pub open spec fn swap_helps(lower: Seq<char>) -> bool {
    speaks_of_quota(lower) || speaks_of_limit(lower) || speaks_of_outage(lower)
}

/// The lower-case form of a text: of an ASCII text, the text with the letters `A` to `Z` lowered.
pub open spec fn lower_form(s: Seq<char>) -> Seq<char> {
    if is_ascii_chars(s) {
        s.map_values(|c: char| ascii_lower(c))
    } else {
        lowercase(s)
    }
}

/// The lower-case form of an ASCII text differs from it in the letters `A` to `Z` alone, which are
/// lowered; of any other text it is what Unicode lower-casing makes of it.
pub proof fn lower_form_lowers_letters(s: Seq<char>)
    ensures
        is_ascii_chars(s) ==> lower_form(s).len() == s.len() && forall|i: int|
            0 <= i < s.len() ==> #[trigger] lower_form(s)[i] as int == s[i] as int + (if 'A' <= s[i]
                && s[i] <= 'Z' {
                32int
            } else {
                0
            }),
        !is_ascii_chars(s) ==> lower_form(s) == lowercase(s),
{
}

/// Another account may help exactly where one of these words stands in the text: of a quota, of a
/// limit, or of a passing fault. Each of them alone is enough, and nothing else is.
pub proof fn words_that_call_for_another_account(lower: Seq<char>)
    ensures
        contains_text(lower, "quota exceeded"@) ==> swap_helps(lower),
        contains_text(lower, "allocated quota"@) ==> swap_helps(lower),
        contains_text(lower, "upper limit"@) ==> swap_helps(lower),
        contains_text(lower, "today's usage"@) ==> swap_helps(lower),
        contains_text(lower, "token-limit"@) ==> swap_helps(lower),
        contains_text(lower, "429"@) ==> swap_helps(lower),
        contains_text(lower, "rate limit"@) ==> swap_helps(lower),
        contains_text(lower, "ratelimited"@) ==> swap_helps(lower),
        contains_text(lower, "too many"@) ==> swap_helps(lower),
        contains_text(lower, "internal_error"@) ==> swap_helps(lower),
        contains_text(lower, "internal error"@) ==> swap_helps(lower),
        contains_text(lower, "service unavailable"@) ==> swap_helps(lower),
        contains_text(lower, "503"@) ==> swap_helps(lower),
        contains_text(lower, "502"@) ==> swap_helps(lower),
        contains_text(lower, "504"@) ==> swap_helps(lower),
        swap_helps(lower) ==> contains_text(lower, "quota exceeded"@) || contains_text(
            lower,
            "allocated quota"@,
        ) || contains_text(lower, "upper limit"@) || contains_text(lower, "today's usage"@)
            || contains_text(lower, "token-limit"@) || contains_text(lower, "429"@)
            || contains_text(lower, "rate limit"@) || contains_text(lower, "ratelimited"@)
            || contains_text(lower, "too many"@) || contains_text(lower, "internal_error"@)
            || contains_text(lower, "internal error"@) || contains_text(
            lower,
            "service unavailable"@,
        ) || contains_text(lower, "503"@) || contains_text(lower, "502"@) || contains_text(
            lower,
            "504"@,
        ),
{
}

/// Whether a lower-case error text speaks of a rate limit or of a daily quota.
fn limit_named(lower: &Vec<char>) -> (yes: bool)
    ensures
        yes == speaks_of_limit(lower@),
{
    contains(lower, "429") || contains(lower, "rate limit") || contains(lower, "ratelimited")
        || contains(lower, "too many") || contains(lower, "upper limit") || contains(
        lower,
        "today's usage",
    )
}

/// Whether another account is likely to succeed where this lower-case error text came.
pub fn lower_is_swap_retryable(lower: &str) -> (yes: bool)
    ensures
        yes == swap_helps(lower@),
{
    let chars = chars_of(lower);
    if contains(&chars, "quota exceeded") || contains(&chars, "allocated quota") || contains(
        &chars,
        "token-limit",
    ) {
        return true;
    }
    if limit_named(&chars) {
        return true;
    }
    contains(&chars, "internal_error") || contains(&chars, "internal error") || contains(
        &chars,
        "service unavailable",
    ) || contains(&chars, "503") || contains(&chars, "502") || contains(&chars, "504")
}

/// Whether an upstream error goes away with another account: a used-up quota, a rate limit, or a
/// passing fault of the upstream. Such an error has nothing to do with the prompt, so a request
/// is tried again elsewhere even after part of an answer has been passed on.
pub fn is_account_swap_retryable(err: &str) -> (yes: bool)
    ensures
        yes == swap_helps(lower_form(err@)),
{
    let lower = to_lowercase(err);
    lower_is_swap_retryable(lower.as_str())
}

/// Why an account is marked as invalid.
#[derive(Debug, Clone, Copy, PartialEq, Eq, Structural)]
pub enum InvalidReason {
    PendingActivation,
    AuthError,
}

impl InvalidReason {
    /// The word that the account pool stores.
    pub open spec fn word(self) -> Seq<char> {
        match self {
            InvalidReason::PendingActivation => "pending_activation"@,
            InvalidReason::AuthError => "auth_error"@,
        }
    }

    /// The word that the account pool stores.
    pub fn as_str(&self) -> (word: &'static str)
        ensures
            word@ == self.word(),
            self is PendingActivation ==> word@ == "pending_activation"@,
            self is AuthError ==> word@ == "auth_error"@,
    {
        match self {
            InvalidReason::PendingActivation => "pending_activation",
            InvalidReason::AuthError => "auth_error",
        }
    }
}

/// What an error does to the account that met it.
#[derive(Debug, Clone, Copy, PartialEq, Eq, Structural)]
pub enum AccountMark {
    /// The account rests for a while.
    RateLimited,
    /// The account's login counts as failed.
    Invalid(InvalidReason),
    /// The account stays as it is.
    Unchanged,
}

/// What a lower-case error text does to an account.
pub open spec fn mark_for(lower: Seq<char>) -> AccountMark {
    if speaks_of_limit(lower) {
        AccountMark::RateLimited
    } else if speaks_of_refusal(lower) {
        if speaks_of_activation(lower) {
            AccountMark::Invalid(InvalidReason::PendingActivation)
        } else {
            AccountMark::Invalid(InvalidReason::AuthError)
        }
    } else {
        AccountMark::Unchanged
    }
}

/// The account rests exactly where the text names a limit: any of six words, each alone enough.
pub proof fn words_that_put_an_account_to_rest(lower: Seq<char>)
    ensures
        contains_text(lower, "429"@) ==> mark_for(lower) == AccountMark::RateLimited,
        contains_text(lower, "rate limit"@) ==> mark_for(lower) == AccountMark::RateLimited,
        contains_text(lower, "ratelimited"@) ==> mark_for(lower) == AccountMark::RateLimited,
        contains_text(lower, "too many"@) ==> mark_for(lower) == AccountMark::RateLimited,
        contains_text(lower, "upper limit"@) ==> mark_for(lower) == AccountMark::RateLimited,
        contains_text(lower, "today's usage"@) ==> mark_for(lower) == AccountMark::RateLimited,
        mark_for(lower) == AccountMark::RateLimited ==> contains_text(lower, "429"@)
            || contains_text(lower, "rate limit"@) || contains_text(lower, "ratelimited"@)
            || contains_text(lower, "too many"@) || contains_text(lower, "upper limit"@)
            || contains_text(lower, "today's usage"@),
{
}

/// Where no limit is named, each of three words alone marks the account as invalid: waiting for
/// its activation exactly where the text speaks of that, else as refused. A text without any of
/// these words leaves the account as it is.
pub proof fn words_that_make_an_account_invalid(lower: Seq<char>)
    requires
        !contains_text(lower, "429"@),
        !contains_text(lower, "rate limit"@),
        !contains_text(lower, "ratelimited"@),
        !contains_text(lower, "too many"@),
        !contains_text(lower, "upper limit"@),
        !contains_text(lower, "today's usage"@),
    ensures
        contains_text(lower, "unauthorized"@) ==> mark_for(lower) is Invalid,
        contains_text(lower, "401"@) ==> mark_for(lower) is Invalid,
        contains_text(lower, "403"@) ==> mark_for(lower) is Invalid,
        !contains_text(lower, "unauthorized"@) && !contains_text(lower, "401"@) && !contains_text(
            lower,
            "403"@,
        ) ==> mark_for(lower) == AccountMark::Unchanged,
        mark_for(lower) is Invalid && contains_text(lower, "activation"@) ==> mark_for(lower)
            == AccountMark::Invalid(InvalidReason::PendingActivation),
        mark_for(lower) is Invalid && contains_text(lower, "pending"@) ==> mark_for(lower)
            == AccountMark::Invalid(InvalidReason::PendingActivation),
        mark_for(lower) is Invalid && !contains_text(lower, "activation"@) && !contains_text(
            lower,
            "pending"@,
        ) ==> mark_for(lower) == AccountMark::Invalid(InvalidReason::AuthError),
{
}

/// What a lower-case error text does to the account.
pub fn classify_lower(lower: &str) -> (mark: AccountMark)
    ensures
        mark == mark_for(lower@),
{
    let chars = chars_of(lower);
    if limit_named(&chars) {
        return AccountMark::RateLimited;
    }
    if contains(&chars, "unauthorized") || contains(&chars, "401") || contains(&chars, "403") {
        if contains(&chars, "activation") || contains(&chars, "pending") {
            return AccountMark::Invalid(InvalidReason::PendingActivation);
        }
        return AccountMark::Invalid(InvalidReason::AuthError);
    }
    AccountMark::Unchanged
}

/// What an upstream error does to the account that met it.
pub fn classify(err: &str) -> (mark: AccountMark)
    ensures
        mark == mark_for(lower_form(err@)),
{
    let lower = to_lowercase(err);
    classify_lower(lower.as_str())
}

/// An error that puts an account to rest is one that another account gets around.
pub proof fn resting_means_retrying(lower: Seq<char>)
    requires
        mark_for(lower) == AccountMark::RateLimited,
    ensures
        swap_helps(lower),
{
}

/// Words around an error do not hide it: a text that holds a retryable text is retryable.
pub proof fn context_keeps_retryable(before: Seq<char>, err: Seq<char>, after: Seq<char>)
    requires
        swap_helps(err),
    ensures
        swap_helps(before + err + after),
{
    let all = before + err + after;
    assert forall|word: Seq<char>| #[trigger] contains_text(err, word) implies contains_text(
        all,
        word,
    ) by {
        let at = choose|at: int| crate::text::occurs_at(err, word, at);
        assert(all.subrange(before.len() + at, before.len() + at + word.len()) =~= err.subrange(
            at,
            at + word.len(),
        ));
        assert(crate::text::occurs_at(all, word, before.len() + at));
    }
    assert(contains_text(err, "429"@) ==> contains_text(all, "429"@));
}

} // verus!
