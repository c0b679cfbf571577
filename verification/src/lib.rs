//! Verified core of a video-summary service: caption-track selection by an
//! ordered language preference list, transcript flattening, prompt-template
//! rendering, Markdown code-block extraction, and the two-stage summarization
//! pipeline's control logic.

use vstd::prelude::*;
use vstd::string::*;

pub mod agent;
pub mod text;

pub mod pipeline;
pub mod youtube;

verus! {

/// How a request fails: each stage of the pipeline aborts the whole request
/// with the first error it meets.
#[derive(Debug, PartialEq, Eq, Structural)]
pub enum SummaryError {
    /// No caption listing could be fetched for any preferred language tag.
    SourceUnavailable,
    /// A listing was fetched, but no track suits the preference list.
    NoMatchingTrack,
    /// The model provider's call failed at the transport level.
    ProviderCallFailure,
    /// The model provider answered without any message content.
    EmptyCompletion,
}

/// The fixed language-preference list, highest priority first.
pub fn default_languages() -> (r: Vec<String>)
    ensures
        r@.len() == 6,
        r@[0]@ == "en"@,
        r@[1]@ == "zh-TW"@,
        r@[2]@ == "ja"@,
        r@[3]@ == "zh-Hant"@,
        r@[4]@ == "ko"@,
        r@[5]@ == "zh"@,
{
    let mut v: Vec<String> = Vec::new();
    v.push(String::from_str("en"));
    v.push(String::from_str("zh-TW"));
    v.push(String::from_str("ja"));
    v.push(String::from_str("zh-Hant"));
    v.push(String::from_str("ko"));
    v.push(String::from_str("zh"));
    v
}

} // verus!
