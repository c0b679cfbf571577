//! The two-stage summarization pipeline: transcript text to a prose summary,
//! the summary to JSON, and the JSON payload extracted from the model's
//! fenced reply. The pipeline decides; the caller performs the model calls
//! and hands each reply back.

use vstd::prelude::*;
use vstd::string::*;
use crate::agent::{extract_codeblock, extract_spec, get_summary_prompt, get_summary_to_json_prompt,
    spec_summary_template, spec_summary_to_json_template, subst};
use crate::SummaryError;

verus! {

/// A single-use bundle of a system instruction and a model identifier, sent
/// exactly one user message.
pub struct Agent {
    pub system: String,
    pub model: String,
}

/// The model identifier every agent is built with.
pub open spec fn spec_model_name() -> Seq<char> {
    "gpt-4o"@
}

/// The model identifier every agent is built with.
pub fn model_name() -> (r: &'static str)
    ensures
        r@ == spec_model_name(),
{
    "gpt-4o"
}

/// What the provider's call came back with, as the pipeline sees it.
pub enum ProviderReply {
    /// The call failed at the transport or protocol level.
    Failure,
    /// The call succeeded but the first choice carried no message content.
    NoContent,
    /// The first choice's message content.
    Content { text: String },
}

/// Where the pipeline stands: which reply it is waiting for, or how it ended.
pub enum PipelineStage {
    /// Waiting for the summarization reply.
    Summarize,
    /// Waiting for the JSON-translation reply.
    Translate,
    /// The extracted JSON payload was produced.
    Finished,
    /// A stage failed; nothing further runs.
    Aborted,
}

/// The pipeline's state between calls: the stage, and the JSON-translation
/// agent kept for the second stage.
pub struct Pipeline {
    pub stage: PipelineStage,
    pub json_agent: Agent,
}

/// What the caller must do next.
pub enum PipelineAction {
    /// Send `message` to the model as `agent` directs, and hand the reply
    /// back to `pipeline_step`.
    CallModel { agent: Agent, message: String },
    /// The pipeline is done: `output` is the extracted JSON payload.
    Finish { output: String },
    /// The pipeline failed with `error`; nothing further runs.
    Fail { error: SummaryError },
}

fn clone_agent(a: &Agent) -> (r: Agent)
    ensures
        r == *a,
{
    let r = Agent { system: a.system.clone(), model: a.model.clone() };
    r
}

/// Start the pipeline for one transcript: both stage agents are built for
/// the target language, and the first action sends the transcript, untouched,
/// to the summarization agent.
pub fn pipeline_start(lang: &str, transcript: String) -> (r: (Pipeline, PipelineAction))
    ensures
        r.0.stage is Summarize,
        r.0.json_agent.system@ == subst(spec_summary_to_json_template(), lang@),
        r.0.json_agent.model@ == spec_model_name(),
        (r.1 matches PipelineAction::CallModel { agent, message } && agent.system@ == subst(
            spec_summary_template(),
            lang@,
        ) && agent.model@ == spec_model_name() && message == transcript),
{
    let summary_agent = Agent {
        system: get_summary_prompt(lang),
        model: String::from_str(model_name()),
    };
    let json_agent = Agent {
        system: get_summary_to_json_prompt(lang),
        model: String::from_str(model_name()),
    };
    let p = Pipeline { stage: PipelineStage::Summarize, json_agent };
    (p, PipelineAction::CallModel { agent: summary_agent, message: transcript })
}

/// Feed one provider reply to the pipeline. A summarization reply with
/// content is relayed, untouched, to the JSON-translation agent — the second
/// stage never sees the transcript. A JSON-translation reply with content
/// finishes with its code-block payload extracted. A reply without content
/// aborts with `EmptyCompletion` before anything further runs; a failed call
/// aborts with `ProviderCallFailure`.
pub fn pipeline_step(p: Pipeline, reply: ProviderReply) -> (r: (Pipeline, PipelineAction))
    requires
        p.stage is Summarize || p.stage is Translate,
    ensures
        (reply is Failure ==> r.0.stage is Aborted && (r.1
            matches PipelineAction::Fail { error } && error is ProviderCallFailure)),
        (reply is NoContent ==> r.0.stage is Aborted && (r.1 matches PipelineAction::Fail { error }
            && error is EmptyCompletion)),
        p.stage is Summarize ==> (reply matches ProviderReply::Content { text } ==> r.0.stage
            is Translate && r.0.json_agent == p.json_agent && (r.1
            matches PipelineAction::CallModel { agent, message } && agent == p.json_agent
            && message == text)),
        p.stage is Translate ==> (reply matches ProviderReply::Content { text } ==> r.0.stage
            is Finished && (r.1 matches PipelineAction::Finish { output } && output@
            == extract_spec(text@))),
{
    match reply {
        ProviderReply::Failure => {
            let next = Pipeline { stage: PipelineStage::Aborted, json_agent: p.json_agent };
            (next, PipelineAction::Fail { error: SummaryError::ProviderCallFailure })
        },
        ProviderReply::NoContent => {
            let next = Pipeline { stage: PipelineStage::Aborted, json_agent: p.json_agent };
            (next, PipelineAction::Fail { error: SummaryError::EmptyCompletion })
        },
        ProviderReply::Content { text } => {
            match p.stage {
                PipelineStage::Summarize => {
                    let agent = clone_agent(&p.json_agent);
                    let next = Pipeline {
                        stage: PipelineStage::Translate,
                        json_agent: p.json_agent,
                    };
                    (next, PipelineAction::CallModel { agent, message: text })
                },
                PipelineStage::Translate => {
                    let output = extract_codeblock(text.as_str());
                    let next = Pipeline {
                        stage: PipelineStage::Finished,
                        json_agent: p.json_agent,
                    };
                    (next, PipelineAction::Finish { output })
                },
                PipelineStage::Finished | PipelineStage::Aborted => {
                    // unreachable: the stage is Summarize or Translate here
                    proof {
                        assert(false);
                    }
                    let next = Pipeline { stage: PipelineStage::Aborted, json_agent: p.json_agent };
                    (next, PipelineAction::Fail { error: SummaryError::ProviderCallFailure })
                },
            }
        },
    }
}

} // verus!
