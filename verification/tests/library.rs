use vidsummary::agent::{extract_codeblock, get_summary_prompt, get_summary_to_json_prompt,
    summary_template, summary_to_json_template};
use vidsummary::pipeline::{pipeline_start, pipeline_step, Pipeline, PipelineAction, PipelineStage,
    ProviderReply};
use vidsummary::youtube::{flatten_transcript, get_caption_language, next_fetch_attempt,
    select_track, tags_match, CaptionTrack, Event, FetchStep, Segment, Transcript};
use vidsummary::{default_languages, SummaryError};

fn track(tag: &str) -> CaptionTrack {
    CaptionTrack { lang_tag: tag.to_string() }
}

fn event(texts: Option<&[&str]>) -> Event {
    Event {
        segs: texts.map(|ts| ts.iter().map(|t| Segment { utf8: t.to_string() }).collect()),
    }
}

#[test]
fn summary_prompt_substitutes_language() {
    let rendered = get_summary_prompt("French");
    assert_eq!(rendered, summary_template().replace('$', "French"));
    assert!(rendered.contains("translate to French:"));
    assert!(!rendered.contains('$'));
}

#[test]
fn json_prompt_substitutes_language() {
    let rendered = get_summary_to_json_prompt("Korean");
    assert_eq!(rendered, summary_to_json_template().replace('$', "Korean"));
    assert!(rendered.contains("translate the JSON values to Korean:"));
    assert!(!rendered.contains('$'));
}

#[test]
fn prompt_with_empty_language_drops_placeholder() {
    let rendered = get_summary_prompt("");
    assert_eq!(rendered, summary_template().replace('$', ""));
}

#[test]
fn extract_without_fences_is_identity() {
    assert_eq!(extract_codeblock("no fences here"), "no fences here");
}

#[test]
fn extract_without_fences_is_idempotent() {
    let once = extract_codeblock("no fences here");
    assert_eq!(extract_codeblock(&once), once);
}

#[test]
fn extract_isolates_fenced_block() {
    assert_eq!(
        extract_codeblock("prefix\n```\nline1\nline2\n```\nsuffix"),
        "line1\nline2"
    );
}

#[test]
fn extract_unterminated_fence_keeps_collecting() {
    // One fence line flips the flag on and never off again, so everything
    // after it is collected; the prefix-free opener itself is dropped.
    assert_eq!(
        extract_codeblock("```\nonly one fence consumed, trailing text"),
        "only one fence consumed, trailing text"
    );
}

#[test]
fn extract_drops_text_outside_fences() {
    assert_eq!(
        extract_codeblock("prose before\n```json\n{\"a\":1}\n```\nprose after"),
        "{\"a\":1}"
    );
}

#[test]
fn extract_accepts_indented_fences_and_crlf() {
    assert_eq!(
        extract_codeblock("head\r\n  ```\r\nbody line\r\n\t```\r\ntail"),
        "body line"
    );
}

#[test]
fn extract_with_inline_backticks_only_drops_everything() {
    // The marker occurs, but no line starts with it after trimming, so the
    // flag never turns on and no line is collected.
    assert_eq!(extract_codeblock("a ``` b"), "");
}

#[test]
fn language_matching_is_by_primary_subtag() {
    assert!(tags_match("zh", "zh-TW"));
    assert!(tags_match("zh-TW", "zh-Hant"));
    assert!(tags_match("en", "en"));
    assert!(!tags_match("en", "fr"));
    assert!(!tags_match("ja", "zh"));
}

#[test]
fn second_preference_selected_when_first_matches_nothing() {
    let prefs = vec!["fr".to_string(), "en".to_string()];
    let tracks = vec![track("en")];
    assert_eq!(get_caption_language(&prefs, &tracks), Some("en".to_string()));
    assert_eq!(select_track(&prefs, &tracks), Ok(0));
}

#[test]
fn earlier_preference_wins() {
    let prefs = default_languages();
    let tracks = vec![track("ko"), track("en"), track("zh-TW")];
    assert_eq!(get_caption_language(&prefs, &tracks), Some("en".to_string()));
    assert_eq!(select_track(&prefs, &tracks), Ok(1));
}

#[test]
fn no_preference_matches_any_track() {
    let prefs = vec!["fr".to_string()];
    let tracks = vec![track("en")];
    assert_eq!(get_caption_language(&prefs, &tracks), None);
    assert_eq!(select_track(&prefs, &tracks), Err(SummaryError::NoMatchingTrack));
}

#[test]
fn subtag_match_without_exact_track_fails_selection() {
    // "en" matches "en-US" semantically, but no track tag equals "en"
    // exactly, so the final exact-tag selection finds nothing.
    let prefs = vec!["en".to_string()];
    let tracks = vec![track("en-US")];
    assert_eq!(get_caption_language(&prefs, &tracks), Some("en".to_string()));
    assert_eq!(select_track(&prefs, &tracks), Err(SummaryError::NoMatchingTrack));
}

#[test]
fn default_language_order() {
    let prefs = default_languages();
    let tags: Vec<&str> = prefs.iter().map(|s| s.as_str()).collect();
    assert_eq!(tags, ["en", "zh-TW", "ja", "zh-Hant", "ko", "zh"]);
}

#[test]
fn flatten_joins_segments_with_single_spaces() {
    let t = Transcript {
        events: vec![event(Some(&["hello", "world"])), event(Some(&["again"]))],
    };
    assert_eq!(flatten_transcript(&t), "hello world again");
}

#[test]
fn event_without_segments_contributes_nothing() {
    let t = Transcript {
        events: vec![event(Some(&["a"])), event(None), event(Some(&["b"]))],
    };
    assert_eq!(flatten_transcript(&t), "a b");
}

#[test]
fn empty_transcript_flattens_to_empty_string() {
    let t = Transcript { events: vec![] };
    assert_eq!(flatten_transcript(&t), "");
    let only_absent = Transcript { events: vec![event(None), event(None)] };
    assert_eq!(flatten_transcript(&only_absent), "");
}

#[test]
fn empty_segment_text_keeps_its_separator() {
    let t = Transcript { events: vec![event(Some(&["", "x"]))] };
    assert_eq!(flatten_transcript(&t), " x");
}

#[test]
fn fetch_attempts_walk_the_preference_list() {
    let prefs = default_languages();
    match next_fetch_attempt(&prefs, 0) {
        FetchStep::Try { tag } => assert_eq!(tag, "en"),
        FetchStep::GiveUp => panic!("expected a tag to try"),
    }
    match next_fetch_attempt(&prefs, 5) {
        FetchStep::Try { tag } => assert_eq!(tag, "zh"),
        FetchStep::GiveUp => panic!("expected a tag to try"),
    }
    assert!(matches!(next_fetch_attempt(&prefs, 6), FetchStep::GiveUp));
    // an exhausted list is what the caller reports as SourceUnavailable
    let unavailable = SummaryError::SourceUnavailable;
    assert!(matches!(unavailable, SummaryError::SourceUnavailable));
}

fn start_for_test(transcript: &str) -> (Pipeline, String) {
    let (p, action) = pipeline_start("English", transcript.to_string());
    assert!(matches!(p.stage, PipelineStage::Summarize));
    match action {
        PipelineAction::CallModel { agent, message } => {
            assert_eq!(agent.system, get_summary_prompt("English"));
            assert_eq!(agent.model, "gpt-4o");
            (p, message)
        }
        _ => panic!("expected the summarization call"),
    }
}

#[test]
fn pipeline_relays_summary_then_extracts_json() {
    let (p, message) = start_for_test("hello world");
    assert_eq!(message, "hello world");

    let summary = "Talking points: ...\nSummary: ...\n".to_string();
    let (p, action) = pipeline_step(p, ProviderReply::Content { text: summary.clone() });
    assert!(matches!(p.stage, PipelineStage::Translate));
    match action {
        PipelineAction::CallModel { agent, message } => {
            assert_eq!(agent.system, get_summary_to_json_prompt("English"));
            assert_eq!(agent.model, "gpt-4o");
            assert_eq!(message, summary);
        }
        _ => panic!("expected the JSON-translation call"),
    }

    let fenced = "```json\n{\"summary\":\"x\"}\n```".to_string();
    let (p, action) = pipeline_step(p, ProviderReply::Content { text: fenced });
    assert!(matches!(p.stage, PipelineStage::Finished));
    match action {
        PipelineAction::Finish { output } => assert_eq!(output, "{\"summary\":\"x\"}"),
        _ => panic!("expected the finished payload"),
    }
}

#[test]
fn absent_content_aborts_before_second_stage() {
    let (p, _) = start_for_test("hello world");
    let (p, action) = pipeline_step(p, ProviderReply::NoContent);
    assert!(matches!(p.stage, PipelineStage::Aborted));
    match action {
        PipelineAction::Fail { error } => {
            assert!(matches!(error, SummaryError::EmptyCompletion))
        }
        _ => panic!("an empty completion must abort the pipeline"),
    }
}

#[test]
fn provider_failure_aborts() {
    let (p, _) = start_for_test("text");
    let (p, action) = pipeline_step(p, ProviderReply::Failure);
    assert!(matches!(p.stage, PipelineStage::Aborted));
    match action {
        PipelineAction::Fail { error } => {
            assert!(matches!(error, SummaryError::ProviderCallFailure))
        }
        _ => panic!("a failed call must abort the pipeline"),
    }
}

#[test]
fn second_stage_failures_abort_too() {
    let (p, _) = start_for_test("text");
    let (p, _) = pipeline_step(p, ProviderReply::Content { text: "summary".to_string() });
    let (p, action) = pipeline_step(p, ProviderReply::NoContent);
    assert!(matches!(p.stage, PipelineStage::Aborted));
    assert!(matches!(
        action,
        PipelineAction::Fail { error: SummaryError::EmptyCompletion }
    ));
}
