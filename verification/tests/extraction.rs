use mkv_subtitle_extractor::extract::extract_begin;
use mkv_subtitle_extractor::extract::extract_step;
use mkv_subtitle_extractor::extract::extraction_args;
use mkv_subtitle_extractor::extract::plan_extraction;
use mkv_subtitle_extractor::extract::ExtractAction;
use mkv_subtitle_extractor::extract::ExtractEvent;
use mkv_subtitle_extractor::extract::ExtractOutcome;
use mkv_subtitle_extractor::extract::ExtractState;
use mkv_subtitle_extractor::extract::ExtractionPlan;
use mkv_subtitle_extractor::SubtitleTrack;

fn srt_track() -> SubtitleTrack {
    SubtitleTrack {
        stream_index: 0,
        lang: Some("eng".to_string()),
        format: "subrip".to_string(),
        title: None,
    }
}

fn movie_plan() -> ExtractionPlan {
    plan_extraction("movie", &srt_track())
}

#[test]
fn plan_resolves_names_selector_and_container() {
    let plan = movie_plan();
    assert_eq!(plan.final_name, "movie.0.eng.srt");
    assert_eq!(plan.temp_name, "output.srt");
    assert_eq!(plan.selector, "0:s:0");
    assert_eq!(plan.container.as_deref(), Some("srt"));
}

#[test]
fn plan_for_unknown_format_has_no_container() {
    let t = SubtitleTrack {
        stream_index: 4,
        lang: None,
        format: "webvtt".to_string(),
        title: None,
    };
    let plan = plan_extraction("movie", &t);
    assert_eq!(plan.final_name, "movie.4.sub");
    assert_eq!(plan.temp_name, "output.sub");
    assert_eq!(plan.selector, "0:s:4");
    assert_eq!(plan.container, None);
}

#[test]
fn happy_path_produces_final_file_and_no_stray_actions() {
    let plan = movie_plan();
    let (s0, a0) = extract_begin();
    assert_eq!(a0, ExtractAction::CheckFinal);
    let (s1, a1) = extract_step(&plan, s0, ExtractEvent::FinalChecked { exists: false }).unwrap();
    assert_eq!(a1, ExtractAction::CheckTemp);
    let (s2, a2) = extract_step(&plan, s1, ExtractEvent::TempChecked { exists: false }).unwrap();
    assert_eq!(a2, ExtractAction::RunCommand);
    let (s3, a3) = extract_step(
        &plan,
        s2,
        ExtractEvent::CommandFinished { success: true, diagnostic: String::new() },
    )
    .unwrap();
    assert_eq!(a3, ExtractAction::Rename);
    let (s4, a4) = extract_step(&plan, s3, ExtractEvent::Renamed).unwrap();
    assert_eq!(
        a4,
        ExtractAction::Finish(ExtractOutcome::Produced { final_name: "movie.0.eng.srt".to_string() })
    );
    assert_eq!(
        s4,
        ExtractState::Done(ExtractOutcome::Produced { final_name: "movie.0.eng.srt".to_string() })
    );
}

#[test]
fn skip_ends_the_run_without_touching_files() {
    let plan = movie_plan();
    let (s0, _) = extract_begin();
    let (s1, a1) = extract_step(&plan, s0, ExtractEvent::FinalChecked { exists: true }).unwrap();
    assert_eq!(a1, ExtractAction::AskFinalDecision);
    let (s2, a2) = extract_step(&plan, s1, ExtractEvent::FinalDecision { overwrite: false })
        .unwrap();
    assert_eq!(a2, ExtractAction::Finish(ExtractOutcome::Skipped));
    assert_eq!(s2, ExtractState::Done(ExtractOutcome::Skipped));
    // the two actions seen were prompts and checks only
    for a in [a1, a2] {
        assert!(!matches!(a, ExtractAction::DeleteTemp));
        assert!(!matches!(a, ExtractAction::RunCommand));
        assert!(!matches!(a, ExtractAction::Rename));
    }
}

#[test]
fn overwrite_decision_continues_to_temp_check() {
    let plan = movie_plan();
    let (s0, _) = extract_begin();
    let (s1, _) = extract_step(&plan, s0, ExtractEvent::FinalChecked { exists: true }).unwrap();
    let (_, a2) = extract_step(&plan, s1, ExtractEvent::FinalDecision { overwrite: true }).unwrap();
    assert_eq!(a2, ExtractAction::CheckTemp);
}

#[test]
fn abort_on_stale_temp_is_a_conflict_naming_the_temp_file() {
    let plan = movie_plan();
    let (s0, _) = extract_begin();
    let (s1, _) = extract_step(&plan, s0, ExtractEvent::FinalChecked { exists: false }).unwrap();
    let (s2, a2) = extract_step(&plan, s1, ExtractEvent::TempChecked { exists: true }).unwrap();
    assert_eq!(a2, ExtractAction::AskTempDecision);
    let (s3, a3) = extract_step(&plan, s2, ExtractEvent::TempDecision { overwrite: false })
        .unwrap();
    assert_eq!(
        a3,
        ExtractAction::Finish(ExtractOutcome::Conflict { temp_name: "output.srt".to_string() })
    );
    assert_eq!(
        s3,
        ExtractState::Done(ExtractOutcome::Conflict { temp_name: "output.srt".to_string() })
    );
}

#[test]
fn overwriting_a_stale_temp_deletes_it_first() {
    let plan = movie_plan();
    let (s0, _) = extract_begin();
    let (s1, _) = extract_step(&plan, s0, ExtractEvent::FinalChecked { exists: false }).unwrap();
    let (s2, _) = extract_step(&plan, s1, ExtractEvent::TempChecked { exists: true }).unwrap();
    let (s3, a3) = extract_step(&plan, s2, ExtractEvent::TempDecision { overwrite: true }).unwrap();
    assert_eq!(a3, ExtractAction::DeleteTemp);
    let (_, a4) = extract_step(&plan, s3, ExtractEvent::TempDeleted).unwrap();
    assert_eq!(a4, ExtractAction::RunCommand);
}

#[test]
fn tool_failure_surfaces_the_diagnostic_and_keeps_the_temp() {
    let plan = movie_plan();
    let (s0, _) = extract_begin();
    let (s1, _) = extract_step(&plan, s0, ExtractEvent::FinalChecked { exists: false }).unwrap();
    let (s2, _) = extract_step(&plan, s1, ExtractEvent::TempChecked { exists: false }).unwrap();
    let (s3, a3) = extract_step(
        &plan,
        s2,
        ExtractEvent::CommandFinished { success: false, diagnostic: "boom".to_string() },
    )
    .unwrap();
    assert_eq!(
        a3,
        ExtractAction::Finish(ExtractOutcome::ToolFailed { diagnostic: "boom".to_string() })
    );
    assert_eq!(
        s3,
        ExtractState::Done(ExtractOutcome::ToolFailed { diagnostic: "boom".to_string() })
    );
}

#[test]
fn unexpected_events_are_refused() {
    let plan = movie_plan();
    let (s0, _) = extract_begin();
    assert!(extract_step(&plan, s0.clone(), ExtractEvent::Renamed).is_none());
    assert!(extract_step(&plan, s0, ExtractEvent::TempDeleted).is_none());
    let done = ExtractState::Done(ExtractOutcome::Skipped);
    assert!(
        extract_step(&plan, done, ExtractEvent::FinalChecked { exists: false }).is_none()
    );
}

#[test]
fn extraction_args_with_container_directive() {
    let plan = movie_plan();
    let args = extraction_args(&plan, "movie.mkv");
    let expected = ["-i", "movie.mkv", "-map", "0:s:0", "-c", "copy", "-f", "srt", "output.srt"];
    assert_eq!(args.len(), expected.len());
    for (a, e) in args.iter().zip(expected.iter()) {
        assert_eq!(a, e);
    }
}

#[test]
fn extraction_args_without_container_directive() {
    let t = SubtitleTrack {
        stream_index: 1,
        lang: None,
        format: "webvtt".to_string(),
        title: None,
    };
    let plan = plan_extraction("movie", &t);
    let args = extraction_args(&plan, "movie.mkv");
    let expected = ["-i", "movie.mkv", "-map", "0:s:1", "-c", "copy", "output.sub"];
    assert_eq!(args.len(), expected.len());
    for (a, e) in args.iter().zip(expected.iter()) {
        assert_eq!(a, e);
    }
}
