use norted::backend::{
    merge_effective_generation_settings, record_context_attempts, ContextAttempt,
    EffectiveGenerationSettings, NormalizedSettings, ObservedValue, ResolvedEntry,
};
use norted::engines::{accept_probe, EngineProbe, InstallationState};
use norted::inference::{
    apply_request_defaults, fit_input, input_budget, map_inference_error, output_allowance,
    prepare_inference_request, truncates_middle, Fitting, GenerationSettings, InferenceMessage,
    InferenceRequest, InferenceRole, OutputFormat, PreparedRequest, ReasoningEffort, SettingValue,
    UnsignedIntegerOrChoiceValue,
};
use norted::lifecycle::RuntimeError;
use norted::order::{compare_i64, compare_numbers, compare_u64, Order};
use norted::provenance::{
    environment_provenance, native_argument_provenance, reconcile_effective_settings, sha256_text,
    EffectiveSetting, NativeArgumentProvenance, ReportedValue, SettingSource,
};
use norted::supervisor::{
    captured_command, exit_detail, exit_record, immediate_termination_outcome, record_log_line,
    signed_text, termination_outcome, trim_returns, EngineError, LineDrain, ProcessDescriptor,
    ProcessTable, TerminationReply, WaitOutcome, LOG_LINE_LIMIT, LOG_TAIL_LINES,
};
use norted::table::Table;
use norted::text::{
    compare_text, decimal_text, has_part, pad_left, pad_right, same_ignoring_case, split_on,
    split_once, take_chars, to_ascii_upper, trim,
};

fn message(role: InferenceRole, content: &str) -> InferenceMessage {
    InferenceMessage { role, content: content.to_owned() }
}

fn no_settings() -> GenerationSettings {
    GenerationSettings {
        temperature: None,
        top_p: None,
        top_k: None,
        min_p: None,
        seed: None,
        repeat_penalty: None,
        presence_penalty: None,
        frequency_penalty: None,
        stop: None,
        reasoning_enabled: None,
        reasoning_budget: None,
        reasoning_effort: None,
    }
}

fn request(messages: Vec<InferenceMessage>) -> InferenceRequest {
    InferenceRequest {
        model_profile_id: "chat".to_owned(),
        messages,
        generation_settings: no_settings(),
        max_output_tokens: None,
        output_format: None,
    }
}

fn settings(list: Vec<(&str, SettingValue)>) -> Table<SettingValue> {
    let mut table: Table<SettingValue> = Table::new();
    for (id, value) in list {
        table.insert(id.to_owned(), value);
    }
    table
}

#[test]
fn defaults_stand_behind_what_a_request_says() {
    let defaults = settings(vec![
        ("top_k", SettingValue::UnsignedInteger(40)),
        ("min_p", SettingValue::Float(0.05f64.to_bits())),
        (
            "seed",
            SettingValue::UnsignedIntegerOrChoice(UnsignedIntegerOrChoiceValue::UnsignedInteger(7)),
        ),
        ("stop_strings", SettingValue::StringList(vec!["END".to_owned()])),
        ("reasoning", SettingValue::Choice("on".to_owned())),
        ("reasoning_budget", SettingValue::Integer(-1)),
        ("reasoning_effort", SettingValue::Choice("high".to_owned())),
        ("max_output_tokens", SettingValue::UnsignedInteger(256)),
        ("system_prompt", SettingValue::Text("Be brief.".to_owned())),
        ("structured_output_schema", SettingValue::Json("{}".to_owned())),
    ]);
    let plain = apply_request_defaults(
        request(vec![message(InferenceRole::User, "hello")]),
        &defaults,
        true,
    );
    assert_eq!(plain.generation_settings.top_k, Some(40));
    assert_eq!(plain.generation_settings.min_p, Some(0.05f64.to_bits()));
    assert_eq!(plain.generation_settings.seed, Some(7));
    assert_eq!(plain.generation_settings.stop, Some(vec!["END".to_owned()]));
    assert_eq!(plain.generation_settings.reasoning_enabled, Some(true));
    assert_eq!(plain.generation_settings.reasoning_budget, Some(-1));
    assert_eq!(plain.generation_settings.reasoning_effort, Some(ReasoningEffort::High));
    assert_eq!(plain.max_output_tokens, Some(256));
    assert_eq!(plain.messages[0].content, "Be brief.");
    assert!(matches!(plain.output_format, Some(OutputFormat::JsonSchema { .. })));

    let mut asked = request(vec![
        message(InferenceRole::Developer, "Be long."),
        message(InferenceRole::User, "hello"),
    ]);
    asked.max_output_tokens = Some(5);
    asked.generation_settings.top_k = Some(1);
    let kept = apply_request_defaults(asked, &defaults, false);
    assert_eq!(kept.max_output_tokens, Some(5));
    assert_eq!(kept.generation_settings.top_k, Some(1));
    assert_eq!(kept.generation_settings.reasoning_budget, None);
    assert_eq!(kept.messages.len(), 2);
}

#[test]
fn long_conversations_are_shortened_in_the_middle() {
    let mut messages = vec![
        message(InferenceRole::System, "rules"),
        message(InferenceRole::User, "old"),
        message(InferenceRole::Assistant, "older answer"),
        message(InferenceRole::User, "new"),
    ];
    assert!(matches!(fit_input(&mut messages, Some(100), 50), Ok(Fitting::Shortened)));
    assert_eq!(messages.len(), 3);
    assert_eq!(messages[0].content, "rules");
    assert_eq!(messages[1].content, "older answer");
    assert!(matches!(fit_input(&mut messages, Some(50), 50), Ok(Fitting::Fits)));
    assert!(matches!(fit_input(&mut messages, Some(60), 50), Ok(Fitting::Shortened)));
    assert_eq!(messages.len(), 2);
    assert!(fit_input(&mut messages, Some(60), 50).is_err());
    assert_eq!(messages[1].content, "new");
    assert!(fit_input(&mut messages, None, 50).is_err());
}

#[test]
fn bounded_requests_need_an_allowance_and_a_capacity() {
    let truncating = settings(vec![(
        "context_overflow",
        SettingValue::Choice("truncate_middle".to_owned()),
    )]);
    assert!(truncates_middle(&truncating));
    assert!(!truncates_middle(&settings(Vec::new())));
    assert!(matches!(
        prepare_inference_request(request(Vec::new()), &settings(Vec::new()), true),
        Ok(PreparedRequest::Complete(_))
    ));
    assert!(prepare_inference_request(request(Vec::new()), &truncating, true).is_err());
    let mut bounded = request(Vec::new());
    bounded.max_output_tokens = Some(100);
    let bounded = match prepare_inference_request(bounded, &truncating, true) {
        Ok(PreparedRequest::Bounded(bounded)) => bounded,
        _ => panic!("the request is bounded"),
    };
    assert_eq!(bounded.output_allowance, 100);
    assert_eq!(bounded.capacity(Some(1_000)).ok().expect("budget").input_budget, 900);
    assert!(output_allowance(None).is_err());
    assert!(matches!(input_budget(Some(1_000), 100), Ok(900)));
    assert!(input_budget(None, 100).is_err());
    assert!(matches!(input_budget(Some(100), 100), Ok(0)));
    assert_eq!(
        input_budget(Some(99), 100).err().expect("no room").message(),
        EngineError::InvalidGenerationSettings(
            "maximum output allowance 100 leaves no input capacity in the exact 99-token context"
                .to_owned()
        )
        .message()
    );
}

#[test]
fn engine_errors_become_inference_errors() {
    assert!(matches!(
        map_inference_error(EngineError::TimedOut("slow".to_owned())),
        RuntimeError::InferenceTimedOut(detail) if detail.contains("slow")
    ));
    assert!(matches!(
        map_inference_error(EngineError::BackendUnavailable("gone".to_owned())),
        RuntimeError::InferenceUnavailable(_)
    ));
    assert!(matches!(
        map_inference_error(EngineError::InvalidGenerationSettings("odd".to_owned())),
        RuntimeError::InvalidGenerationSettings(_)
    ));
    assert!(matches!(
        map_inference_error(EngineError::Operation("bad".to_owned())),
        RuntimeError::Inference(_)
    ));
    assert!(InferenceRole::Developer.is_instruction());
    assert!(!InferenceRole::Assistant.is_instruction());
}

#[test]
fn secrets_are_recorded_by_their_digest() {
    let recorded = native_argument_provenance(&vec![
        "--port".to_owned(),
        "9000".to_owned(),
        "--api-key".to_owned(),
        "hidden value".to_owned(),
        "--api-key=hidden value".to_owned(),
        "hidden value".to_owned(),
    ]);
    assert!(matches!(recorded[0], NativeArgumentProvenance::Value(ref text) if text == "--port"));
    assert!(matches!(
        recorded[1],
        NativeArgumentProvenance::Redacted { ref argument, ref value_sha256 }
            if argument == "--port=<redacted>" && *value_sha256 == sha256_text("9000")
    ));
    assert!(matches!(
        recorded[5],
        NativeArgumentProvenance::Redacted { ref argument, .. }
            if argument == "<positional:5>=<redacted>"
    ));
    let digest = sha256_text("hidden value");
    assert!(recorded.iter().any(|argument| matches!(
        argument,
        NativeArgumentProvenance::Redacted { value_sha256, .. } if *value_sha256 == digest
    )));
    assert!(recorded.iter().all(|argument| match argument {
        NativeArgumentProvenance::Value(text) => !text.contains("hidden value"),
        NativeArgumentProvenance::Redacted { argument, .. } => !argument.contains("hidden value"),
    }));
}

#[test]
fn environments_are_recorded_by_name() {
    let mut own: Table<String> = Table::new();
    own.insert("CUDA_VISIBLE_DEVICES".to_owned(), "0".to_owned());
    let parent = vec![
        ("PATH".to_owned(), "/bin".to_owned()),
        ("LD_PRELOAD".to_owned(), "x".to_owned()),
        ("CUDA_VISIBLE_DEVICES".to_owned(), "1".to_owned()),
    ];
    let alone = environment_provenance(&own, &Vec::new(), false, &parent);
    assert_eq!(alone.len(), 1);
    assert_eq!(alone[0].name, "CUDA_VISIBLE_DEVICES");
    assert!(!alone[0].inherited);
    assert_eq!(alone[0].value_sha256, sha256_text("0"));
    let inherited = environment_provenance(&own, &vec!["LD_PRELOAD".to_owned()], true, &parent);
    assert!(inherited.iter().all(|variable| variable.name != "LD_PRELOAD"));
    assert!(inherited
        .iter()
        .any(|variable| variable.name == "CUDA_VISIBLE_DEVICES" && !variable.inherited));
}

#[test]
fn reported_values_become_effective() {
    let mut effective: Table<EffectiveSetting> = Table::new();
    effective.insert(
        "q27.kv".to_owned(),
        EffectiveSetting {
            value: "auto".to_owned(),
            source: SettingSource::ModelProfile,
            detail: None,
        },
    );
    let mut reported: Table<ReportedValue> = Table::new();
    reported.insert(
        "q27.kv".to_owned(),
        ReportedValue { display: "fp8".to_owned(), valid_id: true },
    );
    reported.insert(
        "not an id".to_owned(),
        ReportedValue { display: "x".to_owned(), valid_id: false },
    );
    reconcile_effective_settings(&mut effective, &reported);
    assert!(!effective.contains("not an id"));
    assert_eq!(effective.get("q27.kv").expect("setting").value, "fp8");
}

#[test]
fn observations_take_generation_settings_and_attempts() {
    let mut entries: Table<ObservedValue> = Table::new();
    entries.insert("observed_kv_mode".to_owned(), ObservedValue::Text("q8".to_owned()));
    entries.insert("observed_served_context".to_owned(), ObservedValue::Count(200_000));
    let mut observation = NormalizedSettings {
        entries,
        resolved: ResolvedEntry::Absent,
    };
    let effective = EffectiveGenerationSettings {
        temperature: "0.7".to_owned(),
        top_p: "0.9".to_owned(),
    };
    assert!(merge_effective_generation_settings(&mut observation, &effective).is_ok());
    assert!(matches!(observation.resolved, ResolvedEntry::Object(ref values)
        if values.get("temperature").is_some_and(|value| value.display == "0.7")));
    record_context_attempts(
        &mut observation,
        &vec![ContextAttempt { kv_mode: "fp8".to_owned(), observed_context: 180_000 }],
    );
    let mut recorded: usize = 0;
    for i in 0..observation.entries.len() {
        if let ObservedValue::Attempts(list) = observation.entries.value_at(i) {
            recorded = list.len();
            assert_eq!(list[0].kv_mode, "fp8");
            assert_eq!(list[1].kv_mode, "q8");
        }
    }
    assert_eq!(recorded, 2);
    let mut unusable = NormalizedSettings {
        entries: Table::new(),
        resolved: ResolvedEntry::Other,
    };
    assert!(merge_effective_generation_settings(&mut unusable, &effective).is_err());
}

#[test]
fn output_is_kept_line_by_line() {
    let mut drain = LineDrain::new();
    drain.feed(b"first\r\nsec");
    drain.feed(b"ond\nthird");
    assert_eq!(drain.snapshot(), ["first", "second"]);
    drain.finish();
    assert_eq!(drain.snapshot(), ["first", "second", "third"]);
    let mut many = LineDrain::new();
    for i in 0..200u32 {
        many.feed(format!("line {i}\n").as_bytes());
    }
    let tail = many.snapshot();
    assert_eq!(tail.len(), LOG_TAIL_LINES);
    assert_eq!(tail[LOG_TAIL_LINES - 1], "line 199");
    let mut long = LineDrain::new();
    long.feed("x".repeat(LOG_LINE_LIMIT + 10).as_bytes());
    long.feed(b"\n");
    assert_eq!(long.snapshot()[0].len(), LOG_LINE_LIMIT);
    let mut lossy: Vec<String> = Vec::new();
    record_log_line(&mut lossy, b"a\xffb\r\r");
    assert_eq!(lossy, ["a\u{fffd}b"]);
    assert_eq!(trim_returns("a\r\r"), "a");
}

#[test]
fn exits_are_told() {
    let (exit, told) = exit_record(
        42,
        WaitOutcome::Exited { success: false, code: Some(3) },
        false,
        vec!["no".to_owned(), "memory".to_owned()],
    );
    assert_eq!(exit.code, Some(3));
    assert!(told.is_ok());
    assert!(exit_detail(&exit).ends_with("; no | memory"));
    let (_, told) = exit_record(42, WaitOutcome::Failed("lost".to_owned()), true, Vec::new());
    assert!(told.is_err());
    let captured = captured_command(true, Some(0), b"out \xff", b"err");
    assert_eq!(captured.stdout, "out \u{fffd}");
    assert_eq!(captured.stderr, "err");
    assert_eq!(signed_text(-5), "-5");
    assert_eq!(signed_text(i64::MIN), "-9223372036854775808");
}

fn descriptor(supervisor_id: &str, process_id: u32) -> ProcessDescriptor {
    ProcessDescriptor {
        supervisor_id: supervisor_id.to_owned(),
        process_id,
        engine_id: "e".to_owned(),
        runtime_id: "r".to_owned(),
        runtime_version: "1".to_owned(),
        runtime_variant: "d".to_owned(),
        runtime_executable_sha256: "aa".to_owned(),
        model_id: "m".to_owned(),
        endpoint: None,
        launched_at_unix: 1,
    }
}

#[test]
fn processes_are_known_by_identifier_and_number() {
    let mut table = ProcessTable::new();
    table.track(&descriptor("one", 1));
    table.track(&descriptor("two", 2));
    assert!(table.find(&descriptor("one", 1)).is_ok());
    assert!(table.find(&descriptor("one", 9)).is_err());
    assert!(table.find_to_read(&descriptor("two", 2)).is_ok());
    table.record_exit("one");
    assert!(matches!(table.find(&descriptor("one", 1)), Ok(true)));
    assert!(matches!(table.find_to_end(&descriptor("two", 2)), Ok(false)));
    table.forget_exited();
    assert!(table.find(&descriptor("one", 1)).is_err());
    let ended = table.shut_down();
    assert_eq!(ended.len(), 1);
    assert_eq!(ended[0].supervisor_id, "two");
    let named = descriptor("", 3).identified();
    assert_eq!(named.supervisor_id.len(), 36);
    assert_ne!(named.supervisor_id, descriptor("", 3).identified().supervisor_id);
}

#[test]
fn terminations_are_judged_by_the_reply() {
    assert!(termination_outcome(TerminationReply::Ended, false).is_ok());
    assert!(termination_outcome(TerminationReply::Refused("no".to_owned()), false).is_err());
    assert!(termination_outcome(TerminationReply::Silent, false).is_err());
    assert!(immediate_termination_outcome(TerminationReply::Ended, false).is_ok());
    assert!(immediate_termination_outcome(TerminationReply::ChannelClosed, true).is_ok());
}

#[test]
fn probes_that_fail_are_invalid_installations() {
    let probe = accept_probe(Err("no answer".to_owned()));
    assert!(!probe.healthy);
    let fine = accept_probe(Ok(EngineProbe {
        installation: InstallationState::NotInstalled,
        healthy: false,
        detail: "absent".to_owned(),
    }));
    assert_eq!(fine.detail, "absent");
}

#[test]
fn tables_keep_their_keys_in_order() {
    let mut table: Table<u64> = Table::new();
    table.insert("b".to_owned(), 2);
    table.insert("a".to_owned(), 1);
    assert_eq!(table.insert("b".to_owned(), 3), Some(2));
    assert_eq!(table.len(), 2);
    assert_eq!(table.key_at(0), "a");
    assert_eq!(table.get("b"), Some(&3));
    assert!(table.contains("a"));
    let mut other: Table<u64> = Table::new();
    other.insert("c".to_owned(), 9);
    other.insert("a".to_owned(), 7);
    table.extend_from(&other);
    assert_eq!(table.get("a"), Some(&7));
    assert_eq!(table.len(), 3);
    assert_eq!(table.remove("c"), Some(9));
    assert_eq!(table.remove("c"), None);
}

#[test]
fn texts_are_cut_and_padded() {
    assert_eq!(decimal_text(0), "0");
    assert_eq!(decimal_text(u64::MAX), "18446744073709551615");
    assert_eq!(pad_right("ab", 4), "ab  ");
    assert_eq!(pad_left("ab", 4), "  ab");
    assert_eq!(pad_left("abcdef", 4), "abcdef");
    assert_eq!(take_chars("déjà", 2), "dé");
    assert_eq!(trim("  a b \n"), "a b");
    assert_eq!(split_once("a=b=c", '='), Some(("a".to_owned(), "b=c".to_owned())));
    assert_eq!(split_once("abc", '='), None);
    assert_eq!(split_on("a,,b", ','), ["a", "", "b"]);
    assert_eq!(to_ascii_upper("gguf-é"), "GGUF-é");
    assert!(same_ignoring_case("AbC", "aBc"));
    assert!(has_part("abcd", "bc"));
    assert!(!has_part("abcd", "cb"));
    assert_eq!(compare_text("a", "b"), Order::Less);
    assert_eq!(compare_text("b", "ab"), Order::Greater);
    assert_eq!(compare_u64(1, 2), Order::Less);
    assert_eq!(compare_i64(-1, -2), Order::Greater);
    assert_eq!(compare_numbers(&vec![1, 2], &vec![1, 2, 0]), Order::Less);
    assert_eq!(Order::Equal.and_next(Order::Less), Order::Less);
    assert_eq!(Order::Greater.reverse(), Order::Less);
}
