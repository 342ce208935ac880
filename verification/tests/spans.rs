use nockpool_miner::entropy::NoEntropy;
use nockpool_miner::json::push_json;
use nockpool_miner::tags::Tags;
use nockpool_miner::zipkin::{
    close_span, convert_to_zipkin, flush, id_from, id_if_filled, init, make_layer, new_span_id, new_trace_id,
    normalize_zipkin_endpoint, now_epoch_us, on_close, on_new_span, on_record, read, report_level,
    open_span, Field, FieldValue, GlobalSlot, GlobalState, PostOutcome, ReportLevel, SpanBatch, SpanData,
    SpanState,
};

fn tags(entries: &[(&str, &str)]) -> Tags {
    let mut t = Tags::new();
    for (k, v) in entries {
        t.insert(k.to_string(), v.to_string());
    }
    t
}

fn field(name: &str, value: FieldValue) -> Field {
    Field { name: name.to_string(), value }
}

fn span(id: &str) -> SpanData {
    SpanData {
        trace_id: "t".to_string(),
        span_id: id.to_string(),
        parent_id: None,
        name: "proof".to_string(),
        start_time_us: 1,
        duration_us: 2,
        local_tags: Tags::new(),
    }
}

fn is_hex(s: &str, len: usize) -> bool {
    s.len() == len && s.chars().all(|c| c.is_ascii_hexdigit() && !c.is_ascii_uppercase())
}

#[test]
fn endpoint_gets_the_span_path() {
    assert_eq!(normalize_zipkin_endpoint("http://z:9411"), "http://z:9411/api/v2/spans");
    assert_eq!(normalize_zipkin_endpoint("http://z:9411///"), "http://z:9411/api/v2/spans");
    assert_eq!(
        normalize_zipkin_endpoint("http://z/api/v2/spans"),
        "http://z/api/v2/spans"
    );
    assert_eq!(
        normalize_zipkin_endpoint("http://z/api/v2/spans/"),
        "http://z/api/v2/spans/api/v2/spans"
    );
    assert_eq!(normalize_zipkin_endpoint(""), "/api/v2/spans");
}

#[test]
fn endpoint_is_stable() {
    for base in ["http://z", "http://z/", "é/", "///"] {
        let once = normalize_zipkin_endpoint(base);
        assert_eq!(normalize_zipkin_endpoint(&once), once);
        assert_eq!(normalize_zipkin_endpoint(&format!("{}/", base)), once);
    }
}

#[test]
fn identifiers_are_lower_hexadecimal() {
    assert_eq!(id_from(&vec![0x00, 0x1f, 0xab, 0xff]), "001fabff");
    assert_eq!(id_from(&vec![]), "");
}

#[test]
fn fresh_identifiers_have_their_lengths() {
    let (a, b) = (new_trace_id().unwrap(), new_trace_id().unwrap());
    assert!(is_hex(&a, 32) && is_hex(&b, 32));
    assert_ne!(a, b);
    let (a, b) = (new_span_id().unwrap(), new_span_id().unwrap());
    assert!(is_hex(&a, 16) && is_hex(&b, 16));
    assert_ne!(a, b);
}

#[test]
fn epoch_is_cut_to_its_low_bits() {
    assert_eq!(now_epoch_us(1_700_000_000_000_000), 1_700_000_000_000_000);
    assert_eq!(now_epoch_us(u64::MAX as u128 + 6), 5);
}

#[test]
fn field_values_have_their_texts() {
    assert_eq!(FieldValue::Debug("Some(1)".to_string()).text(), "Some(1)");
    assert_eq!(FieldValue::Str("s".to_string()).text(), "s");
    assert_eq!(FieldValue::Bool(true).text(), "true");
    assert_eq!(FieldValue::Bool(false).text(), "false");
    assert_eq!(FieldValue::I64(i64::MIN).text(), i64::MIN.to_string());
    assert_eq!(FieldValue::I64(-7).text(), "-7");
    assert_eq!(FieldValue::I64(40).text(), "40");
    assert_eq!(FieldValue::U64(u64::MAX).text(), u64::MAX.to_string());
    assert_eq!(FieldValue::U64(0).text(), "0");
}

#[test]
fn tags_keep_the_last_text_of_a_name() {
    let t = tags(&[("a", "1"), ("b", "2"), ("a", "3")]);
    assert_eq!(t.len(), 2);
    assert_eq!((t.name(0), t.value(0)), ("a", "3"));
    assert_eq!((t.name(1), t.value(1)), ("b", "2"));
    assert_eq!(t.get("b").unwrap(), "2");
    assert!(t.get("c").is_none());
}

#[test]
fn extending_tags_prefers_the_new_ones() {
    let mut t = tags(&[("a", "1"), ("b", "2")]);
    t.extend(&tags(&[("b", "x"), ("c", "y")]));
    assert_eq!(t.len(), 3);
    assert_eq!(t.get("a").unwrap(), "1");
    assert_eq!(t.get("b").unwrap(), "x");
    assert_eq!(t.get("c").unwrap(), "y");
    assert_eq!(t.clone().get("b").unwrap(), "x");
}

#[test]
fn only_proofs_and_benchmarks_are_exported() {
    for (name, expected) in [("proof", true), ("benchmark", true), ("other", false)] {
        let state = on_new_span(name, None, 5, &vec![]).unwrap();
        assert_eq!(state.should_export, Some(expected));
        let data = on_close(&state, None, name, 15, 100).unwrap();
        assert_eq!(data.is_some(), expected);
    }
}

#[test]
fn unexported_span_keeps_nothing() {
    let mut state = on_new_span("other", None, 5, &vec![field("k", FieldValue::Bool(true))]).unwrap();
    assert!(state.trace_id.is_none() && state.span_id.is_none());
    assert!(state.start_ns.is_none() && state.local_tags.is_none());
    on_record(&mut state, &vec![field("k", FieldValue::Bool(true))]);
    assert!(state.local_tags.is_none());
}

#[test]
fn child_joins_its_parents_trace() {
    let parent = on_new_span("benchmark", None, 0, &vec![]).unwrap();
    let child = on_new_span("proof", Some(&parent), 1, &vec![]).unwrap();
    assert_eq!(child.trace_id, parent.trace_id);
    assert_ne!(child.span_id, parent.span_id);
    let data = on_close(&child, Some(&parent), "proof", 2, 3).unwrap().unwrap();
    assert_eq!(Some(data.trace_id), parent.trace_id);
    assert_eq!(data.parent_id, parent.span_id);
    assert!(is_hex(&data.span_id, 16));
}

#[test]
fn unexported_parent_is_invisible() {
    let parent = on_new_span("other", None, 0, &vec![]).unwrap();
    let child = on_new_span("proof", Some(&parent), 1, &vec![]).unwrap();
    assert!(is_hex(child.trace_id.as_ref().unwrap(), 32));
    let data = on_close(&child, Some(&parent), "proof", 2, 3).unwrap().unwrap();
    assert!(data.parent_id.is_none());
}

#[test]
fn recorded_fields_become_tags() {
    let first = vec![field("proof", FieldValue::Str("p".to_string())), field("n", FieldValue::U64(1))];
    let mut state = on_new_span("proof", None, 10_500, &first).unwrap();
    on_record(&mut state, &vec![field("n", FieldValue::I64(-2)), field("m", FieldValue::Bool(true))]);
    let data = on_close(&state, None, "proof", 35_600, 77).unwrap().unwrap();
    assert_eq!(data.name, "proof");
    assert_eq!(data.duration_us, 25);
    assert_eq!(data.start_time_us, 77);
    assert_eq!(data.local_tags.get("proof").unwrap(), "p");
    assert_eq!(data.local_tags.get("n").unwrap(), "-2");
    assert_eq!(data.local_tags.get("m").unwrap(), "true");
}

#[test]
fn missing_parts_of_a_span_are_made_up_for() {
    let state = SpanState {
        should_export: Some(true),
        start_ns: None,
        trace_id: None,
        span_id: None,
        local_tags: None,
    };
    let data = on_close(&state, None, "proof", 9, 4).unwrap().unwrap();
    assert!(is_hex(&data.trace_id, 32) && is_hex(&data.span_id, 16));
    assert_eq!(data.duration_us, 0);
    assert_eq!(data.local_tags.len(), 0);
}

#[test]
fn clock_that_goes_back_gives_no_duration() {
    let state = on_new_span("proof", None, 10_000, &vec![]).unwrap();
    let data = on_close(&state, None, "proof", 9_000, 4).unwrap().unwrap();
    assert_eq!(data.duration_us, 0);
}

#[test]
fn duration_is_rounded_down_once() {
    for (start, end, expected) in [
        (1_900, 2_100, 0),
        (1_000, 1_999, 0),
        (1_999, 2_999, 1),
        (0, 1_500_000, 1_500),
        (7, 7 + (u64::MAX as u128 + 3) * 1_000 + 999, 2),
    ] {
        let state = on_new_span("proof", None, start, &vec![]).unwrap();
        let data = on_close(&state, None, "proof", end, 4).unwrap().unwrap();
        assert_eq!(data.duration_us, expected);
    }
}

#[test]
fn first_common_state_stays() {
    let mut slot = GlobalSlot::new();
    assert!(!slot.is_set());
    init(&mut slot, "one".to_string(), tags(&[("a", "1")]));
    init(&mut slot, "two".to_string(), tags(&[("a", "2")]));
    assert!(slot.is_set());
    assert_eq!(read(&slot).service_name, "one");
    assert_eq!(read(&slot).global_tags.get("a").unwrap(), "1");
}

#[test]
fn layer_is_set_up_with_the_device_key() {
    let mut slot = GlobalSlot::new();
    let extra = tags(&[("region", "eu"), ("device_key", "old")]);
    let config = make_layer(&mut slot, "http://z/", "miner", "dk", &extra);
    assert_eq!(config.endpoint, "http://z/api/v2/spans");
    assert_eq!(config.batch_size, 32);
    assert_eq!(config.flush_every_secs, 3);
    assert_eq!(config.timeout_secs, 5);
    assert_eq!(read(&slot).service_name, "miner");
    assert_eq!(read(&slot).global_tags.get("device_key").unwrap(), "dk");
    assert_eq!(read(&slot).global_tags.get("region").unwrap(), "eu");
}

#[test]
fn batch_is_sent_when_full() {
    let mut batch = SpanBatch::new();
    for i in 0..31 {
        assert!(batch.on_span(span(&format!("{}", i))).is_none());
    }
    let sent = batch.on_span(span("31")).unwrap();
    assert_eq!(sent.len(), 32);
    for (i, s) in sent.iter().enumerate() {
        assert_eq!(s.span_id, format!("{}", i));
    }
    assert!(batch.on_tick().is_none());
}

#[test]
fn tick_sends_what_waits() {
    let mut batch = SpanBatch::new();
    assert!(batch.on_tick().is_none());
    batch.on_span(span("a"));
    batch.on_span(span("b"));
    let sent = batch.on_tick().unwrap();
    assert_eq!(sent.len(), 2);
    assert_eq!(sent[0].span_id, "a");
    assert_eq!(sent[1].span_id, "b");
    assert!(batch.on_tick().is_none());
}

#[test]
fn json_strings_are_escaped() {
    let mut out = "x".to_string();
    push_json(&mut out, "a\"\\/\u{8}\u{c}\n\r\t\u{1}\u{1f}é\u{7f}").unwrap();
    assert_eq!(out, "x\"a\\\"\\\\/\\b\\f\\n\\r\\t\\u0001\\u001fé\u{7f}\"");
}

fn globals() -> GlobalState {
    GlobalState {
        service_name: "svc".to_string(),
        global_tags: tags(&[("g", "1"), ("both", "global")]),
    }
}

#[test]
fn payload_is_the_zipkin_format() {
    let mut s = span("i");
    s.parent_id = Some("p".to_string());
    s.start_time_us = 12;
    s.duration_us = 34;
    s.local_tags = tags(&[("both", "own"), ("l", "\"q\"")]);
    assert_eq!(
        convert_to_zipkin(&globals(), &vec![s]),
        "[{\"traceId\":\"t\",\"id\":\"i\",\"parentId\":\"p\",\"name\":\"proof\",\
         \"timestamp\":12,\"duration\":34,\"localEndpoint\":{\"serviceName\":\"svc\"},\
         \"tags\":{\"g\":\"1\",\"both\":\"own\",\"l\":\"\\\"q\\\"\"}}]"
    );
}

#[test]
fn payload_is_json() {
    let text = convert_to_zipkin(&globals(), &vec![span("a"), span("b\n")]);
    let value: serde_json::Value = serde_json::from_str(&text).unwrap();
    let items = value.as_array().unwrap();
    assert_eq!(items.len(), 2);
    assert_eq!(items[0]["id"], "a");
    assert_eq!(items[1]["id"], "b\n");
    assert!(items[0].get("parentId").is_none());
    assert_eq!(items[1]["tags"]["both"], "global");
    assert_eq!(items[1]["localEndpoint"]["serviceName"], "svc");
    assert_eq!(convert_to_zipkin(&globals(), &vec![]), "[]");
}

#[test]
fn flush_posts_nothing_for_no_spans() {
    assert!(flush(&globals(), &vec![]).is_none());
    let export = flush(&globals(), &vec![span("a")]).unwrap();
    assert_eq!(export.count, 1);
    assert_eq!(export.content_type, "application/json");
    assert_eq!(export.user_agent, "nockpool-miner/zipkin");
    assert_eq!(export.payload, convert_to_zipkin(&globals(), &vec![span("a")]));
}

#[test]
fn posts_are_reported_by_their_outcome() {
    assert_eq!(report_level(PostOutcome::Failed), ReportLevel::Error);
    assert_eq!(report_level(PostOutcome::BodyUnreadable { code: 200 }), ReportLevel::Warn);
    assert_eq!(report_level(PostOutcome::Answered { code: 202 }), ReportLevel::Debug);
    assert_eq!(report_level(PostOutcome::Answered { code: 199 }), ReportLevel::Warn);
    assert_eq!(report_level(PostOutcome::Answered { code: 300 }), ReportLevel::Warn);
}

#[test]
fn no_entropy_no_identifier() {
    assert_eq!(id_if_filled(true, &vec![1, 2]).unwrap(), "0102");
    assert_eq!(id_if_filled(false, &vec![1, 2]), Err(NoEntropy));
}

#[test]
fn open_span_needs_both_identifiers() {
    let id = |s: &str| Ok(s.to_string());
    let state = open_span(3, &vec![], id("t"), id("s")).unwrap();
    assert_eq!(state.trace_id.unwrap(), "t");
    assert_eq!(state.span_id.unwrap(), "s");
    assert_eq!(state.start_ns, Some(3));
    assert!(open_span(3, &vec![], Err(NoEntropy), id("s")).is_err());
    assert!(open_span(3, &vec![], id("t"), Err(NoEntropy)).is_err());
}

#[test]
fn close_span_prefers_kept_identifiers() {
    let id = |s: &str| Ok(s.to_string());
    let fresh = |s: &str| Some(s.to_string());
    let mut state = open_span(3, &vec![], id("t"), id("s")).unwrap();
    let data = close_span(&state, None, "proof", 2_003, 9, fresh("x"), None).unwrap();
    assert_eq!((data.trace_id.as_str(), data.span_id.as_str()), ("t", "s"));
    assert_eq!(data.duration_us, 2);
    state.span_id = None;
    assert!(close_span(&state, None, "proof", 5, 9, None, None).is_none());
    let data = close_span(&state, None, "proof", 5, 9, None, fresh("y")).unwrap();
    assert_eq!(data.span_id, "y");
}

#[test]
fn fields_add_up_and_recording_keeps_identity() {
    let a = || field("a", FieldValue::U64(1));
    let b = || field("b", FieldValue::Str("x".to_string()));
    let a_again = || field("a", FieldValue::Bool(false));
    let mut parts = on_new_span("benchmark", None, 5, &vec![a()]).unwrap();
    let trace_id = parts.trace_id.clone();
    let span_id = parts.span_id.clone();
    on_record(&mut parts, &vec![b(), a_again()]);
    assert_eq!(parts.trace_id, trace_id);
    assert_eq!(parts.span_id, span_id);
    assert_eq!(parts.start_ns, Some(5));
    let whole = on_new_span("benchmark", None, 5, &vec![a(), b(), a_again()]).unwrap();
    let parts = parts.local_tags.unwrap();
    let whole = whole.local_tags.unwrap();
    assert_eq!(parts.len(), 2);
    assert_eq!(whole.len(), 2);
    for i in 0..2 {
        assert_eq!(parts.name(i), whole.name(i));
        assert_eq!(parts.value(i), whole.value(i));
    }
    assert_eq!(parts.get("a").unwrap(), "false");
}

fn hostile(id: &str, text: &str) -> SpanData {
    let mut s = span(id);
    s.parent_id = Some(text.to_string());
    s.name = text.to_string();
    s.local_tags = tags(&[(text, "],[\"}"), ("k\\", text)]);
    s
}

fn items(globals: &GlobalState, batch: &Vec<SpanData>) -> Vec<serde_json::Value> {
    serde_json::from_str(&convert_to_zipkin(globals, batch)).unwrap()
}

#[test]
fn joined_batches_have_the_items_of_both() {
    let globals = GlobalState { service_name: "s\"{".to_string(), global_tags: tags(&[("g", ",")]) };
    let a = || vec![hostile("1", "},{"), span("2"), hostile("3", "\\\",[")];
    let b = || vec![span("4"), hostile("5", "\u{1}\"")];
    let mut both = a();
    both.extend(b());
    let mut expected = items(&globals, &a());
    expected.extend(items(&globals, &b()));
    assert_eq!(expected.len(), 5);
    assert_eq!(items(&globals, &both), expected);
    let ids: Vec<&str> = expected.iter().map(|v| v["id"].as_str().unwrap()).collect();
    assert_eq!(ids, vec!["1", "2", "3", "4", "5"]);
    let written = |batch: &Vec<SpanData>| {
        let text = convert_to_zipkin(&globals, batch);
        text[1..text.len() - 1].to_string()
    };
    assert_eq!(written(&both), format!("{},{}", written(&a()), written(&b())));
    assert_eq!(convert_to_zipkin(&globals, &vec![]), "[]");
}
