use capcut_transcript::json::{value_kind, Json, JsonNumber};
use capcut_transcript::project::{load_draft_file, DraftFile};
use capcut_transcript::content::{
    contains_caption_signal, extract_text_from_content, find_material, text_materials,
};
use capcut_transcript::fields::{numeric_field, string_field, timerange};
use capcut_transcript::inspect::inspect_draft_content;
use capcut_transcript::transcript::{
    caption_source, convert_time_units, extract_transcript, project_label, read_capcut_transcript,
    CaptionSource, TranscriptItem,
};

fn parse(text: &str) -> Json {
    match load_draft_file(Some(text.to_string())) {
        DraftFile::Parsed(v) => v,
        other => panic!("not parsed: {:?}", other),
    }
}

fn members(value: Json) -> Vec<(String, Json)> {
    match value {
        Json::Object(entries) => entries,
        other => panic!("not an object: {:?}", other),
    }
}

fn item(id: &str, start: u64, end: u64) -> TranscriptItem {
    TranscriptItem {
        id: id.to_string(),
        start_ms: start,
        end_ms: end,
        duration_ms: end - start,
        timestamp: String::new(),
        text: id.to_string(),
    }
}

#[test]
fn kinds_are_named() {
    assert_eq!(value_kind(&Json::Null), "null");
    assert_eq!(value_kind(&Json::Bool(true)), "bool");
    assert_eq!(value_kind(&Json::Number(JsonNumber { as_u64: Some(1), as_f64_floor: Some(1) })), "number");
    assert_eq!(value_kind(&Json::String("x".to_string())), "string");
    assert_eq!(value_kind(&Json::Array(vec![])), "array");
    assert_eq!(value_kind(&Json::Object(vec![])), "object");
}

#[test]
fn parse_reports_invalid_json() {
    assert!(matches!(load_draft_file(Some("{not json".to_string())), DraftFile::NotJson));
    assert!(matches!(load_draft_file(None), DraftFile::Unreadable));
    assert!(matches!(load_draft_file(Some("[1, 2]".to_string())), DraftFile::Parsed(Json::Array(_))));
}

#[test]
fn string_field_takes_first_string_key() {
    let obj = members(parse(r#"{"text": 5, "content": "hello", "words": "later"}"#));
    assert_eq!(string_field(&obj, &["text", "content", "words"]), Some("hello".to_string()));
    assert_eq!(string_field(&obj, &["missing"]), None);
    assert_eq!(string_field(&obj, &[]), None);
}

#[test]
fn numeric_field_reads_integers_and_floats() {
    let obj = members(parse(r#"{"a": "x", "b": 12.9, "c": 7, "d": -3.5, "e": 1e30}"#));
    assert_eq!(numeric_field(&obj, &["a", "b"]), Some(12));
    assert_eq!(numeric_field(&obj, &["c", "b"]), Some(7));
    assert_eq!(numeric_field(&obj, &["d"]), Some(0));
    assert_eq!(numeric_field(&obj, &["e"]), Some(u64::MAX));
    assert_eq!(numeric_field(&obj, &["a"]), None);
}

#[test]
fn timerange_prefers_target_range() {
    let seg = members(parse(
        r#"{"target_timerange": {"start": 100, "duration": 50}, "timerange": {"start": 1, "duration": 2}}"#,
    ));
    assert_eq!(timerange(&seg), Some((100, 50)));
}

#[test]
fn timerange_range_needs_both_fields() {
    let seg = members(parse(r#"{"timerange": {"start": 100}, "start": 3, "duration": 4}"#));
    assert_eq!(timerange(&seg), None);
}

#[test]
fn timerange_falls_back_to_segment_fields() {
    let seg = members(parse(r#"{"startTime": 1000, "endTime": 2500}"#));
    assert_eq!(timerange(&seg), Some((1000, 1500)));
    let seg = members(parse(r#"{"start_time": 3000, "end": 1000}"#));
    assert_eq!(timerange(&seg), Some((3000, 0)));
    let seg = members(parse(r#"{"start": 10, "duration": 5, "end": 100}"#));
    assert_eq!(timerange(&seg), Some((10, 5)));
    let seg = members(parse(r#"{"duration": 5}"#));
    assert_eq!(timerange(&seg), None);
    let seg = members(parse(r#"{"target_timerange": 7, "start": 10, "end": 30}"#));
    assert_eq!(timerange(&seg), Some((10, 20)));
}

#[test]
fn caption_signal_searches_keys_and_values() {
    assert!(contains_caption_signal(&parse(r#"{"type": "Subtitle"}"#)));
    assert!(contains_caption_signal(&parse(r#"{"auto_caption": 1}"#)));
    assert!(contains_caption_signal(&parse(r#"[1, [{"x": "speech RECOGNIZE"}]]"#)));
    assert!(!contains_caption_signal(&parse(r#"{"type": "text", "n": 3}"#)));
    assert!(!contains_caption_signal(&Json::Null));
}

#[test]
fn content_text_of_plain_string_is_trimmed() {
    assert_eq!(extract_text_from_content(&Json::String("  hi there \n".to_string())), Some("hi there".to_string()));
}

#[test]
fn content_text_parses_embedded_json() {
    let v = Json::String(r#"  {"text": "<b>Hello</b>", "styles": []} "#.to_string());
    assert_eq!(extract_text_from_content(&v), Some("<b>Hello</b>".to_string()));
    let v = Json::String(r#"[{"text": "a"}, {"text": "  "}, {"words": "b"}]"#.to_string());
    assert_eq!(extract_text_from_content(&v), Some("a b".to_string()));
}

#[test]
fn content_text_keeps_unparsable_brace_text() {
    let v = Json::String("{not json".to_string());
    assert_eq!(extract_text_from_content(&v), Some("{not json".to_string()));
}

#[test]
fn content_text_of_embedded_json_without_text_is_none() {
    let v = Json::String(r#"{"other": 1}"#.to_string());
    assert_eq!(extract_text_from_content(&v), None);
}

#[test]
fn content_text_of_object_searches_children() {
    let v = parse(r#"{"texts": 3, "children": [{"content": "x"}, {"text": "y"}], "items": "z"}"#);
    assert_eq!(extract_text_from_content(&v), Some("x y".to_string()));
    let v = parse(r#"{"texts": 3, "children": {"a": 1}, "items": " z "}"#);
    assert_eq!(extract_text_from_content(&v), Some("z".to_string()));
    assert_eq!(extract_text_from_content(&Json::Bool(true)), None);
}

#[test]
fn materials_keep_the_last_of_an_id() {
    let draft = parse(
        r#"{"materials": {"texts": [
            {"id": "m1", "content": "{\"text\": \"first  line\"}"},
            {"id": "m2", "text": "   "},
            {"material_id": "m3", "words": "caption words"},
            {"id": "m1", "text": "replaced"},
            {"text": "no id"}
        ]}}"#,
    );
    let materials = text_materials(&draft);
    assert_eq!(materials.len(), 3);
    assert_eq!(materials[0].text, "first line");
    assert!(!materials[0].caption);
    assert!(materials[1].caption);
    let m1 = find_material(&materials, "m1").unwrap();
    assert_eq!(m1.text, "replaced");
    assert!(find_material(&materials, "m2").is_none());
}

#[test]
fn convert_keeps_millisecond_times() {
    let mut items = vec![item("a", 1_000, 2_000), item("b", 61_000, 86_400_000)];
    convert_time_units(&mut items);
    assert_eq!(items[0].start_ms, 1_000);
    assert_eq!(items[0].timestamp, "00:00:01");
    assert_eq!(items[1].timestamp, "00:01:01");
}

#[test]
fn convert_rescales_microsecond_times() {
    let mut items = vec![item("a", 2_000_000, 3_500_999), item("b", 86_400_001, 86_400_001)];
    convert_time_units(&mut items);
    assert_eq!(items[0].start_ms, 2_000);
    assert_eq!(items[0].end_ms, 3_500);
    assert_eq!(items[0].duration_ms, 1_500);
    assert_eq!(items[0].timestamp, "00:00:02");
    assert_eq!(items[1].start_ms, 86_400);
    assert_eq!(items[1].timestamp, "00:01:26");
}

const DRAFT: &str = r#"{
  "materials": {"texts": [
    {"id": "t1", "content": "{\"text\":\"Hello   world\"}", "type": "subtitle"},
    {"id": "t2", "content": "Plain title"},
    {"id": "t3", "content": "Second caption"}
  ]},
  "tracks": [
    {"type": "text", "segments": [
      {"id": "s2", "material_id": "t3", "target_timerange": {"start": 5000000, "duration": 1000000}},
      {"id": "s1", "material_id": "t1", "target_timerange": {"start": 1000000, "duration": 2000000}},
      {"id": "s3", "material_id": "t2", "target_timerange": {"start": 0, "duration": 10}},
      {"id": "s1", "material_id": "t1", "target_timerange": {"start": 9000000, "duration": 1}}
    ]},
    {"type": "video", "segments": "none"},
    {"flag": "caption track", "segments": [
      {"material_id": "t2", "start": 7000000, "end": 8000000},
      {"material_id": "missing", "start": 1, "duration": 1}
    ]}
  ]
}"#;

#[test]
fn transcript_from_a_draft() {
    let draft = parse(DRAFT);
    let items = extract_transcript(&draft);
    let ids: Vec<&str> = items.iter().map(|i| i.id.as_str()).collect();
    assert_eq!(ids, vec!["s1", "s2", "t2:7000000:1000000"]);
    assert_eq!(items[0].text, "Hello world");
    assert_eq!(items[0].start_ms, 1_000_000);
    assert_eq!(items[0].end_ms, 3_000_000);
    assert_eq!(items[0].duration_ms, 2_000_000);
    assert_eq!(items[0].timestamp, "00:16:40");
    assert_eq!(items[1].text, "Second caption");
    assert_eq!(items[2].text, "Plain title");
    assert_eq!(items[2].timestamp, "01:56:40");
}

#[test]
fn transcript_without_tracks_is_empty() {
    assert!(extract_transcript(&parse(r#"{"materials": {}}"#)).is_empty());
    assert!(extract_transcript(&parse(r#"[1]"#)).is_empty());
}

#[test]
fn transcript_keeps_document_order_for_equal_starts() {
    let draft = parse(
        r#"{"materials": {"texts": [{"id": "m", "text": "caption"}]},
            "tracks": [{"segments": [
              {"id": "b", "material_id": "m", "start": 5, "duration": 1},
              {"id": "a", "material_id": "m", "start": 5, "duration": 2},
              {"id": "c", "material_id": "m", "start": 1, "duration": 3}
            ]}]}"#,
    );
    let items = extract_transcript(&draft);
    let ids: Vec<&str> = items.iter().map(|i| i.id.as_str()).collect();
    assert_eq!(ids, vec!["c", "b", "a"]);
}

#[test]
fn transcript_end_saturates() {
    let draft = parse(
        r#"{"materials": {"texts": [{"id": "m", "text": "caption"}]},
            "tracks": [{"segments": [{"material_id": "m", "start": 18446744073709551615, "duration": 5}]}]}"#,
    );
    let items = extract_transcript(&draft);
    assert_eq!(items.len(), 1);
    assert_eq!(items[0].start_ms, u64::MAX / 1000);
    assert_eq!(items[0].end_ms, u64::MAX / 1000);
}

#[test]
fn inspection_lines_describe_the_draft() {
    let lines = inspect_draft_content(&parse(DRAFT));
    assert_eq!(lines[0], "[CapCut Draft Content Inspection]");
    assert_eq!(lines[1], "Top-level keys: materials, tracks");
    assert_eq!(lines[2], "materials: object(1 keys)");
    assert_eq!(lines[3], "tracks: array(3)");
    assert_eq!(lines[4], "materials keys: texts");
    assert_eq!(lines[5], "materials.texts: 3");
    assert_eq!(lines[6], "tracks: 3");
    assert_eq!(lines[7], "track segments: 6");
    assert_eq!(lines.len(), 8);
    let lines = inspect_draft_content(&parse(r#"{"a": null, "b": "s"}"#));
    assert_eq!(lines, vec!["[CapCut Draft Content Inspection]", "Top-level keys: a, b", "a: null", "b: string"]);
    assert_eq!(inspect_draft_content(&Json::Null).len(), 1);
}

#[test]
fn transcript_result_of_a_draft() {
    let (result, lines) = read_capcut_transcript("p1".to_string(), load_draft_file(Some(DRAFT.to_string()))).unwrap();
    assert_eq!(result.project_id, "p1");
    assert!(result.caption_file_found);
    assert_eq!(result.caption_count, 3);
    assert_eq!(result.duration_ms, 8_000_000);
    assert_eq!(result.duration, "02:13:20");
    assert_eq!(lines.len(), 8);
}

#[test]
fn transcript_errors() {
    let err = read_capcut_transcript("p".to_string(), DraftFile::Unreadable).unwrap_err();
    assert_eq!(err.message, "Caption belum dapat dibaca dari project ini.");
    assert_eq!(err.detail, "File project CapCut tidak dapat dibaca.");
    let err = read_capcut_transcript("p".to_string(), DraftFile::NotJson).unwrap_err();
    assert_eq!(err.detail, "File project CapCut bukan JSON yang valid.");
}

#[test]
fn empty_transcript_has_zero_duration() {
    let (result, _) = read_capcut_transcript("p".to_string(), DraftFile::Parsed(Json::Null)).unwrap();
    assert_eq!(result.caption_count, 0);
    assert_eq!(result.duration_ms, 0);
    assert_eq!(result.duration, "00:00:00");
}

#[test]
fn labels_and_sources() {
    assert_eq!(project_label(Some("abc".to_string())), "abc");
    assert_eq!(project_label(None), "-");
    assert_eq!(caption_source(true), CaptionSource::DraftContent);
    assert_eq!(caption_source(false), CaptionSource::DraftInfo);
}

const MICROSECOND_DRAFT: &str = r#"{
  "materials": {"texts": [{"id": "m", "content": "[\"hello\", \"  \", \"there\"]"}]},
  "tracks": [{"type": "subtitle", "segments": [
    {"material_id": "m", "target_timerange": {"start": 90000000, "duration": 2500000}},
    {"material_id": "m", "target_timerange": {"start": 3000000, "duration": 1000000}}
  ]}]
}"#;

#[test]
fn transcript_in_microseconds_is_rescaled() {
    let draft = parse(MICROSECOND_DRAFT);
    let items = extract_transcript(&draft);
    assert_eq!(items.len(), 2);
    assert_eq!(items[0].id, "m:3000000:1000000");
    assert_eq!(items[0].start_ms, 3000);
    assert_eq!(items[0].end_ms, 4000);
    assert_eq!(items[0].timestamp, "00:00:03");
    assert_eq!(items[0].text, "hello there");
    assert_eq!(items[1].start_ms, 90000);
    assert_eq!(items[1].end_ms, 92500);
    assert_eq!(items[1].duration_ms, 2500);
    assert_eq!(items[1].timestamp, "00:01:30");
}

#[test]
fn every_line_shows_its_start() {
    for draft in [DRAFT, MICROSECOND_DRAFT] {
        for item in extract_transcript(&parse(draft)) {
            assert!(item.start_ms <= item.end_ms);
            assert_eq!(item.timestamp, capcut_transcript::text::format_timestamp(item.start_ms));
        }
    }
}

#[test]
fn uncaptioned_segments_are_skipped() {
    let draft = parse(
        r#"{"materials": {"texts": [{"id": "m", "text": "plain title"}]},
            "tracks": [{"type": "text", "segments": [{"material_id": "m", "start": 1, "duration": 1}]}]}"#,
    );
    assert!(extract_transcript(&draft).is_empty());
}
