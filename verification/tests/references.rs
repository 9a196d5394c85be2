use codex_usage::adapter::{Counter, Tokens, Usage};
use codex_usage::calls::Window;
use codex_usage::activity::{Draft, FieldDraft};
use codex_usage::weekly::Time;
use codex_usage::activity::references::{
    anchor_check, identity_matches, invocation_id,
    digest_matches, record_digest, text_chunk, Cache, MAX_SCANS, MAX_TEXTS, TEXT_CHUNK,
};

fn page(text: &str, offset: Option<usize>) -> Result<(String, Option<usize>), &'static str> {
    text_chunk(text, offset).map(|p| (p.text, p.next_offset))
}

#[test]
fn text_pages_end_on_character_boundaries() {
    assert_eq!(page("hello", None), Ok((String::from("hello"), None)));
    assert_eq!(page("hello", Some(2)), Ok((String::from("llo"), None)));
    assert_eq!(page("hello", Some(5)), Ok((String::new(), None)));
    assert_eq!(page("hello", Some(6)), Err("Invalid text continuation"));
    assert_eq!(page("雪", Some(1)), Err("Invalid text continuation"));
    let long = "a".repeat(TEXT_CHUNK - 1) + "雪雪";
    let (first, next) = page(&long, None).unwrap();
    assert_eq!(first.len(), TEXT_CHUNK - 1);
    assert_eq!(next, Some(TEXT_CHUNK - 1));
    let (second, next) = page(&long, Some(TEXT_CHUNK - 1)).unwrap();
    assert_eq!(second, "雪雪");
    assert_eq!(next, None);
}

#[test]
fn record_digests_pin_the_referenced_bytes() {
    let digest = record_digest(b"abc");
    assert_eq!(digest.len(), 32);
    assert_eq!(&digest[..4], &[0xba, 0x78, 0x16, 0xbf]);
    assert!(digest_matches(b"abc", &digest));
    assert!(!digest_matches(b"abd", &digest));
    assert!(!digest_matches(b"abc", &digest[..31]));
}

#[test]
fn text_references_are_fresh_and_the_oldest_is_forgotten() {
    let mut cache: Cache<u8, u32> = Cache::new();
    let first = cache.text(7);
    assert_eq!(first, "text-1");
    assert_eq!(cache.text_source("text-1"), Some(&7));
    assert_eq!(cache.key("scan"), "scan-2");
    for value in 0..MAX_TEXTS as u32 {
        cache.text(value);
    }
    assert_eq!(cache.texts.len(), MAX_TEXTS);
    assert_eq!(cache.text_source("text-1"), None);
    assert_eq!(cache.text_source("text-3"), Some(&0));
    assert_eq!(cache.text_source("text-+3"), None);
}

#[test]
fn published_events_reference_each_field_text() {
    let mut cache: Cache<u8, &str> = Cache::new();
    cache.text("earlier");
    let draft = Draft {
        id: String::from("call-1"),
        time: Time { seconds: 5, nanos: 0 },
        kind: String::from("tool"),
        label: String::from("Tool call"),
        association: "logOrder",
        parent_id: None,
        fields: vec![
            FieldDraft { label: "Input", preview: String::from("ls"), pointer: String::from("/payload/arguments") },
            FieldDraft { label: "Output", preview: String::from("a b"), pointer: String::from("/payload/output") },
        ],
        status: None,
        paths: vec![],
        paths_inferred: false,
    };
    let event = cache.publish(draft, vec!["input source", "output source"]);
    assert_eq!(event.id, "call-1");
    assert_eq!(event.fields.len(), 2);
    assert_eq!(event.fields[0].label, "Input");
    assert_eq!(event.fields[0].text_ref, "text-2");
    assert_eq!(event.fields[1].text_ref, "text-3");
    assert_eq!(cache.text_source("text-3"), Some(&"output source"));
}

#[test]
fn paused_scans_are_taken_once_and_the_least_key_is_dropped_first() {
    let mut cache: Cache<u32, u8> = Cache::new();
    for n in 0..MAX_SCANS as u32 {
        let key = cache.key("scan");
        cache.keep_scan(key, n);
    }
    assert_eq!(cache.take_scan("scan-3"), Some(2));
    assert_eq!(cache.take_scan("scan-3"), None);
    let key = cache.key("scan");
    cache.keep_scan(key, 100);
    assert_eq!(cache.scans.len(), MAX_SCANS);
    let key = cache.key("scan");
    assert_eq!(key, "scan-10");
    cache.keep_scan(key, 200);
    assert_eq!(cache.scans.len(), MAX_SCANS);
    assert_eq!(cache.take_scan("scan-1"), None);
    let key = cache.key("scan");
    cache.keep_scan(key, 300);
    let key = cache.key("scan");
    cache.keep_scan(key, 400);
    // "scan-10" sorts before "scan-2", so it is the least key once "scan-1" left.
    assert_eq!(cache.take_scan("scan-10"), None);
    assert_eq!(cache.take_scan("scan-9"), Some(100));
    assert_eq!(cache.take_scan("scan-12"), Some(400));
}

#[test]
fn invocations_are_checked_before_their_source_is_opened() {
    use_anchor_checks();
}

fn use_anchor_checks() {
    assert_eq!(invocation_id("42"), Ok(42));
    assert_eq!(invocation_id("+42"), Ok(42));
    assert_eq!(invocation_id("0"), Err("Invalid invocation"));
    assert_eq!(invocation_id("9223372036854775808"), Err("Invalid invocation"));
    assert_eq!(invocation_id("x"), Err("Invalid invocation"));
    let window = Window {
        start: Time { seconds: 0, nanos: 0 },
        end: Time { seconds: 10, nanos: 0 },
    };
    let tokens = Tokens {
        input_tokens: Counter::Known(1),
        cached_input_tokens: Counter::Known(0),
        cache_write_input_tokens: Counter::Known(0),
        output_tokens: Counter::Known(0),
        reasoning_output_tokens: Counter::Known(0),
        total_tokens: Counter::Known(1),
    };
    let mut usage = Usage {
        thread_id: "t".into(),
        session_id: None,
        turn_id: Some("turn".into()),
        root_turn_id: None,
        response_id: None,
        usage: tokens.clone(),
        thread_token_usage: tokens,
    };
    let at = |seconds| Time { seconds, nanos: 0 };
    assert_eq!(anchor_check(7, at(5), &window, &usage), Ok(7));
    assert_eq!(anchor_check(-1, at(5), &window, &usage), Err("Invalid source offset"));
    assert_eq!(
        anchor_check(7, at(0), &window, &usage),
        Err("Invocation is outside the selected interval")
    );
    usage.response_id = Some("r".repeat(1025));
    assert_eq!(
        anchor_check(7, at(10), &window, &usage),
        Err("Activity identifiers exceed inspection limits; saved accounting remains available")
    );
    assert!(identity_matches(&None, "unix:1:2"));
    assert!(identity_matches(&Some("unix:1:2".into()), "unix:1:2"));
    assert!(!identity_matches(&Some("unix:1:3".into()), "unix:1:2"));
}
