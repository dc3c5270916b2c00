use planabot::gallery::{
    gallery_data_url, gallery_referer, merge_artists, merge_tags, normalize_js_payload,
    resolve_step, Artist, GalleryInfo, GalleryRaw, ResolveAction, ResolveError, ResolveEvent,
    Tag,
};

fn simple_tags(values: &[&str]) -> Vec<Tag> {
    values.iter().map(|v| Tag::Simple(v.to_string())).collect()
}

fn info(id: &str) -> GalleryInfo {
    GalleryInfo {
        id: id.to_string(),
        title: "t".to_string(),
        artists: "a".to_string(),
        language: "l".to_string(),
        tags: Vec::new(),
    }
}

#[test]
fn alias_repeating_canonical_tags_adds_nothing() {
    let tags = simple_tags(&["a", "b"]);
    assert_eq!(merge_tags(tags.clone(), tags.clone()), vec!["a".to_string(), "b".to_string()]);
    assert_eq!(merge_tags(tags, Vec::new()), vec!["a".to_string(), "b".to_string()]);
}

#[test]
fn legacy_keys_fill_title_and_tags() {
    let raw = GalleryRaw {
        n: Some("Title".to_string()),
        t: vec![Tag::Object { tag: Some("x".to_string()) }],
        ..GalleryRaw::default()
    };
    let record = GalleryInfo::from_raw("123".to_string(), raw);
    assert_eq!(record.title, "Title");
    assert_eq!(record.tags, vec!["x".to_string()]);
}

#[test]
fn empty_payload_gives_fallback_text_everywhere() {
    let record = GalleryInfo::from_raw("7".to_string(), GalleryRaw::default());
    assert_eq!(record.id, "7");
    assert_eq!(record.title, "정보 없음");
    assert_eq!(record.artists, "정보 없음");
    assert_eq!(record.language, "정보 없음");
    assert!(record.tags.is_empty());
}

#[test]
fn empty_canonical_title_falls_through_to_legacy_key() {
    let raw = GalleryRaw {
        title: Some(String::new()),
        n: Some("Legacy".to_string()),
        language_localname: Some("한국어".to_string()),
        language: Some("korean".to_string()),
        ..GalleryRaw::default()
    };
    let record = GalleryInfo::from_raw("1".to_string(), raw);
    assert_eq!(record.title, "Legacy");
    assert_eq!(record.language, "한국어");
}

#[test]
fn artists_are_trimmed_deduplicated_and_joined() {
    let raw = GalleryRaw {
        artists: vec![
            Artist::Simple(" kim ".to_string()),
            Artist::Object { artist: Some("lee".to_string()) },
            Artist::Unrecognized,
        ],
        a: vec![
            Artist::Simple("kim".to_string()),
            Artist::Object { artist: None },
            Artist::Simple("   ".to_string()),
            Artist::Simple("park".to_string()),
        ],
        ..GalleryRaw::default()
    };
    let record = GalleryInfo::from_raw("1".to_string(), raw);
    assert_eq!(record.artists, "kim, lee, park");
}

#[test]
fn merge_artists_keeps_first_occurrence_order() {
    let a = vec![Artist::Simple("b".to_string()), Artist::Simple("a".to_string())];
    let b = vec![Artist::Simple("a".to_string()), Artist::Simple("c".to_string())];
    assert_eq!(
        merge_artists(a, b),
        vec!["b".to_string(), "a".to_string(), "c".to_string()]
    );
}

#[test]
fn malformed_tag_entries_are_dropped() {
    let a = vec![Tag::Unrecognized, Tag::Object { tag: None }, Tag::Simple(" y ".to_string())];
    assert_eq!(merge_tags(a, Vec::new()), vec!["y".to_string()]);
}

#[test]
fn payload_statement_is_unwrapped() {
    assert_eq!(
        normalize_js_payload("  var galleryinfo = {\"n\":\"x\"};\n".to_string()),
        "{\"n\":\"x\"}"
    );
    assert_eq!(normalize_js_payload("var galleryinfo={}".to_string()), "{}");
    assert_eq!(normalize_js_payload("{\"a\":1};;".to_string()), "{\"a\":1}");
}

#[test]
fn viewer_links_follow_the_identifier() {
    let record = info("2468");
    assert_eq!(record.hitomi_url(), "https://hitomi.la/galleries/2468.html");
    assert_eq!(record.k_hentai_url(), "https://k-hentai.org/r/2468");
    assert_eq!(
        gallery_data_url("2468"),
        "https://ltn.gold-usergeneratedcontent.net/galleries/2468.js"
    );
    assert_eq!(gallery_referer("2468"), "https://hitomi.la/reader/2468.html");
}

#[test]
fn not_found_status_resolves_to_no_record() {
    assert_eq!(
        resolve_step("999999999", ResolveEvent::Status(404)),
        ResolveAction::Finish(None)
    );
}

#[test]
fn other_failing_status_resolves_to_no_record() {
    assert_eq!(resolve_step("1", ResolveEvent::Status(500)), ResolveAction::Finish(None));
    assert_eq!(resolve_step("1", ResolveEvent::Status(301)), ResolveAction::Finish(None));
}

#[test]
fn success_status_reads_the_body() {
    assert_eq!(resolve_step("1", ResolveEvent::Status(200)), ResolveAction::ReadBody);
    assert_eq!(resolve_step("1", ResolveEvent::Status(299)), ResolveAction::ReadBody);
}

#[test]
fn transport_failure_is_an_error() {
    assert_eq!(
        resolve_step("1", ResolveEvent::TransportFailed),
        ResolveAction::Fail(ResolveError::Transport)
    );
}

#[test]
fn body_is_normalized_for_parsing() {
    assert_eq!(
        resolve_step("1", ResolveEvent::Body("var galleryinfo = {};".to_string())),
        ResolveAction::Parse("{}".to_string())
    );
}

#[test]
fn unparsable_payload_resolves_to_no_record() {
    assert_eq!(resolve_step("1", ResolveEvent::Parsed(None)), ResolveAction::Finish(None));
}

#[test]
fn parsed_payload_resolves_to_a_filled_record() {
    let raw = GalleryRaw {
        title: Some("T".to_string()),
        tags: simple_tags(&["a"]),
        ..GalleryRaw::default()
    };
    match resolve_step("42", ResolveEvent::Parsed(Some(raw))) {
        ResolveAction::Finish(Some(record)) => {
            assert_eq!(record.id, "42");
            assert_eq!(record.title, "T");
            assert_eq!(record.artists, "정보 없음");
            assert_eq!(record.tags, vec!["a".to_string()]);
        }
        other => panic!("unexpected step {:?}", other),
    }
}
