use planabot::config::is_valid;
use planabot::gallery::GalleryInfo;
use planabot::links::LinkConversion;
use planabot::messages::{
    any_preview_disabled, conversion_pairs, extract_gallery_id, is_missing_reply_target,
    is_plana_trigger, question_for, render_gallery_message, rewrite_text,
};
use planabot::planabrain::{
    extract_plana_question, is_planabrain_allowed, parse_i64, parse_id_list, safe_user_id,
    truncate_message, PlanabrainAccess,
};
use planabot::state::ChatKind;

fn gallery(tags: Vec<&str>) -> GalleryInfo {
    GalleryInfo {
        id: "12345".to_string(),
        title: "A & B <i>".to_string(),
        artists: "kim, lee".to_string(),
        language: "한국어".to_string(),
        tags: tags.into_iter().map(String::from).collect(),
    }
}

#[test]
fn bang_id_works_in_any_chat() {
    assert_eq!(extract_gallery_id("!12345", ChatKind::Channel, ""), Some("12345".to_string()));
    assert_eq!(extract_gallery_id("!12a", ChatKind::Private, ""), None);
}

#[test]
fn bare_digits_work_in_private_chats_only() {
    assert_eq!(extract_gallery_id("777", ChatKind::Private, "bot"), Some("777".to_string()));
    assert_eq!(extract_gallery_id("777", ChatKind::Group, "bot"), None);
    assert_eq!(extract_gallery_id("77x", ChatKind::Private, "bot"), None);
}

#[test]
fn mention_then_id_works_in_groups() {
    assert_eq!(
        extract_gallery_id("@plana_bot   4242 please", ChatKind::Supergroup, "plana_bot"),
        Some("4242".to_string())
    );
    assert_eq!(extract_gallery_id("@plana_bot 4242", ChatKind::Group, ""), None);
    assert_eq!(extract_gallery_id("@other 4242", ChatKind::Group, "plana_bot"), None);
    assert_eq!(
        extract_gallery_id("@a.b 9", ChatKind::Group, "a.b"),
        Some("9".to_string())
    );
    assert_eq!(extract_gallery_id("@axb 9", ChatKind::Group, "a.b"), None);
}

#[test]
fn gallery_reply_is_escaped_html() {
    let text = render_gallery_message(&gallery(vec!["x<y", "z"]), false);
    assert_eq!(
        text,
        "<b>선생님, ID 12345에 대한 분석 결과입니다.</b>\n\n<b>제목:</b> A &amp; B &lt;i&gt;\n<b>작가:</b> kim, lee\n<b>언어:</b> 한국어\n<b>태그:</b> x&lt;y, z"
    );
}

#[test]
fn saved_gallery_reply_without_tags() {
    let text = render_gallery_message(&gallery(vec![]), true);
    assert!(text.starts_with("<b>선생님, ID 12345에 대한 분석 결과입니다. (#저장됨)</b>"));
    assert!(text.ends_with("<b>태그:</b> 태그 정보 없음"));
}

#[test]
fn assistant_question_is_extracted() {
    assert_eq!(
        extract_plana_question("  프라나야: - 오늘 날씨는?  "),
        Some("오늘 날씨는?".to_string())
    );
    assert_eq!(extract_plana_question("프라나야"), Some(String::new()));
    assert_eq!(extract_plana_question("안녕 프라나야"), None);
}

#[test]
fn assistant_trigger_rules() {
    assert!(is_plana_trigger(true, "프라나야 안녕", false));
    assert!(!is_plana_trigger(false, "프라나야 안녕", true));
    assert!(is_plana_trigger(true, "그리고?", true));
    assert!(!is_plana_trigger(true, "그리고?", false));
    assert!(!is_plana_trigger(true, "   ", true));
}

#[test]
fn question_from_reply_is_whole_message() {
    assert_eq!(question_for(" 계속해 ", true), Some("계속해".to_string()));
    assert_eq!(question_for(" 계속해 ", false), None);
    assert_eq!(question_for("프라나야 뭐해", false), Some("뭐해".to_string()));
}

#[test]
fn long_answers_are_truncated() {
    assert_eq!(truncate_message("abcdef", 3), "abc\n…");
    assert_eq!(truncate_message("abc", 3), "abc");
    assert_eq!(truncate_message("가나다라", 2), "가나\n…");
}

#[test]
fn user_ids_become_file_safe() {
    assert_eq!(safe_user_id("  12345 "), "12345");
    assert_eq!(safe_user_id("a/b c"), "a_b_c");
    assert_eq!(safe_user_id("   "), "default");
    assert_eq!(safe_user_id(&"x".repeat(300)).len(), 200);
}

#[test]
fn assistant_access_rules() {
    let access = PlanabrainAccess {
        chat_ids: vec![-100],
        user_ids: vec![7],
    };
    assert!(is_planabrain_allowed(&access, -100, None, false));
    assert!(is_planabrain_allowed(&access, 7, Some(7), true));
    assert!(!is_planabrain_allowed(&access, 7, Some(7), false));
    assert!(!is_planabrain_allowed(&access, 8, Some(8), true));
    assert!(!is_planabrain_allowed(&access, 8, None, true));
}

#[test]
fn id_lists_are_parsed() {
    assert_eq!(parse_id_list("1, -2;3\t+4 x 99999999999999999999 ,,"), vec![1, -2, 3, 4]);
    assert!(parse_id_list("").is_empty());
}

#[test]
fn token_validity() {
    assert!(is_valid("123:ABC"));
    assert!(!is_valid("   "));
    assert!(!is_valid("your_token_here"));
    assert!(!is_valid("YOUR-TOKEN"));
}

#[test]
fn rewritten_links_replace_originals_in_text() {
    let links = vec![(
        "https://youtu.be/a?si=1".to_string(),
        "https://youtu.be/a".to_string(),
    )];
    assert_eq!(
        rewrite_text("see https://youtu.be/a?si=1 and https://youtu.be/a?si=1", &links),
        "see https://youtu.be/a and https://youtu.be/a"
    );
}

#[test]
fn social_conversions_drive_text_and_preview() {
    let links = vec![LinkConversion {
        original: ".https://x.com/u/status/1".to_string(),
        converted: "https://fxtwitter.com/u/status/1".to_string(),
        disable_preview: true,
    }];
    let pairs = conversion_pairs(&links);
    assert_eq!(
        rewrite_text("look .https://x.com/u/status/1", &pairs),
        "look https://fxtwitter.com/u/status/1"
    );
    assert!(any_preview_disabled(&links));
    assert!(!any_preview_disabled(&Vec::new()));
}

#[test]
fn missing_reply_target_is_recognised() {
    assert!(is_missing_reply_target("Bad Request: message to be replied not found"));
    assert!(!is_missing_reply_target("Forbidden: bot was blocked"));
}

#[test]
fn blank_private_message_asks_for_no_gallery() {
    assert_eq!(extract_gallery_id("", ChatKind::Private, ""), None);
    assert_eq!(extract_gallery_id("", ChatKind::Private, "bot"), None);
}

#[test]
fn integers_are_read_as_i64_reads_them() {
    assert_eq!(parse_i64("42"), Some(42));
    assert_eq!(parse_i64("+7"), Some(7));
    assert_eq!(parse_i64("-9223372036854775808"), Some(i64::MIN));
    assert_eq!(parse_i64("9223372036854775807"), Some(i64::MAX));
    assert_eq!(parse_i64("9223372036854775808"), None);
    assert_eq!(parse_i64("-9223372036854775809"), None);
    assert_eq!(parse_i64(""), None);
    assert_eq!(parse_i64("-"), None);
    assert_eq!(parse_i64("1_0"), None);
    assert_eq!(parse_i64(" 1"), None);
}
