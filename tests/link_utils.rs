use planabot::links::{
    cleaned_query_of, contains_instagram_link, contains_music_link, contains_x_link,
    convert_instagram_links, convert_x_links, extract_music_links, instagram_conversions_of,
    push_cleaned, remove_si_parameter, short_link_path_of, split_marker, x_conversions_of,
};
use planabot::url_parts::UrlParts;

#[test]
fn test_remove_si_parameter_youtube() {
    let original = "https://youtu.be/Vc-ByDGOuQE?si=qIy-ihfrRKmDAPZP";
    let expected = "https://youtu.be/Vc-ByDGOuQE";
    assert_eq!(remove_si_parameter(original), expected);
}

#[test]
fn test_remove_si_parameter_youtube_music() {
    let original = "https://music.youtube.com/watch?v=nmYDYalgb5w&si=GGi18ac_fxnx4F1b";
    let expected = "https://music.youtube.com/watch?v=nmYDYalgb5w";
    assert_eq!(remove_si_parameter(original), expected);
}

#[test]
fn test_remove_si_parameter_spotify() {
    let original = "https://open.spotify.com/track/1FYWnRofuIgJf62AnX8i5S?si=bf00147df50f4141";
    let expected = "https://open.spotify.com/track/1FYWnRofuIgJf62AnX8i5S";
    assert_eq!(remove_si_parameter(original), expected);
}

#[test]
fn test_remove_si_parameter_with_multiple_params() {
    let original = "https://music.youtube.com/watch?v=nmYDYalgb5w&si=GGi18ac_fxnx4F1b&list=RDAMVMnmYDYalgb5w";
    let expected = "https://music.youtube.com/watch?v=nmYDYalgb5w&list=RDAMVMnmYDYalgb5w";
    assert_eq!(remove_si_parameter(original), expected);
}

#[test]
fn test_convert_x_links_rewrites_host_and_strips_query() {
    let text = "https://x.com/lettuce9094/status/1997610286262718819?s=20";
    let pairs = convert_x_links(text);
    assert_eq!(pairs.len(), 1);
    assert_eq!(
        pairs[0].converted,
        "https://fxtwitter.com/lettuce9094/status/1997610286262718819"
    );
    assert!(!pairs[0].disable_preview);
    assert_eq!(
        pairs[0].original,
        "https://x.com/lettuce9094/status/1997610286262718819?s=20"
    );
}

#[test]
fn test_convert_x_links_with_dot_prefix_disables_preview_and_strips_dot() {
    let text = ".https://x.com/user/status/12345?s=99";
    let pairs = convert_x_links(text);
    assert_eq!(pairs.len(), 1);
    assert!(pairs[0].disable_preview);
    assert_eq!(pairs[0].converted, "https://fxtwitter.com/user/status/12345");
    assert_eq!(pairs[0].original, ".https://x.com/user/status/12345?s=99");
}

#[test]
fn test_convert_instagram_links_rewrites_host_and_strips_query() {
    let text = "https://www.instagram.com/p/DR_uVJVklbf/?utm_source=ig_web_copy_link&igsh=Nm9hazRuaXNrdGo1";
    let pairs = convert_instagram_links(text);
    assert_eq!(pairs.len(), 1);
    assert_eq!(pairs[0].1, "https://www.kkinstagram.com/p/DR_uVJVklbf/");
}

#[test]
fn link_utils_test_remove_si_parameter_youtube() {
    let original = "https://youtu.be/Vc-ByDGOuQE?si=qIy-ihfrRKmDAPZP";
    let expected = "https://youtu.be/Vc-ByDGOuQE";
    assert_eq!(remove_si_parameter(original), expected);
}

#[test]
fn link_utils_test_remove_si_parameter_youtube_music() {
    let original = "https://music.youtube.com/watch?v=nmYDYalgb5w&si=GGi18ac_fxnx4F1b";
    let expected = "https://music.youtube.com/watch?v=nmYDYalgb5w";
    assert_eq!(remove_si_parameter(original), expected);
}

#[test]
fn link_utils_test_remove_si_parameter_spotify() {
    let original = "https://open.spotify.com/track/1FYWnRofuIgJf62AnX8i5S?si=bf00147df50f4141";
    let expected = "https://open.spotify.com/track/1FYWnRofuIgJf62AnX8i5S";
    assert_eq!(remove_si_parameter(original), expected);
}

#[test]
fn link_utils_test_remove_si_parameter_with_multiple_params() {
    let original = "https://music.youtube.com/watch?v=nmYDYalgb5w&si=GGi18ac_fxnx4F1b&list=RDAMVMnmYDYalgb5w";
    let expected = "https://music.youtube.com/watch?v=nmYDYalgb5w&list=RDAMVMnmYDYalgb5w";
    assert_eq!(remove_si_parameter(original), expected);
}

#[test]
fn link_utils_test_convert_x_links_rewrites_host_and_strips_query() {
    let text = "https://x.com/lettuce9094/status/1997610286262718819?s=20";
    let pairs = convert_x_links(text);
    assert_eq!(pairs.len(), 1);
    assert_eq!(
        pairs[0].converted,
        "https://fxtwitter.com/lettuce9094/status/1997610286262718819"
    );
}

#[test]
fn link_utils_test_convert_instagram_links_rewrites_host_and_strips_query() {
    let text = "https://www.instagram.com/p/DR_uVJVklbf/?utm_source=ig_web_copy_link&igsh=Nm9hazRuaXNrdGo1";
    let pairs = convert_instagram_links(text);
    assert_eq!(pairs.len(), 1);
    assert_eq!(pairs[0].1, "https://www.kkinstagram.com/p/DR_uVJVklbf/");
}

#[test]
fn music_short_link_scenario_gives_one_clean_pair() {
    let links = extract_music_links("https://youtu.be/Vc-ByDGOuQE?si=qIy-ihfrRKmDAPZP");
    assert_eq!(links.len(), 1);
    assert_eq!(links[0].0, "https://youtu.be/Vc-ByDGOuQE?si=qIy-ihfrRKmDAPZP");
    assert_eq!(links[0].1, "https://youtu.be/Vc-ByDGOuQE");
}

#[test]
fn music_link_in_sentence_is_found_and_cleaned() {
    let text = "listen https://open.spotify.com/track/abc?si=zzz now";
    assert!(contains_music_link(text));
    let links = extract_music_links(text);
    assert_eq!(links.len(), 1);
    assert_eq!(links[0].0, "https://open.spotify.com/track/abc?si=zzz");
    assert_eq!(links[0].1, "https://open.spotify.com/track/abc");
}

#[test]
fn clean_music_link_is_detected_but_not_rewritten() {
    let text = "https://music.youtube.com/watch?v=X";
    assert!(contains_music_link(text));
    assert!(extract_music_links(text).is_empty());
}

#[test]
fn canonical_social_link_is_not_rewritten() {
    assert!(convert_x_links("https://fxtwitter.com/user/status/12345").is_empty());
    assert!(!contains_x_link("https://fxtwitter.com/user/status/12345"));
}

#[test]
fn canonical_photo_link_is_not_rewritten() {
    assert!(convert_instagram_links("https://www.kkinstagram.com/p/DR_uVJVklbf/").is_empty());
    assert!(!contains_instagram_link("https://www.kkinstagram.com/p/DR_uVJVklbf/"));
}

#[test]
fn short_link_with_marker_in_path_loses_it() {
    assert_eq!(
        remove_si_parameter("https://youtu.be/Vc-ByDGOuQEsi=abc"),
        "https://youtu.be/Vc-ByDGOuQE"
    );
}

#[test]
fn only_tracking_parameter_is_removed() {
    assert_eq!(
        remove_si_parameter("https://www.youtube.com/watch?si=a&v=b&t=10"),
        "https://www.youtube.com/watch?v=b&t=10"
    );
}

#[test]
fn text_that_is_not_a_url_comes_back_unchanged() {
    assert_eq!(remove_si_parameter("not a url"), "not a url");
}

#[test]
fn music_groups_come_in_family_order() {
    let text = "https://open.spotify.com/track/a?si=1 https://youtu.be/b?si=2";
    let links = extract_music_links(text);
    assert_eq!(links.len(), 2);
    assert_eq!(links[0].1, "https://youtu.be/b");
    assert_eq!(links[1].1, "https://open.spotify.com/track/a");
}

#[test]
fn twitter_host_alias_and_fragment_are_handled() {
    let pairs = convert_x_links("see https://twitter.com/a/status/1#frag and .https://www.x.com/b/status/2?x=1");
    assert_eq!(pairs.len(), 2);
    assert_eq!(pairs[0].original, "https://twitter.com/a/status/1#frag");
    assert_eq!(pairs[0].converted, "https://fxtwitter.com/a/status/1");
    assert!(!pairs[0].disable_preview);
    assert_eq!(pairs[1].original, ".https://www.x.com/b/status/2?x=1");
    assert_eq!(pairs[1].converted, "https://fxtwitter.com/b/status/2");
    assert!(pairs[1].disable_preview);
}

#[test]
fn detection_of_each_family() {
    assert!(contains_music_link("https://www.youtube.com/watch?v=1"));
    assert!(!contains_music_link("https://example.com/watch?v=1"));
    assert!(contains_x_link(".https://x.com/a"));
    assert!(contains_instagram_link("https://instagram.com/p/a"));
    assert!(!contains_instagram_link("instagram.com/p/a"));
}

#[test]
fn links_do_not_cross_whitespace() {
    let pairs = convert_instagram_links("https://instagram.com/p/a?x=1 tail");
    assert_eq!(pairs.len(), 1);
    assert_eq!(pairs[0].0, "https://instagram.com/p/a?x=1");
    assert_eq!(pairs[0].1, "https://www.kkinstagram.com/p/a");
}

#[test]
fn query_of_given_parts_loses_tracking_pairs() {
    let parts = UrlParts {
        query: Some("si=1&v=a&si=2&t=3".to_string()),
        query_pairs: vec![
            ("si".to_string(), "1".to_string()),
            ("v".to_string(), "a".to_string()),
            ("si".to_string(), "2".to_string()),
            ("t".to_string(), "3".to_string()),
        ],
        host: Some("music.youtube.com".to_string()),
        path: "/watch".to_string(),
    };
    assert_eq!(cleaned_query_of(&parts), Some("v=a&t=3".to_string()));
    let only_tracking = UrlParts {
        query: Some("si=1".to_string()),
        query_pairs: vec![("si".to_string(), "1".to_string())],
        ..parts
    };
    assert_eq!(cleaned_query_of(&only_tracking), None);
}

#[test]
fn path_of_given_short_link_parts_is_cut_at_marker() {
    let parts = UrlParts {
        query: None,
        query_pairs: Vec::new(),
        host: Some("youtu.be".to_string()),
        path: "/abc?si=xyz".to_string(),
    };
    assert_eq!(short_link_path_of(&parts), Some("/abc".to_string()));
    let other_host = UrlParts {
        host: Some("youtube.com".to_string()),
        ..parts
    };
    assert_eq!(short_link_path_of(&other_host), None);
}

#[test]
fn given_matches_are_converted() {
    assert_eq!(split_marker(".https://x.com/a"), (true, "https://x.com/a".to_string()));
    assert_eq!(split_marker("https://x.com/a"), (false, "https://x.com/a".to_string()));

    let x = x_conversions_of(&vec![".https://x.com/a?b=1".to_string(), "nonsense".to_string()]);
    assert_eq!(x.len(), 1);
    assert_eq!(x[0].converted, "https://fxtwitter.com/a");
    assert!(x[0].disable_preview);

    let ig = instagram_conversions_of(&vec!["https://instagram.com/p/z#top".to_string()]);
    assert_eq!(ig, vec![("https://instagram.com/p/z#top".to_string(), "https://www.kkinstagram.com/p/z".to_string())]);

    let mut out = Vec::new();
    push_cleaned(&mut out, &vec!["https://youtu.be/q?si=1".to_string(), "https://youtu.be/q".to_string()]);
    assert_eq!(out, vec![("https://youtu.be/q?si=1".to_string(), "https://youtu.be/q".to_string())]);
}
