use burdbot::vocaroo::{
    add_recording_size, disable_reply, enable_reply, enabled_status_reply, get_content_length, get_vocaroo_mp3_urls,
    links_text, log_and_check_is_severe, vocaroo_message, vocaroo_reaction, VocarooError, VocarooReaction,
    TOTAL_MAX_VOCAROO_SIZE,
};

#[test]
fn finding_links() {
    let urls = get_vocaroo_mp3_urls("check https://voca.ro/abc123 and http://www.vocaroo.com/XYZ, also https://vocaroo.com/ nothing");
    assert_eq!(urls, vec!["https://media.vocaroo.com/mp3/abc123".to_string(), "https://media.vocaroo.com/mp3/XYZ".to_string()]);
    assert!(get_vocaroo_mp3_urls("https://example.com/abc").is_empty());
    assert_eq!(get_vocaroo_mp3_urls("https://voca.ro/a-b"), vec!["https://media.vocaroo.com/mp3/a".to_string()]);
    assert_eq!(get_vocaroo_mp3_urls("https://www.voca.ro/q1https://voca.ro/q2").len(), 1);
}

#[test]
fn content_length() {
    let url = "https://media.vocaroo.com/mp3/abc";
    assert!(matches!(get_content_length(url, Some(Some("audio/mpeg".to_string())), Some(Some("1234".to_string()))), Ok(1234)));
    assert!(matches!(get_content_length(url, None, None), Err(VocarooError::NoContentType(u)) if u == url));
    assert!(matches!(get_content_length(url, Some(None), None), Err(VocarooError::ContentTypeNotVisibleASCII(_))));
    assert!(matches!(get_content_length(url, Some(Some("text/html".to_string())), None), Err(VocarooError::ContentTypeNotMp3(_))));
    assert!(matches!(get_content_length(url, Some(Some("audio/mpeg".to_string())), None), Err(VocarooError::NoContentLength(_))));
    assert!(matches!(get_content_length(url, Some(Some("audio/mpeg".to_string())), Some(None)), Err(VocarooError::ContentLengthNotVisibleASCII(_))));
    assert!(matches!(get_content_length(url, Some(Some("audio/mpeg".to_string())), Some(Some("12a".to_string()))), Err(VocarooError::ContentLengthNotNumber(_))));
}

#[test]
fn severity_and_replies() {
    assert!(!log_and_check_is_severe(&VocarooError::InvalidUrls("x".to_string())));
    assert!(!log_and_check_is_severe(&VocarooError::FailedDownload("x".to_string(), 404)));
    assert!(!log_and_check_is_severe(&VocarooError::OverSizeLimit("x".to_string(), 5)));
    assert!(!log_and_check_is_severe(&VocarooError::ContentTypeNotMp3("x".to_string())));
    assert!(log_and_check_is_severe(&VocarooError::NoContentLength("x".to_string())));
    assert_eq!(vocaroo_reaction(2, 2), VocarooReaction::Failure);
    assert_eq!(vocaroo_reaction(3, 1), VocarooReaction::Warning);
    assert_eq!(vocaroo_reaction(3, 0), VocarooReaction::NoReaction);
    assert_eq!(add_recording_size(6_000_000, 300_000, TOTAL_MAX_VOCAROO_SIZE), (6_300_000, true));
    assert_eq!(add_recording_size(0, 300_000, TOTAL_MAX_VOCAROO_SIZE), (300_000, false));
    assert_eq!(vocaroo_message(12), "Here is <@12>'s vocaroo link as an MP3 file. This is limited to 1 per message.");
    assert_eq!(enable_reply(true), "Enabled Vocaroo to MP3 conversions.");
    assert_eq!(disable_reply(false), "Vocaroo to MP3 conversions are already disabled on this server.");
    assert_eq!(enabled_status_reply(true), "Vocaroo to MP3 conversions are enabled in this server.");
}

#[test]
fn links_start_at_the_first_http() {
    assert_eq!(links_text("listen: https://voca.ro/abc and http://x"), Some("https://voca.ro/abc and http://x".to_string()));
    assert_eq!(links_text("http"), Some("http".to_string()));
    assert_eq!(links_text("ñhttp://é"), Some("http://é".to_string()));
    assert_eq!(links_text("no link here, htt"), None);
    assert_eq!(links_text(""), None);
}
