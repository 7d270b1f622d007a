use shlack::slack::download::{
    after_file, after_html, begin_download, by_id_download_url, info_download_target, is_html_type, next_fetch,
    sanitize_file_name, share_download_url, AfterHtml, DownloadError, FileFields, FileInfoError, FileReply,
    JsonField, Step,
};
use shlack::slack::files::redirect_scan_ok;

fn fetched(s: Step) -> String {
    match s {
        Step::Fetch(u) => u,
        Step::Fail(e) => panic!("unexpected failure: {}", e.message()),
    }
}

fn failed(s: Step) -> DownloadError {
    match s {
        Step::Fetch(u) => panic!("unexpected fetch of {}", u),
        Step::Fail(e) => e,
    }
}

fn fields(permalink: JsonField, download: JsonField, private: JsonField) -> FileFields {
    FileFields { name: JsonField::Absent, permalink_public: permalink, url_private_download: download, url_private: private }
}

fn ok_reply(f: FileFields) -> FileReply {
    FileReply { ok: true, error: None, needed: None, file: Some(f) }
}

fn text(s: &str) -> JsonField {
    JsonField::Text(s.to_string())
}

#[test]
fn first_request_is_the_given_url() {
    let mut run = begin_download("https://files.slack.com/a.png");
    assert_eq!(fetched(next_fetch(&mut run)), "https://files.slack.com/a.png");
    assert_eq!(run.tried, vec!["https://files.slack.com/a.png".to_string()]);
}

#[test]
fn asking_again_without_a_redirect_is_a_loop() {
    let mut run = begin_download("u");
    fetched(next_fetch(&mut run));
    assert_eq!(failed(next_fetch(&mut run)), DownloadError::RedirectLoop);
}

#[test]
fn redirect_to_a_requested_url_is_a_loop() {
    let mut run = begin_download("a");
    fetched(next_fetch(&mut run));
    assert!(matches!(after_html(&mut run, Some("b".to_string())), AfterHtml::Follow));
    assert_eq!(fetched(next_fetch(&mut run)), "b");
    assert!(matches!(after_html(&mut run, Some("a".to_string())), AfterHtml::Follow));
    let e = failed(next_fetch(&mut run));
    assert_eq!(e, DownloadError::RedirectLoop);
    assert!(e.message().starts_with("URL redirect loop detected."));
}

#[test]
fn six_requests_at_most() {
    let mut run = begin_download("u0");
    let mut n = 0;
    loop {
        match next_fetch(&mut run) {
            Step::Fetch(_) => {
                n += 1;
                let next = format!("u{}", n);
                assert!(matches!(after_html(&mut run, Some(next)), AfterHtml::Follow));
            }
            Step::Fail(e) => {
                assert_eq!(e, DownloadError::TooManyRedirects);
                assert_eq!(e.message(), "Too many redirects (max 5)");
                break;
            }
        }
    }
    assert_eq!(n, 6);
    assert_eq!(run.redirects, 6);
}

#[test]
fn html_without_redirect_stops() {
    let mut run = begin_download("a");
    fetched(next_fetch(&mut run));
    match after_html(&mut run, None) {
        AfterHtml::Fail(e) => {
            assert_eq!(e, DownloadError::HtmlWithoutRedirect);
            assert_eq!(e.message(), "Received HTML response instead of file, and could not find redirect URL.");
        }
        AfterHtml::Follow => panic!("no redirect to follow"),
    }
    assert_eq!(run.redirects, 0);
}

#[test]
fn html_content_types() {
    assert!(is_html_type("text/html; charset=utf-8"));
    assert!(is_html_type("text/html"));
    assert!(!is_html_type("image/png"));
    assert!(!is_html_type(""));
}

#[test]
fn file_names_lose_separators_and_controls() {
    assert_eq!(sanitize_file_name("a/b\\c\u{7}d.png"), "a_b_c_d.png");
    assert_eq!(sanitize_file_name("caf\u{e9} \u{85}x"), "caf\u{e9} _x");
    assert_eq!(sanitize_file_name("plain.txt"), "plain.txt");
}

#[test]
fn bad_status_stops() {
    let r = after_file(false, 404, &vec![1, 2, 3], "x.png");
    assert_eq!(r, Err(DownloadError::BadStatus(404)));
    assert_eq!(DownloadError::BadStatus(404).message(), "Failed to download file: 404");
}

#[test]
fn html_body_is_refused() {
    let r = after_file(true, 200, &b"<html><body></body></html>".to_vec(), "x.png");
    assert_eq!(r, Err(DownloadError::HtmlBody));
    assert_eq!(DownloadError::HtmlBody.message(), "Downloaded file appears to be HTML, not the actual file.");
}

#[test]
fn only_the_first_eight_bytes_are_checked() {
    // Nine bytes of `<!DOCTYPE` never begin eight.
    assert_eq!(after_file(true, 200, &b"<!DOCTYPE html>".to_vec(), "a/b").unwrap(), "a_b");
    // Under eight bytes nothing is checked.
    assert_eq!(after_file(true, 200, &b"<html>".to_vec(), "p.png").unwrap(), "p.png");
    assert_eq!(after_file(true, 200, &vec![0x89, b'P', b'N', b'G', 0, 0, 0, 0], "i.png").unwrap(), "i.png");
}

#[test]
fn info_target_defaults_the_name() {
    let mut f = fields(JsonField::Absent, JsonField::Absent, text("https://files.slack.com/x"));
    let (url, name) = info_download_target(&ok_reply(f)).ok().unwrap();
    assert_eq!(url, "https://files.slack.com/x");
    assert_eq!(name, "file");
    f = fields(JsonField::Absent, JsonField::Absent, text("u"));
    f.name = text("photo.jpg");
    assert_eq!(info_download_target(&ok_reply(f)).ok().unwrap().1, "photo.jpg");
}

#[test]
fn info_refusal_messages() {
    let r = FileReply { ok: false, error: None, needed: None, file: None };
    let e = info_download_target(&r).err().unwrap();
    assert_eq!(e.message(), "Failed to get file info: unknown");
    let r = FileReply { ok: true, error: None, needed: None, file: None };
    assert!(matches!(info_download_target(&r), Err(FileInfoError::NoFileData)));
    let r = ok_reply(fields(JsonField::Absent, JsonField::Absent, JsonField::Other));
    assert_eq!(info_download_target(&r).err().unwrap().message(), "No download URL");
}

#[test]
fn by_id_prefers_the_download_url() {
    let r = ok_reply(fields(JsonField::Absent, text("d"), text("p")));
    assert_eq!(by_id_download_url(&r).ok().unwrap(), "d");
    let r = ok_reply(fields(JsonField::Absent, JsonField::Absent, text("p")));
    assert_eq!(by_id_download_url(&r).ok().unwrap(), "p");
    // A present field that is no string ends the search.
    let r = ok_reply(fields(JsonField::Absent, JsonField::Other, text("p")));
    assert!(matches!(by_id_download_url(&r), Err(FileInfoError::NoDownloadUrl)));
}

#[test]
fn share_prefers_the_public_permalink() {
    let r = ok_reply(fields(text("pub"), text("d"), text("p")));
    assert_eq!(share_download_url(&r).ok().unwrap(), "pub");
    let r = ok_reply(fields(JsonField::Absent, JsonField::Absent, text("p")));
    assert_eq!(share_download_url(&r).ok().unwrap(), "p");
    let r = ok_reply(fields(JsonField::Other, text("d"), text("p")));
    assert_eq!(share_download_url(&r).err().unwrap().message(), "No download URL in share response");
    let r = FileReply { ok: true, error: None, needed: None, file: None };
    assert_eq!(share_download_url(&r).err().unwrap().message(), "No file data in share response");
}

#[test]
fn share_refusals() {
    let r = FileReply {
        ok: false,
        error: Some("missing_scope".to_string()),
        needed: Some("files:write".to_string()),
        file: None,
    };
    assert_eq!(
        share_download_url(&r).err().unwrap().message(),
        "Missing scope 'files:write'. Please add this scope to your Slack app's OAuth scopes and reinstall the app."
    );
    let r = FileReply { ok: false, error: Some("not_allowed".to_string()), needed: None, file: None };
    assert_eq!(share_download_url(&r).err().unwrap().message(), "Failed to get shared public URL: not_allowed");
}

#[test]
fn redirect_scan_of_plain_pages_is_safe() {
    assert!(redirect_scan_ok(""));
    assert!(redirect_scan_ok("<a href=\"https://files.slack.com/files-pri/T1/x.png\">x</a>"));
    assert!(redirect_scan_ok("https://files.slack.com/x caf\u{e9}"));
}

#[test]
fn redirect_scan_that_would_cut_a_character_is_refused() {
    // The protocol search slices seven bytes at each offset before the
    // host, one of which falls inside the two bytes of the accented e.
    assert!(!redirect_scan_ok("caf\u{e9} https://files.slack.com/x"));
    // An escaped URL is found before the search runs.
    assert!(redirect_scan_ok("caf\u{e9} https:\\/\\/files.slack.com\\/x\""));
}
