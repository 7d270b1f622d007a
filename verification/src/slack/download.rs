//! The decisions of a file download: which URL to request next, when to
//! give up, and what a reply means. The caller performs the requests and
//! writes the file; it hands each reply back here.
use vstd::prelude::*;
use crate::text::{chars_of, contains, find_seq};
use crate::events::str_eq;

verus! {

/// Redirects followed before a download gives up.
pub const MAX_REDIRECTS: usize = 5;

/// Why a download stopped without a file.
#[derive(Debug, PartialEq, Eq, Structural)]
pub enum DownloadError {
    /// More than [`MAX_REDIRECTS`] redirects were followed.
    TooManyRedirects,
    /// A redirect led back to a URL already requested.
    RedirectLoop,
    /// The server sent an HTML page and no redirect was found in it.
    HtmlWithoutRedirect,
    /// The server answered with this unsuccessful HTTP status.
    BadStatus(u16),
    /// The body that came back is an HTML page, not the file.
    HtmlBody,
}

impl DownloadError {
    /// The error message; for a bad status it ends with the status code.
    pub fn message(&self) -> (r: String)
        ensures
            r@ == match self {
                DownloadError::TooManyRedirects => "Too many redirects (max 5)"@,
                DownloadError::RedirectLoop => loop_message(),
                DownloadError::HtmlWithoutRedirect => "Received HTML response instead of file, and could not find redirect URL."@,
                DownloadError::BadStatus(code) => "Failed to download file: "@ + crate::text::decimal(*code as nat),
                DownloadError::HtmlBody => "Downloaded file appears to be HTML, not the actual file."@,
            },
    {
        match self {
            DownloadError::TooManyRedirects => "Too many redirects (max 5)".to_string(),
            DownloadError::RedirectLoop => "URL redirect loop detected. The file URL requires authentication that we cannot provide. Try adding 'files:write:user' scope to your Slack app for direct file downloads.".to_string(),
            DownloadError::HtmlWithoutRedirect => "Received HTML response instead of file, and could not find redirect URL.".to_string(),
            DownloadError::BadStatus(code) => {
                let mut s = "Failed to download file: ".to_string();
                crate::text::push_decimal(&mut s, *code as u64);
                s
            },
            DownloadError::HtmlBody => "Downloaded file appears to be HTML, not the actual file.".to_string(),
        }
    }
}

/// The message for a redirect loop.
pub open spec fn loop_message() -> Seq<char> {
    "URL redirect loop detected. The file URL requires authentication that we cannot provide. Try adding 'files:write:user' scope to your Slack app for direct file downloads."@
}

/// A download in progress: the redirects followed so far, the URL to
/// request next and the URLs already requested, in order.
pub struct DownloadRun {
    pub redirects: usize,
    pub current: String,
    pub tried: Vec<String>,
}

/// The URLs requested so far, as character sequences.
pub open spec fn urls(v: Seq<String>) -> Seq<Seq<char>> {
    v.map_values(|s: String| s@)
}

impl DownloadRun {
    /// The URLs requested so far.
    pub open spec fn tried_urls(&self) -> Seq<Seq<char>> {
        urls(self.tried@)
    }

    /// No URL was requested twice, at most one request was made per
    /// redirect plus the first, and when as many requests as that were
    /// made the URL to request next is among them.
    pub open spec fn wf(&self) -> bool {
        &&& self.tried_urls().no_duplicates()
        &&& self.tried@.len() <= self.redirects + 1
        &&& self.tried@.len() == self.redirects + 1 ==> self.tried_urls().contains(self.current@)
    }
}

/// What the caller does next.
pub enum Step {
    /// Request this URL.
    Fetch(String),
    /// Stop with this error.
    Fail(DownloadError),
}

/// What follows an HTML reply.
pub enum AfterHtml {
    /// Request the redirect target next.
    Follow,
    /// Stop with this error.
    Fail(DownloadError),
}

/// A download of `url` that has requested nothing yet.
pub fn begin_download(url: &str) -> (r: DownloadRun)
    ensures
        r.redirects == 0,
        r.current@ == url@,
        r.tried@.len() == 0,
        r.wf(),
{
    DownloadRun { redirects: 0, current: url.to_string(), tried: Vec::new() }
}

fn tried_contains(tried: &Vec<String>, url: &String) -> (r: bool)
    ensures
        r == urls(tried@).contains(url@),
{
    let mut i: usize = 0;
    while i < tried.len()
        invariant
            i <= tried.len(),
            forall|j: int| 0 <= j < i ==> tried@[j]@ != url@,
        decreases tried.len() - i,
    {
        if str_eq(tried[i].as_str(), url.as_str()) {
            assert(urls(tried@)[i as int] == url@);
            return true;
        }
        i += 1;
    }
    proof {
        if urls(tried@).contains(url@) {
            let j = choose|j: int| 0 <= j < urls(tried@).len() && urls(tried@)[j] == url@;
            assert(tried@[j]@ == url@);
        }
    }
    false
}

/// The next request of a download: none after more than
/// [`MAX_REDIRECTS`] redirects, none when the URL was requested before
/// (the run is then unchanged); otherwise the current URL, which is
/// recorded as requested.
pub fn next_fetch(run: &mut DownloadRun) -> (s: Step)
    requires
        old(run).wf(),
    ensures
        final(run).wf(),
        old(run).redirects > MAX_REDIRECTS ==> s == Step::Fail(DownloadError::TooManyRedirects) && *final(run) == *old(run),
        old(run).redirects <= MAX_REDIRECTS && old(run).tried_urls().contains(old(run).current@) ==> s == Step::Fail(
            DownloadError::RedirectLoop,
        ) && *final(run) == *old(run),
        old(run).redirects <= MAX_REDIRECTS && !old(run).tried_urls().contains(old(run).current@) ==> {
            &&& s matches Step::Fetch(u) && u@ == old(run).current@
            &&& final(run).redirects == old(run).redirects
            &&& final(run).current@ == old(run).current@
            &&& final(run).tried_urls() == old(run).tried_urls().push(old(run).current@)
            &&& final(run).tried@.len() <= MAX_REDIRECTS + 1
        },
{
    if run.redirects > MAX_REDIRECTS {
        return Step::Fail(DownloadError::TooManyRedirects);
    }
    if tried_contains(&run.tried, &run.current) {
        return Step::Fail(DownloadError::RedirectLoop);
    }
    let ghost before = run.tried@;
    let u = run.current.clone();
    run.tried.push(u);
    proof {
        assert(urls(run.tried@) =~= urls(before).push(run.current@));
        assert(urls(run.tried@).last() == run.current@);
    }
    Step::Fetch(run.current.clone())
}

/// A reply with this content type is an HTML page.
pub fn is_html_type(content_type: &str) -> (r: bool)
    ensures
        r == contains(content_type@, "text/html"@),
{
    let v = chars_of(content_type);
    let p = chars_of("text/html");
    proof {
        crate::text::lemma_find_from(v@, p@, 0);
    }
    find_seq(&v, 0, &p).is_some()
}

/// After an HTML reply: follow the redirect found in the page, counting
/// it, or stop when there is none.
pub fn after_html(run: &mut DownloadRun, redirect: Option<String>) -> (r: AfterHtml)
    requires
        old(run).wf(),
        old(run).redirects <= MAX_REDIRECTS,
    ensures
        final(run).wf(),
        match redirect {
            Some(u) => r is Follow && final(run).redirects == old(run).redirects + 1 && final(run).current@ == u@
                && final(run).tried == old(run).tried,
            None => r == AfterHtml::Fail(DownloadError::HtmlWithoutRedirect) && *final(run) == *old(run),
        },
{
    match redirect {
        Some(u) => {
            run.current = u;
            run.redirects = run.redirects + 1;
            AfterHtml::Follow
        },
        None => AfterHtml::Fail(DownloadError::HtmlWithoutRedirect),
    }
}

/// The file name with control characters and path separators made `_`.
pub open spec fn sanitized(s: Seq<char>) -> Seq<char> {
    Seq::new(
        s.len(),
        |i: int| if crate::unicode::is_control_code(s[i]) || s[i] == '/' || s[i] == '\\' { '_' } else { s[i] },
    )
}

/// The name the downloaded file is saved under.
pub fn sanitize_file_name(name: &str) -> (r: String)
    ensures
        r@ == sanitized(name@),
{
    let v = chars_of(name);
    let mut out = String::new();
    let mut i: usize = 0;
    while i < v.len()
        invariant
            i <= v.len(),
            v@ == name@,
            out@ == sanitized(name@).take(i as int),
        decreases v.len() - i,
    {
        let c = v[i];
        if crate::unicode::is_control(c) || c == '/' || c == '\\' {
            out.push('_');
        } else {
            out.push(c);
        }
        proof {
            assert(sanitized(name@).take(i + 1) =~= sanitized(name@).take(i as int).push(sanitized(name@)[i as int]));
        }
        i += 1;
    }
    assert(sanitized(name@).take(v.len() as int) =~= sanitized(name@));
    out
}

/// `p` begins `h`.
pub open spec fn bytes_prefix(p: Seq<u8>, h: Seq<u8>) -> bool {
    p.len() <= h.len() && h.take(p.len() as int) == p
}

/// The bytes of `<!DOCTYPE`.
pub open spec fn doctype_bytes() -> Seq<u8> {
    seq![60u8, 33, 68, 79, 67, 84, 89, 80, 69]
}

/// The bytes of `<html`.
pub open spec fn html_tag_bytes() -> Seq<u8> {
    seq![60u8, 104, 116, 109, 108]
}

/// The body has at least eight bytes and its first eight begin with
/// `<!DOCTYPE` or `<html`. (Nine bytes never begin eight, so only the
/// second can match.)
pub open spec fn html_header(b: Seq<u8>) -> bool {
    b.len() >= 8 && (bytes_prefix(doctype_bytes(), b.take(8)) || bytes_prefix(html_tag_bytes(), b.take(8)))
}

fn prefix_exec(p: &Vec<u8>, h: &Vec<u8>, hlen: usize) -> (r: bool)
    requires
        hlen <= h.len(),
    ensures
        r == bytes_prefix(p@, h@.take(hlen as int)),
{
    if p.len() > hlen {
        return false;
    }
    let mut i: usize = 0;
    while i < p.len()
        invariant
            p.len() <= hlen <= h.len(),
            i <= p.len(),
            forall|j: int| 0 <= j < i ==> h@[j] == p@[j],
        decreases p.len() - i,
    {
        if h[i] != p[i] {
            assert(h@.take(hlen as int).take(p.len() as int)[i as int] != p@[i as int]);
            return false;
        }
        i += 1;
    }
    assert(h@.take(hlen as int).take(p.len() as int) =~= p@);
    true
}

/// After a reply that is no HTML page: a bad status or an HTML body stops
/// the download; otherwise the body is saved under the sanitized name.
pub fn after_file(status_ok: bool, status: u16, body: &Vec<u8>, file_name: &str) -> (r: Result<String, DownloadError>)
    ensures
        !status_ok ==> r == Err::<String, DownloadError>(DownloadError::BadStatus(status)),
        status_ok && html_header(body@) ==> r == Err::<String, DownloadError>(DownloadError::HtmlBody),
        r is Ok <==> status_ok && !html_header(body@),
        r matches Ok(name) ==> name@ == sanitized(file_name@),
{
    if !status_ok {
        return Err(DownloadError::BadStatus(status));
    }
    let name = sanitize_file_name(file_name);
    if body.len() >= 8 {
        let doctype: Vec<u8> = vec![60u8, 33, 68, 79, 67, 84, 89, 80, 69];
        let html: Vec<u8> = vec![60u8, 104, 116, 109, 108];
        assert(doctype@ =~= doctype_bytes());
        assert(html@ =~= html_tag_bytes());
        if prefix_exec(&doctype, body, 8) || prefix_exec(&html, body, 8) {
            return Err(DownloadError::HtmlBody);
        }
    }
    Ok(name)
}

/// A field of a JSON object: missing, a string, or another value.
pub enum JsonField {
    Absent,
    Text(String),
    Other,
}

/// The fields of the `file` object of a `files.info` or
/// `files.sharedPublicURL` reply that the client reads.
pub struct FileFields {
    pub name: JsonField,
    pub permalink_public: JsonField,
    pub url_private_download: JsonField,
    pub url_private: JsonField,
}

/// A `files.info` or `files.sharedPublicURL` reply: its `ok` flag (false
/// unless it is `true`), its `error` and `needed` strings and its `file`
/// object, where present.
pub struct FileReply {
    pub ok: bool,
    pub error: Option<String>,
    pub needed: Option<String>,
    pub file: Option<FileFields>,
}

/// Why a file's download URL could not be had.
pub enum FileInfoError {
    /// `files.info` refused, with this error.
    InfoFailed(String),
    /// The reply holds no file.
    NoFileData,
    /// The file has no download URL.
    NoDownloadUrl,
    /// `files.sharedPublicURL` refused for want of this scope.
    MissingScope(String),
    /// `files.sharedPublicURL` refused, with this error.
    ShareFailed(String),
    /// The share reply holds no file.
    NoShareFileData,
    /// The shared file has no download URL.
    NoShareUrl,
}

/// The message of a [`FileInfoError`].
pub open spec fn info_error_message(e: FileInfoError) -> Seq<char> {
    match e {
        FileInfoError::InfoFailed(err) => "Failed to get file info: "@ + err@,
        FileInfoError::NoFileData => "No file data"@,
        FileInfoError::NoDownloadUrl => "No download URL"@,
        FileInfoError::MissingScope(needed) => "Missing scope '"@ + needed@
            + "'. Please add this scope to your Slack app's OAuth scopes and reinstall the app."@,
        FileInfoError::ShareFailed(err) => "Failed to get shared public URL: "@ + err@,
        FileInfoError::NoShareFileData => "No file data in share response"@,
        FileInfoError::NoShareUrl => "No download URL in share response"@,
    }
}

impl FileInfoError {
    /// The error message.
    pub fn message(&self) -> (r: String)
        ensures
            r@ == info_error_message(*self),
    {
        match self {
            FileInfoError::InfoFailed(err) => {
                let mut s = "Failed to get file info: ".to_string();
                s.push_str(err.as_str());
                s
            },
            FileInfoError::NoFileData => "No file data".to_string(),
            FileInfoError::NoDownloadUrl => "No download URL".to_string(),
            FileInfoError::MissingScope(needed) => {
                let mut s = "Missing scope '".to_string();
                s.push_str(needed.as_str());
                s.push_str("'. Please add this scope to your Slack app's OAuth scopes and reinstall the app.");
                s
            },
            FileInfoError::ShareFailed(err) => {
                let mut s = "Failed to get shared public URL: ".to_string();
                s.push_str(err.as_str());
                s
            },
            FileInfoError::NoShareFileData => "No file data in share response".to_string(),
            FileInfoError::NoShareUrl => "No download URL in share response".to_string(),
        }
    }
}

/// The string of a field, where it is one.
pub open spec fn field_text(f: JsonField) -> Option<Seq<char>> {
    match f {
        JsonField::Text(s) => Some(s@),
        _ => None,
    }
}

/// The first of the fields that is present, taken as a string: a present
/// field that is no string gives nothing, whatever follows it.
pub open spec fn first_present(fs: Seq<JsonField>) -> Option<Seq<char>>
    decreases fs.len(),
{
    if fs.len() == 0 {
        None
    } else if fs[0] is Absent {
        first_present(fs.skip(1))
    } else {
        field_text(fs[0])
    }
}

fn present(f: &JsonField) -> (r: bool)
    ensures
        r == !(*f is Absent),
{
    match f {
        JsonField::Absent => false,
        _ => true,
    }
}

fn field_string(f: &JsonField) -> (r: Option<String>)
    ensures
        crate::text::option_view(r) == field_text(*f),
{
    match f {
        JsonField::Text(s) => Some(s.clone()),
        _ => None,
    }
}

/// The `error` string of a refusal, `unknown` where there is none.
pub open spec fn error_or_unknown(e: Option<String>) -> Seq<char> {
    match e {
        Some(s) => s@,
        None => "unknown"@,
    }
}

fn error_string(e: &Option<String>) -> (r: String)
    ensures
        r@ == error_or_unknown(*e),
{
    match e {
        Some(s) => s.clone(),
        None => "unknown".to_string(),
    }
}

/// What `files.info` gives for a plain download: the private URL and the
/// file's name (`file` where it has none as a string), or why not.
pub fn info_download_target(reply: &FileReply) -> (r: Result<(String, String), FileInfoError>)
    ensures
        !reply.ok ==> (r matches Err(FileInfoError::InfoFailed(e)) && e@ == error_or_unknown(reply.error)),
        reply.ok ==> match reply.file {
            None => r matches Err(FileInfoError::NoFileData),
            Some(f) => match field_text(f.url_private) {
                None => r matches Err(FileInfoError::NoDownloadUrl),
                Some(u) => (r matches Ok((url, name)) && url@ == u && name@ == (match field_text(f.name) {
                    Some(n) => n,
                    None => "file"@,
                })),
            },
        },
{
    if !reply.ok {
        return Err(FileInfoError::InfoFailed(error_string(&reply.error)));
    }
    match &reply.file {
        None => Err(FileInfoError::NoFileData),
        Some(f) => match field_string(&f.url_private) {
            None => Err(FileInfoError::NoDownloadUrl),
            Some(url) => {
                let name = match field_string(&f.name) {
                    Some(n) => n,
                    None => "file".to_string(),
                };
                Ok((url, name))
            },
        },
    }
}

/// What `files.info` gives for a download by id: the first present of
/// `url_private_download` and `url_private`, or why not.
pub fn by_id_download_url(reply: &FileReply) -> (r: Result<String, FileInfoError>)
    ensures
        !reply.ok ==> (r matches Err(FileInfoError::InfoFailed(e)) && e@ == error_or_unknown(reply.error)),
        reply.ok ==> match reply.file {
            None => r matches Err(FileInfoError::NoFileData),
            Some(f) => match first_present(seq![f.url_private_download, f.url_private]) {
                None => r matches Err(FileInfoError::NoDownloadUrl),
                Some(u) => (r matches Ok(url) && url@ == u),
            },
        },
{
    if !reply.ok {
        return Err(FileInfoError::InfoFailed(error_string(&reply.error)));
    }
    match &reply.file {
        None => Err(FileInfoError::NoFileData),
        Some(f) => {
            let ghost fs = seq![f.url_private_download, f.url_private];
            proof {
                reveal_with_fuel(first_present, 3);
                assert(fs.skip(1) =~= seq![f.url_private]);
                assert(fs.skip(1).skip(1) =~= Seq::<JsonField>::empty());
            }
            let picked = if present(&f.url_private_download) {
                field_string(&f.url_private_download)
            } else {
                field_string(&f.url_private)
            };
            match picked {
                None => Err(FileInfoError::NoDownloadUrl),
                Some(u) => Ok(u),
            }
        },
    }
}

/// What `files.sharedPublicURL` gives: the first present of
/// `permalink_public`, `url_private_download` and `url_private`, or why not.
pub fn share_download_url(reply: &FileReply) -> (r: Result<String, FileInfoError>)
    ensures
        !reply.ok && error_or_unknown(reply.error) == "missing_scope"@ ==> (r matches Err(
            FileInfoError::MissingScope(n),
        ) && n@ == (match reply.needed {
            Some(n) => n@,
            None => Seq::<char>::empty(),
        })),
        !reply.ok && error_or_unknown(reply.error) != "missing_scope"@ ==> (r matches Err(
            FileInfoError::ShareFailed(e),
        ) && e@ == error_or_unknown(reply.error)),
        reply.ok ==> match reply.file {
            None => r matches Err(FileInfoError::NoShareFileData),
            Some(f) => match first_present(seq![f.permalink_public, f.url_private_download, f.url_private]) {
                None => r matches Err(FileInfoError::NoShareUrl),
                Some(u) => (r matches Ok(url) && url@ == u),
            },
        },
{
    if !reply.ok {
        let err = error_string(&reply.error);
        if str_eq(err.as_str(), "missing_scope") {
            let needed = match &reply.needed {
                Some(n) => n.clone(),
                None => String::new(),
            };
            return Err(FileInfoError::MissingScope(needed));
        }
        return Err(FileInfoError::ShareFailed(err));
    }
    match &reply.file {
        None => Err(FileInfoError::NoShareFileData),
        Some(f) => {
            let ghost fs = seq![f.permalink_public, f.url_private_download, f.url_private];
            proof {
                reveal_with_fuel(first_present, 4);
                assert(fs.skip(1) =~= seq![f.url_private_download, f.url_private]);
                assert(fs.skip(1).skip(1) =~= seq![f.url_private]);
                assert(fs.skip(1).skip(1).skip(1) =~= Seq::<JsonField>::empty());
            }
            let picked = if present(&f.permalink_public) {
                field_string(&f.permalink_public)
            } else if present(&f.url_private_download) {
                field_string(&f.url_private_download)
            } else {
                field_string(&f.url_private)
            };
            match picked {
                None => Err(FileInfoError::NoShareUrl),
                Some(u) => Ok(u),
            }
        },
    }
}

} // verus!
