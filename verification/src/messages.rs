//! Turning Slack messages and realtime events into display records.
use vstd::prelude::*;
use crate::text::{
    chars_of, copy_opt_string, find_char, index_of_from, last_index_before, lemma_index_of_from,
    matches_at_exec, option_view, rfind_char, string_of_range, starts_with, eq_literal,
};
use crate::formatting::views;
use crate::slack::types::{SlackAttachment, SlackFile, SlackMessage};
use crate::slack::blocks::{attachments_to_cards, cards_of, fallback_cut_ok, mentions_user, mentions_user_exec, message_text};
use crate::widgets::{AttachmentCard, MessageData, cards_view, copy_cards};

verus! {

// ---------------------------------------------------------------------------
// Name cache
// ---------------------------------------------------------------------------

/// Display names by user or bot id.
#[derive(Debug)]
pub struct NameCache {
    pub entries: Vec<(String, String)>,
}

/// The name recorded for `key` (the first entry with that key).
pub open spec fn lookup_in(entries: Seq<(String, String)>, key: Seq<char>) -> Option<Seq<char>>
    decreases entries.len(),
{
    if entries.len() == 0 {
        None
    } else if entries[0].0@ == key {
        Some(entries[0].1@)
    } else {
        lookup_in(entries.drop_first(), key)
    }
}

impl NameCache {
    /// The name recorded for `key`.
    pub open spec fn lookup(&self, key: Seq<char>) -> Option<Seq<char>> {
        lookup_in(self.entries@, key)
    }

    /// An empty cache.
    pub fn new() -> (r: NameCache)
        ensures
            forall|k: Seq<char>| r.lookup(k) is None,
    {
        NameCache { entries: Vec::new() }
    }

    /// The name recorded for `key`.
    pub fn get(&self, key: &str) -> (r: Option<String>)
        ensures
            option_view(r) == self.lookup(key@),
    {
        let kv = chars_of(key);
        let mut i: usize = 0;
        assert(self.entries@.skip(0) =~= self.entries@);
        while i < self.entries.len()
            invariant
                i <= self.entries.len(),
                kv@ == key@,
                lookup_in(self.entries@.skip(i as int), key@) == self.lookup(key@),
            decreases self.entries.len() - i,
        {
            let ek = chars_of(self.entries[i].0.as_str());
            assert(self.entries@.skip(i as int).drop_first() =~= self.entries@.skip(i + 1));
            if crate::text::seq_eq(&ek, &kv) {
                return Some(self.entries[i].1.clone());
            }
            i += 1;
        }
        None
    }

    /// Records `name` for `key`, replacing an earlier name.
    pub fn insert(&mut self, key: String, name: String)
        ensures
            final(self).lookup(key@) == Some(name@),
            forall|k: Seq<char>| k != key@ ==> final(self).lookup(k) == old(self).lookup(k),
    {
        let ghost old_entries = self.entries@;
        let mut rest: Vec<(String, String)> = Vec::new();
        let mut i: usize = 0;
        let kv = chars_of(key.as_str());
        while i < self.entries.len()
            invariant
                i <= self.entries.len(),
                self.entries@ == old_entries,
                kv@ == key@,
                forall|k: Seq<char>| k != key@ ==> #[trigger] lookup_in(rest@, k) == lookup_in(old_entries.take(i as int), k),
                lookup_in(rest@, key@) is None,
            decreases self.entries.len() - i,
        {
            let ek = chars_of(self.entries[i].0.as_str());
            if !crate::text::seq_eq(&ek, &kv) {
                let ghost r0 = rest@;
                rest.push((self.entries[i].0.clone(), self.entries[i].1.clone()));
                proof {
                    lemma_lookup_push(r0, (self.entries@[i as int].0, self.entries@[i as int].1), key@);
                    assert forall|k: Seq<char>| k != key@ implies #[trigger] lookup_in(rest@, k) == lookup_in(old_entries.take(i + 1), k) by {
                        lemma_lookup_push(r0, rest@.last(), k);
                        lemma_lookup_push(old_entries.take(i as int), old_entries[i as int], k);
                        assert(old_entries.take(i + 1) =~= old_entries.take(i as int).push(old_entries[i as int]));
                        assert(rest@ =~= r0.push(rest@.last()));
                    }
                }
            } else {
                proof {
                    assert forall|k: Seq<char>| k != key@ implies #[trigger] lookup_in(rest@, k) == lookup_in(old_entries.take(i + 1), k) by {
                        lemma_lookup_push(old_entries.take(i as int), old_entries[i as int], k);
                        assert(old_entries.take(i + 1) =~= old_entries.take(i as int).push(old_entries[i as int]));
                    }
                }
            }
            i += 1;
        }
        let ghost r0 = rest@;
        rest.push((key, name));
        proof {
            assert(old_entries.take(old_entries.len() as int) =~= old_entries);
            lemma_lookup_push(r0, rest@.last(), rest@.last().0@);
            assert(rest@ =~= r0.push(rest@.last()));
            assert forall|k: Seq<char>| k != rest@.last().0@ implies #[trigger] lookup_in(rest@, k) == lookup_in(r0, k) by {
                lemma_lookup_push(r0, rest@.last(), k);
            }
        }
        self.entries = rest;
    }
}

/// Appending an entry changes a lookup only when nothing earlier matched.
pub proof fn lemma_lookup_push(es: Seq<(String, String)>, e: (String, String), k: Seq<char>)
    ensures
        lookup_in(es.push(e), k) == (match lookup_in(es, k) {
            Some(v) => Some(v),
            None => if e.0@ == k { Some(e.1@) } else { None },
        }),
    decreases es.len(),
{
    if es.len() > 0 {
        assert(es.push(e)[0] == es[0]);
        assert(es.push(e).drop_first() =~= es.drop_first().push(e));
        lemma_lookup_push(es.drop_first(), e, k);
    } else {
        assert(es.push(e).drop_first() =~= Seq::<(String, String)>::empty());
        assert(lookup_in(Seq::<(String, String)>::empty(), k) is None);
        assert(es.push(e)[0] == e);
    }
}

// ---------------------------------------------------------------------------
// Mentions and media
// ---------------------------------------------------------------------------

/// Check if message text contains a mention of the specified user ID.
pub fn message_mentions_user(text: &str, user_id: &str) -> (r: bool)
    ensures
        r == mentions_user(text@, user_id@),
{
    mentions_user_exec(text, user_id)
}

/// The file name shown for an image URL: the last path segment without its
/// query, or `image` when that is empty.
pub open spec fn image_name(url: Seq<char>) -> Seq<char> {
    let seg_start = match last_index_before(url, '/', url.len() as int) {
        Some(k) => k + 1,
        None => 0,
    };
    let seg = url.subrange(seg_start, url.len() as int);
    let name = match index_of_from(seg, '?', 0) {
        Some(q) => seg.subrange(0, q),
        None => seg,
    };
    if name.len() > 0 {
        name
    } else {
        "image"@
    }
}

/// The file name shown for an image URL.
pub fn image_name_exec(url: &String) -> (r: String)
    ensures
        r@ == image_name(url@),
{
    let v = chars_of(url.as_str());
    proof {
        crate::text::lemma_last_index_before(v@, '/', v@.len() as int);
    }
    let start = match rfind_char(&v, '/') {
        Some(k) => k + 1,
        None => 0,
    };
    let seg = crate::mrkdwn::subvec(&v, start, v.len());
    proof {
        lemma_index_of_from(seg@, '?', 0);
    }
    let end = match find_char(&seg, 0, '?') {
        Some(q) => q,
        None => seg.len(),
    };
    if end > 0 {
        let r = string_of_range(&seg, 0, end);
        proof {
            if index_of_from(seg@, '?', 0) is None {
                assert(seg@.subrange(0, seg@.len() as int) =~= seg@);
            }
        }
        r
    } else {
        proof {
            if index_of_from(seg@, '?', 0) is None {
                assert(seg@.len() == 0);
            }
        }
        "image".to_string()
    }
}

/// The image URLs of attachments with a non-empty `image_url`.
pub open spec fn attachment_image_urls(atts: Seq<SlackAttachment>) -> Seq<Seq<char>>
    decreases atts.len(),
{
    if atts.len() == 0 {
        Seq::empty()
    } else {
        attachment_image_urls(atts.drop_last()) + match atts.last().image_url {
            Some(u) => if u@.len() > 0 { seq![u@] } else { Seq::empty() },
            None => Seq::empty(),
        }
    }
}

/// The file names shown for those image URLs.
pub open spec fn names_of_urls(urls: Seq<Seq<char>>) -> Seq<Seq<char>> {
    Seq::new(urls.len(), |i: int| image_name(urls[i]))
}

/// Returns (urls, file_names) for each `attachment.image_url` found.
pub fn extract_attachment_images(attachments: &[SlackAttachment]) -> (r: (Vec<String>, Vec<String>))
    ensures
        views(r.0@) == attachment_image_urls(attachments@),
        views(r.1@) == names_of_urls(attachment_image_urls(attachments@)),
{
    let mut urls: Vec<String> = Vec::new();
    let mut names: Vec<String> = Vec::new();
    let mut i: usize = 0;
    while i < attachments.len()
        invariant
            i <= attachments.len(),
            views(urls@) == attachment_image_urls(attachments@.take(i as int)),
            views(names@) == names_of_urls(views(urls@)),
        decreases attachments.len() - i,
    {
        assert(attachments@.take(i + 1).drop_last() =~= attachments@.take(i as int));
        let ghost u0 = views(urls@);
        let ghost n0 = views(names@);
        match &attachments[i].image_url {
            Some(img) => {
                if !img.as_str().is_empty() {
                    let name = image_name_exec(img);
                    urls.push(img.clone());
                    names.push(name);
                    assert(views(urls@) =~= u0 + seq![img@]);
                    assert(views(names@) =~= n0 + seq![name@]);
                    assert(views(names@) =~= names_of_urls(views(urls@)));
                } else {
                    assert(views(urls@) =~= u0 + Seq::<Seq<char>>::empty());
                }
            },
            None => {
                assert(views(urls@) =~= u0 + Seq::<Seq<char>>::empty());
            },
        }
        i += 1;
    }
    assert(attachments@.take(attachments.len() as int) =~= attachments@);
    (urls, names)
}

/// The file types shown as images when no MIME type is given.
pub open spec fn image_filetype(t: Seq<char>) -> bool {
    t == "jpg"@ || t == "jpeg"@ || t == "png"@ || t == "gif"@ || t == "webp"@ || t == "svg"@
}

/// The file types shown as videos when no MIME type is given.
pub open spec fn video_filetype(t: Seq<char>) -> bool {
    t == "mp4"@ || t == "mov"@ || t == "webm"@
}

/// A file counts as an image.
pub open spec fn file_is_image(f: SlackFile) -> bool {
    match f.mimetype {
        Some(m) => starts_with(m@, "image/"@),
        None => match f.filetype {
            Some(t) => image_filetype(t@),
            None => false,
        },
    }
}

/// A file counts as a video.
pub open spec fn file_is_video(f: SlackFile) -> bool {
    match f.mimetype {
        Some(m) => !starts_with(m@, "image/"@) && starts_with(m@, "video/"@),
        None => match f.filetype {
            Some(t) => !image_filetype(t@) && video_filetype(t@),
            None => false,
        },
    }
}

/// The download URL of a file: the download link, else the private link.
pub open spec fn file_url(f: SlackFile) -> Option<Seq<char>> {
    match f.url_private_download {
        Some(u) => Some(u@),
        None => option_view(f.url_private),
    }
}

/// The ids of the files that have one.
pub open spec fn file_ids(fs: Seq<SlackFile>) -> Seq<Seq<char>>
    decreases fs.len(),
{
    if fs.len() == 0 {
        Seq::empty()
    } else {
        file_ids(fs.drop_last()) + match fs.last().id {
            Some(i) => seq![i@],
            None => Seq::empty(),
        }
    }
}

/// The URLs of the files that have one.
pub open spec fn file_urls(fs: Seq<SlackFile>) -> Seq<Seq<char>>
    decreases fs.len(),
{
    if fs.len() == 0 {
        Seq::empty()
    } else {
        file_urls(fs.drop_last()) + match file_url(fs.last()) {
            Some(u) => seq![u],
            None => Seq::empty(),
        }
    }
}

/// The name of each file, `file` when it has none.
pub open spec fn file_names(fs: Seq<SlackFile>) -> Seq<Seq<char>> {
    Seq::new(fs.len(), |i: int| match fs[i].name {
        Some(n) => n@,
        None => "file"@,
    })
}

/// The media a message's files amount to: video if any file is a video,
/// else image if any is an image, with the files' ids, URLs and names.
pub open spec fn files_media(fs: Seq<SlackFile>) -> Option<(Seq<char>, Seq<Seq<char>>, Seq<Seq<char>>, Seq<Seq<char>>)> {
    if fs.len() == 0 {
        None
    } else if exists|i: int| 0 <= i < fs.len() && file_is_video(#[trigger] fs[i]) {
        Some(("video"@, file_ids(fs), file_urls(fs), file_names(fs)))
    } else if exists|i: int| 0 <= i < fs.len() && file_is_image(#[trigger] fs[i]) {
        Some(("image"@, file_ids(fs), file_urls(fs), file_names(fs)))
    } else {
        None
    }
}

/// A file whose MIME type begins with `video/` makes a message's media a
/// video, with every file's id, URL and name; so does one with no MIME
/// type whose file type is `mp4`, `mov` or `webm`.
pub proof fn law_video_files_make_video_media(fs: Seq<SlackFile>, i: int)
    requires
        0 <= i < fs.len(),
        match fs[i].mimetype {
            Some(m) => m@.len() >= 6 && m@.take(6) == "video/"@,
            None => match fs[i].filetype {
                Some(t) => t@ == "mp4"@ || t@ == "mov"@ || t@ == "webm"@,
                None => false,
            },
        },
    ensures
        files_media(fs) == Some(("video"@, file_ids(fs), file_urls(fs), file_names(fs))),
{
    reveal_strlit("video/");
    reveal_strlit("image/");
    reveal_strlit("mp4");
    reveal_strlit("mov");
    reveal_strlit("webm");
    reveal_strlit("jpg");
    reveal_strlit("jpeg");
    reveal_strlit("png");
    reveal_strlit("gif");
    reveal_strlit("webp");
    reveal_strlit("svg");
    match fs[i].mimetype {
        Some(m) => {
            assert(m@.subrange(0, 6) =~= m@.take(6));
            assert(m@.take(6)[0] == m@[0]);
            assert("video/"@[0] == 'v');
            assert("image/"@[0] == 'i');
            assert(m@[0] == 'v');
            assert(!(m@.subrange(0, 6) =~= "image/"@));
            assert(!starts_with(m@, "image/"@));
            assert(starts_with(m@, "video/"@));
        },
        None => {
            let t = fs[i].filetype->0;
            assert(t@.len() == 3 || t@.len() == 4);
            assert(t@[0] == 'm' || t@[0] == 'w');
            assert("jpg"@[0] == 'j' && "jpeg"@[0] == 'j' && "png"@[0] == 'p' && "gif"@[0] == 'g');
            assert("svg"@[0] == 's' && "webp"@[3] == 'p');
            if t@ == "webm"@ {
                assert("webm"@[3] == 'm');
                assert(t@ != "webp"@);
            }
            assert(!image_filetype(t@));
        },
    }
    assert(file_is_video(fs[i]));
}

/// Files of which none is a video but some has a MIME type beginning with
/// `image/` make a message's media an image.
pub proof fn law_image_files_make_image_media(fs: Seq<SlackFile>, i: int)
    requires
        0 <= i < fs.len(),
        fs[i].mimetype matches Some(m) && m@.len() >= 6 && m@.take(6) == "image/"@,
        forall|j: int| 0 <= j < fs.len() ==> !file_is_video(#[trigger] fs[j]),
    ensures
        files_media(fs) == Some(("image"@, file_ids(fs), file_urls(fs), file_names(fs))),
{
    reveal_strlit("image/");
    let m = fs[i].mimetype->0;
    assert(m@.subrange(0, 6) =~= m@.take(6));
    assert(file_is_image(fs[i]));
}

/// The view of a media description.
pub open spec fn media_view(r: Option<(String, Vec<String>, Vec<String>, Vec<String>)>) -> Option<(Seq<char>, Seq<Seq<char>>, Seq<Seq<char>>, Seq<Seq<char>>)> {
    match r {
        Some(t) => Some((t.0@, views(t.1@), views(t.2@), views(t.3@))),
        None => None,
    }
}

fn classify_file(f: &SlackFile) -> (r: (bool, bool))
    ensures
        r.0 == file_is_image(*f),
        r.1 == file_is_video(*f),
{
    match &f.mimetype {
        Some(m) => {
            let mv = chars_of(m.as_str());
            let img = matches_at_exec(&mv, &chars_of("image/"), 0);
            let vid = matches_at_exec(&mv, &chars_of("video/"), 0);
            (img, !img && vid)
        },
        None => match &f.filetype {
            Some(t) => {
                let tv = chars_of(t.as_str());
                let img = eq_literal(&tv, "jpg") || eq_literal(&tv, "jpeg") || eq_literal(&tv, "png")
                    || eq_literal(&tv, "gif") || eq_literal(&tv, "webp") || eq_literal(&tv, "svg");
                let vid = eq_literal(&tv, "mp4") || eq_literal(&tv, "mov") || eq_literal(&tv, "webm");
                (img, !img && vid)
            },
            None => (false, false),
        },
    }
}

/// Classifies the media of a message's files.
pub fn detect_media_type(files: &[SlackFile]) -> (r: Option<(String, Vec<String>, Vec<String>, Vec<String>)>)
    ensures
        media_view(r) == files_media(files@),
{
    if files.len() == 0 {
        return None;
    }
    let mut has_image = false;
    let mut has_video = false;
    let mut ids: Vec<String> = Vec::new();
    let mut urls: Vec<String> = Vec::new();
    let mut names: Vec<String> = Vec::new();
    let mut i: usize = 0;
    while i < files.len()
        invariant
            i <= files.len(),
            views(ids@) == file_ids(files@.take(i as int)),
            views(urls@) == file_urls(files@.take(i as int)),
            views(names@) == file_names(files@.take(i as int)),
            has_image == exists|j: int| 0 <= j < i && file_is_image(#[trigger] files@[j]),
            has_video == exists|j: int| 0 <= j < i && file_is_video(#[trigger] files@[j]),
        decreases files.len() - i,
    {
        let f = &files[i];
        let ghost fs1 = files@.take(i + 1);
        assert(fs1.drop_last() =~= files@.take(i as int));
        assert(fs1.last() == files@[i as int]);
        let ghost ids0 = views(ids@);
        let ghost urls0 = views(urls@);
        let ghost names0 = views(names@);
        match &f.id {
            Some(id) => {
                ids.push(id.clone());
                assert(views(ids@) =~= ids0 + seq![id@]);
            },
            None => {
                assert(views(ids@) =~= ids0 + Seq::<Seq<char>>::empty());
            },
        }
        let url = match &f.url_private_download {
            Some(u) => Some(u.clone()),
            None => copy_opt_string(&f.url_private),
        };
        assert(option_view(url) == file_url(*f));
        match url {
            Some(u) => {
                let ghost uv = u@;
                urls.push(u);
                assert(views(urls@) =~= urls0 + seq![uv]);
            },
            None => {
                assert(views(urls@) =~= urls0 + Seq::<Seq<char>>::empty());
            },
        }
        let nm = match &f.name {
            Some(n) => n.clone(),
            None => "file".to_string(),
        };
        let ghost nmv = nm@;
        names.push(nm);
        assert(views(names@) =~= names0.push(nmv));
        assert(file_names(fs1) =~= file_names(files@.take(i as int)).push(nmv));
        let (img, vid) = classify_file(f);
        if img {
            has_image = true;
        }
        if vid {
            has_video = true;
        }
        i += 1;
    }
    assert(files@.take(files.len() as int) =~= files@);
    if has_video {
        Some(("video".to_string(), ids, urls, names))
    } else if has_image {
        Some(("image".to_string(), ids, urls, names))
    } else {
        None
    }
}

/// The media of a message: its files plus the images of its attachments.
pub open spec fn message_media(files: Seq<SlackFile>, atts: Seq<SlackAttachment>) -> Option<(Seq<char>, Seq<Seq<char>>, Seq<Seq<char>>, Seq<Seq<char>>)> {
    let from = files_media(files);
    let urls = attachment_image_urls(atts);
    if urls.len() == 0 {
        from
    } else {
        match from {
            Some(t) => Some((t.0, t.1, t.2 + urls, t.3 + names_of_urls(urls))),
            None => Some(("image"@, Seq::empty(), urls, names_of_urls(urls))),
        }
    }
}

fn append_strings(dst: &mut Vec<String>, src: Vec<String>)
    ensures
        views(final(dst)@) == views(old(dst)@) + views(src@),
{
    let mut src = src;
    let ghost s = views(src@);
    let ghost d = views(dst@);
    dst.append(&mut src);
    assert(views(dst@) =~= d + s);
}

/// Combined media detection: file uploads + attachment image_url.
pub fn detect_message_media(files: &[SlackFile], attachments: &[SlackAttachment]) -> (r: Option<(String, Vec<String>, Vec<String>, Vec<String>)>)
    ensures
        media_view(r) == message_media(files@, attachments@),
{
    let from_files = detect_media_type(files);
    let (att_urls, att_names) = extract_attachment_images(attachments);
    if att_urls.len() == 0 {
        return from_files;
    }
    match from_files {
        Some((mt, ids, urls, names)) => {
            let mut urls = urls;
            let mut names = names;
            append_strings(&mut urls, att_urls);
            append_strings(&mut names, att_names);
            Some((mt, ids, urls, names))
        },
        None => {
            let ids: Vec<String> = Vec::new();
            assert(views(ids@) =~= Seq::<Seq<char>>::empty());
            Some(("image".to_string(), ids, att_urls, att_names))
        },
    }
}

/// The media fields of a realtime message: its files' media plus inline
/// images, which make the message an image when its files are not media.
pub open spec fn inline_media(files: Seq<SlackFile>, inline: Seq<(String, String)>) -> (Option<Seq<char>>, Seq<Seq<char>>, Seq<Seq<char>>, Seq<Seq<char>>) {
    let base: (Option<Seq<char>>, Seq<Seq<char>>, Seq<Seq<char>>, Seq<Seq<char>>) = match files_media(files) {
        Some(t) => (Some(t.0), t.1, t.2, t.3),
        None => (None, Seq::empty(), Seq::empty(), Seq::empty()),
    };
    if inline.len() == 0 {
        base
    } else {
        (
            if base.0 is None { Some("image"@) } else { base.0 },
            base.1,
            base.2 + Seq::new(inline.len(), |i: int| inline[i].0@),
            base.3 + Seq::new(inline.len(), |i: int| inline[i].1@),
        )
    }
}

/// Media fields from realtime files and inline image URLs.
pub fn media_fields_from_files_and_inline(files: &[SlackFile], inline_image_urls: &[(String, String)]) -> (r: (Option<String>, Vec<String>, Vec<String>, Vec<String>))
    ensures
        (option_view(r.0), views(r.1@), views(r.2@), views(r.3@)) == inline_media(files@, inline_image_urls@),
{
    let e1: Vec<String> = Vec::new();
    let e2: Vec<String> = Vec::new();
    let e3: Vec<String> = Vec::new();
    assert(views(e1@) =~= Seq::<Seq<char>>::empty());
    assert(views(e2@) =~= Seq::<Seq<char>>::empty());
    assert(views(e3@) =~= Seq::<Seq<char>>::empty());
    let (mut mt, ids, mut urls, mut names) = match detect_media_type(files) {
        Some((m, a, b, c)) => (Some(m), a, b, c),
        None => (None, e1, e2, e3),
    };
    if inline_image_urls.len() > 0 {
        if mt.is_none() {
            mt = Some("image".to_string());
        }
        let ghost u0 = views(urls@);
        let ghost n0 = views(names@);
        let ghost inl = inline_image_urls@;
        let mut i: usize = 0;
        while i < inline_image_urls.len()
            invariant
                i <= inline_image_urls.len(),
                inl == inline_image_urls@,
                views(urls@) =~= u0 + Seq::new(i as nat, |j: int| inl[j].0@),
                views(names@) =~= n0 + Seq::new(i as nat, |j: int| inl[j].1@),
            decreases inline_image_urls.len() - i,
        {
            let ghost ua = views(urls@);
            let ghost na = views(names@);
            let u = inline_image_urls[i].0.clone();
            let n = inline_image_urls[i].1.clone();
            urls.push(u);
            names.push(n);
            assert(views(urls@) =~= ua.push(inl[i as int].0@));
            assert(views(names@) =~= na.push(inl[i as int].1@));
            assert(Seq::new((i + 1) as nat, |j: int| inl[j].0@) =~= Seq::new(i as nat, |j: int| inl[j].0@).push(inl[i as int].0@));
            assert(Seq::new((i + 1) as nat, |j: int| inl[j].1@) =~= Seq::new(i as nat, |j: int| inl[j].1@).push(inl[i as int].1@));
            i += 1;
        }
    }
    (mt, ids, urls, names)
}

// ---------------------------------------------------------------------------
// Message records
// ---------------------------------------------------------------------------

/// The display name of a message's sender: the cached name of its user
/// (or the user id), else its bot profile's name (or `Bot`), else its
/// username, else the cached name of its bot (or the bot id), else `Unknown`.
pub open spec fn sender_name(m: SlackMessage, cache: NameCache) -> Seq<char> {
    match m.user {
        Some(u) => match cache.lookup(u@) {
            Some(n) => n,
            None => u@,
        },
        None => match m.bot_profile {
            Some(bp) => match bp.name {
                Some(n) => n@,
                None => "Bot"@,
            },
            None => match m.username {
                Some(u) => u@,
                None => match m.bot_id {
                    Some(b) => match cache.lookup(b@) {
                        Some(n) => n,
                        None => b@,
                    },
                    None => "Unknown"@,
                },
            },
        },
    }
}

pub fn resolve_sender_name(msg: &SlackMessage, name_cache: &NameCache) -> (r: String)
    ensures
        r@ == sender_name(*msg, *name_cache),
{
    if let Some(user_id) = &msg.user {
        return match name_cache.get(user_id.as_str()) {
            Some(n) => n,
            None => user_id.clone(),
        };
    }
    if let Some(bot_profile) = &msg.bot_profile {
        return match &bot_profile.name {
            Some(n) => n.clone(),
            None => "Bot".to_string(),
        };
    }
    if let Some(username) = &msg.username {
        return username.clone();
    }
    if let Some(bot_id) = &msg.bot_id {
        return match name_cache.get(bot_id.as_str()) {
            Some(n) => n,
            None => bot_id.clone(),
        };
    }
    "Unknown".to_string()
}

/// The reactions of a message as (name, count) pairs.
pub open spec fn reactions_view(v: Seq<(String, u32)>) -> Seq<(Seq<char>, u32)> {
    Seq::new(v.len(), |i: int| (v[i].0@, v[i].1))
}

/// Every attachment of the message can be shown as a card.
pub open spec fn attachments_ok(m: SlackMessage) -> bool {
    forall|i: int| 0 <= i < m.attachments@.len() ==> #[trigger] fallback_cut_ok(m.attachments@[i])
}

/// The media fields of a record built from a message.
pub open spec fn record_media(m: SlackMessage) -> (Option<Seq<char>>, Seq<Seq<char>>, Seq<Seq<char>>, Seq<Seq<char>>) {
    match message_media(m.files@, m.attachments@) {
        Some(t) => (Some(t.0), t.1, t.2, t.3),
        None => (None, Seq::empty(), Seq::empty(), Seq::empty()),
    }
}

/// The display record of a Slack message, showing `reply_count` replies.
pub open spec fn record_of(msg: SlackMessage, my_user_id: Seq<char>, cache: NameCache, reply_count: u32) -> crate::widgets::MessageV {
    crate::widgets::MessageV {
        sender_name: sender_name(msg, cache),
        text: message_text(msg),
        is_outgoing: option_view(msg.user) == Some(my_user_id),
        ts: msg.ts@,
        reactions: Seq::new(msg.reactions@.len(), |i: int| (msg.reactions@[i].name@, msg.reactions@[i].count)),
        reply_count: reply_count,
        cards: cards_of(msg.attachments@),
        mentions_me: mentions_user(message_text(msg), my_user_id),
        local_echo_id: None,
        is_edited: false,
        is_deleted: false,
        media_type: record_media(msg).0,
        file_ids: record_media(msg).1,
        file_urls: record_media(msg).2,
        file_names: record_media(msg).3,
    }
}

/// The reply count a Slack message carries (0 when absent).
pub open spec fn own_reply_count(msg: SlackMessage) -> u32 {
    match msg.reply_count {
        Some(c) => c,
        None => 0u32,
    }
}

pub fn slack_message_to_message_data(msg: &SlackMessage, my_user_id: &str, name_cache: &NameCache) -> (r: MessageData)
    requires
        attachments_ok(*msg),
    ensures
        r.sender_name@ == sender_name(*msg, *name_cache),
        r.text@ == message_text(*msg),
        r.is_outgoing == (option_view(msg.user) == Some(my_user_id@)),
        r.ts@ == msg.ts@,
        reactions_view(r.reactions@) == Seq::new(msg.reactions@.len(), |i: int| (msg.reactions@[i].name@, msg.reactions@[i].count)),
        r.reply_count == (match msg.reply_count { Some(c) => c, None => 0u32 }),
        cards_view(r.cards@) == cards_of(msg.attachments@),
        r.mentions_me == mentions_user(message_text(*msg), my_user_id@),
        r.local_echo_id is None,
        !r.is_edited,
        !r.is_deleted,
        (option_view(r.media_type), views(r.file_ids@), views(r.file_urls@), views(r.file_names@)) == record_media(*msg),
        r@ == record_of(*msg, my_user_id@, *name_cache, own_reply_count(*msg)),
{
    slack_message_to_message_data_with_reply_count(msg, my_user_id, name_cache, None)
}

/// Like [`slack_message_to_message_data`] but allows overriding reply count (thread panes use 0).
pub fn slack_message_to_message_data_with_reply_count(
    msg: &SlackMessage,
    my_user_id: &str,
    name_cache: &NameCache,
    reply_count_override: Option<u32>,
) -> (r: MessageData)
    requires
        attachments_ok(*msg),
    ensures
        r.sender_name@ == sender_name(*msg, *name_cache),
        r.text@ == message_text(*msg),
        r.is_outgoing == (option_view(msg.user) == Some(my_user_id@)),
        r.ts@ == msg.ts@,
        reactions_view(r.reactions@) == Seq::new(msg.reactions@.len(), |i: int| (msg.reactions@[i].name@, msg.reactions@[i].count)),
        r.reply_count == (match reply_count_override {
            Some(c) => c,
            None => match msg.reply_count {
                Some(c) => c,
                None => 0u32,
            },
        }),
        cards_view(r.cards@) == cards_of(msg.attachments@),
        r.mentions_me == mentions_user(message_text(*msg), my_user_id@),
        r.local_echo_id is None,
        !r.is_edited,
        !r.is_deleted,
        (option_view(r.media_type), views(r.file_ids@), views(r.file_urls@), views(r.file_names@)) == record_media(*msg),
        r@ == record_of(*msg, my_user_id@, *name_cache, match reply_count_override {
            Some(c) => c,
            None => own_reply_count(*msg),
        }),
{
    let text = msg.rendered_text();
    let sender_name = resolve_sender_name(msg, name_cache);
    let mut reactions: Vec<(String, u32)> = Vec::new();
    let mut i: usize = 0;
    while i < msg.reactions.len()
        invariant
            i <= msg.reactions.len(),
            reactions_view(reactions@) =~= Seq::new(i as nat, |j: int| (msg.reactions@[j].name@, msg.reactions@[j].count)),
        decreases msg.reactions.len() - i,
    {
        let ghost r0 = reactions_view(reactions@);
        let nm = msg.reactions[i].name.clone();
        reactions.push((nm, msg.reactions[i].count));
        assert(reactions_view(reactions@) =~= r0.push((msg.reactions@[i as int].name@, msg.reactions@[i as int].count)));
        i += 1;
    }
    let mentions_me = message_mentions_user(text.as_str(), my_user_id);
    let e1: Vec<String> = Vec::new();
    let e2: Vec<String> = Vec::new();
    let e3: Vec<String> = Vec::new();
    assert(views(e1@) =~= Seq::<Seq<char>>::empty());
    assert(views(e2@) =~= Seq::<Seq<char>>::empty());
    assert(views(e3@) =~= Seq::<Seq<char>>::empty());
    let (media_type, file_ids, file_urls, file_names) = match detect_message_media(msg.files.as_slice(), msg.attachments.as_slice()) {
        Some((mt, ids, urls, names)) => (Some(mt), ids, urls, names),
        None => (None, e1, e2, e3),
    };
    let is_outgoing = match &msg.user {
        Some(u) => crate::text::seq_eq(&chars_of(u.as_str()), &chars_of(my_user_id)),
        None => false,
    };
    let reply_count = match reply_count_override {
        Some(c) => c,
        None => match msg.reply_count {
            Some(c) => c,
            None => 0,
        },
    };
    let r = MessageData {
        sender_name,
        text,
        is_outgoing,
        ts: msg.ts.clone(),
        reactions,
        reply_count,
        cards: attachments_to_cards(msg.attachments.as_slice()),
        mentions_me,
        local_echo_id: None,
        is_edited: false,
        is_deleted: false,
        media_type,
        file_ids,
        file_urls,
        file_names,
    };
    assert(r@.reactions =~= Seq::new(msg.reactions@.len(), |i: int| (msg.reactions@[i].name@, msg.reactions@[i].count)));
    r
}

/// The display record of a realtime new-message payload.
pub open spec fn realtime_view(
    user_name: Seq<char>,
    text: Seq<char>,
    ts: Seq<char>,
    is_self: bool,
    cards: Seq<AttachmentCard>,
    mentions_me: bool,
    files: Seq<SlackFile>,
    inline_image_urls: Seq<(String, String)>,
) -> crate::widgets::MessageV {
    let media = inline_media(files, inline_image_urls);
    crate::widgets::MessageV {
        sender_name: user_name,
        text: text,
        is_outgoing: is_self,
        ts: ts,
        reactions: Seq::empty(),
        reply_count: 0,
        cards: cards_view(cards),
        mentions_me: mentions_me,
        local_echo_id: None,
        is_edited: false,
        is_deleted: false,
        media_type: media.0,
        file_ids: media.1,
        file_urls: media.2,
        file_names: media.3,
    }
}

/// Convert a realtime new-message payload into a display record.
pub fn realtime_message_to_message_data(
    user_name: &str,
    text: &str,
    ts: &str,
    is_self: bool,
    cards: &[AttachmentCard],
    mentions_me: bool,
    files: &[SlackFile],
    inline_image_urls: &[(String, String)],
) -> (r: MessageData)
    ensures
        r.sender_name@ == user_name@,
        r.text@ == text@,
        r.is_outgoing == is_self,
        r.ts@ == ts@,
        r.reactions@.len() == 0,
        r.reply_count == 0,
        cards_view(r.cards@) == cards_view(cards@),
        r.mentions_me == mentions_me,
        r.local_echo_id is None,
        !r.is_edited,
        !r.is_deleted,
        (option_view(r.media_type), views(r.file_ids@), views(r.file_urls@), views(r.file_names@)) == inline_media(files@, inline_image_urls@),
        r@ == realtime_view(user_name@, text@, ts@, is_self, cards@, mentions_me, files@, inline_image_urls@),
{
    let (media_type, file_ids, file_urls, file_names) = media_fields_from_files_and_inline(files, inline_image_urls);
    let r = MessageData {
        sender_name: user_name.to_string(),
        text: text.to_string(),
        is_outgoing: is_self,
        ts: ts.to_string(),
        reactions: Vec::new(),
        reply_count: 0,
        cards: copy_cards(cards),
        mentions_me,
        local_echo_id: None,
        is_edited: false,
        is_deleted: false,
        media_type,
        file_ids,
        file_urls,
        file_names,
    };
    assert(r@.reactions =~= Seq::<(Seq<char>, u32)>::empty());
    r
}

/// The timestamp of a local echo: `<seconds>.local.<id>`.
pub open spec fn local_echo_ts(secs: int, id: u64) -> Seq<char> {
    crate::text::signed_decimal(secs) + seq!['.', 'l', 'o', 'c', 'a', 'l', '.'] + crate::text::decimal(id as nat)
}

/// The local echo of a message `text` sent by `sender` at `secs`.
pub open spec fn echo_view(sender: Seq<char>, text: Seq<char>, id: u64, secs: int) -> crate::widgets::MessageV {
    crate::widgets::MessageV {
        sender_name: sender,
        text: text,
        is_outgoing: true,
        ts: local_echo_ts(secs, id),
        reactions: Seq::empty(),
        reply_count: 0,
        cards: Seq::empty(),
        mentions_me: false,
        local_echo_id: Some(id),
        is_edited: false,
        is_deleted: false,
        media_type: None,
        file_ids: Seq::empty(),
        file_urls: Seq::empty(),
        file_names: Seq::empty(),
    }
}

/// Local echo shown immediately after the user sends a message, when the
/// clock reads `secs` seconds since the Unix epoch (the caller reads it).
pub fn local_echo_message_data(sender_name: String, text: String, local_echo_id: u64, secs: i64) -> (r: MessageData)
    ensures
        r@ == echo_view(sender_name@, text@, local_echo_id, secs as int),
        r.reactions@.len() == 0,
        r.cards@.len() == 0,
        r.file_ids@.len() == 0 && r.file_urls@.len() == 0 && r.file_names@.len() == 0,
{
    let mut ts = String::new();
    crate::text::push_signed_decimal(&mut ts, secs);
    ts.push('.');
    ts.push('l');
    ts.push('o');
    ts.push('c');
    ts.push('a');
    ts.push('l');
    ts.push('.');
    crate::text::push_decimal(&mut ts, local_echo_id);
    assert(ts@ =~= local_echo_ts(secs as int, local_echo_id));
    let r = MessageData {
        sender_name,
        text,
        is_outgoing: true,
        ts,
        reactions: Vec::new(),
        reply_count: 0,
        cards: Vec::new(),
        mentions_me: false,
        local_echo_id: Some(local_echo_id),
        is_edited: false,
        is_deleted: false,
        media_type: None,
        file_ids: Vec::new(),
        file_urls: Vec::new(),
        file_names: Vec::new(),
    };
    assert(r@.reactions =~= Seq::<(Seq<char>, u32)>::empty());
    assert(r@.cards =~= Seq::<crate::widgets::CardV>::empty());
    assert(r@.file_ids =~= Seq::<Seq<char>>::empty());
    assert(r@.file_urls =~= Seq::<Seq<char>>::empty());
    assert(r@.file_names =~= Seq::<Seq<char>>::empty());
    assert(r@ == echo_view(r.sender_name@, r.text@, local_echo_id, secs as int));
    r
}

} // verus!
