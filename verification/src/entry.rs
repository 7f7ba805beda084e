//! One content type in the list, and the media group it is listed under.
use crate::i18n::{can_translate, fixed, text_of, translated, Message};
use crate::text::{chars_of, join2, same_chars, string_of, sub_chars};
use crate::typeset::TypeSet;
use vstd::prelude::*;
use vstd::string::StringExecFns;

verus! {

/// Position `k` holds the first `/` of `mime`.
pub open spec fn first_slash(mime: Seq<char>, k: int) -> bool {
    &&& 0 <= k < mime.len()
    &&& mime[k] == '/'
    &&& forall|j: int| 0 <= j < k ==> mime[j] != '/'
}

/// The top-level media type of `mime`: what comes before the first `/`, or
/// all of it when there is none.
pub open spec fn media_part(mime: Seq<char>) -> Seq<char> {
    if exists|k: int| #[trigger] first_slash(mime, k) {
        mime.take(choose|k: int| #[trigger] first_slash(mime, k))
    } else {
        mime
    }
}

/// The name of the section for a top-level media type the list knows.
pub open spec fn group_msgid(media: Seq<char>) -> Option<Seq<char>> {
    if media == "application"@ {
        Some("Applications and Documents"@)
    } else if media == "audio"@ {
        Some("Audio"@)
    } else if media == "font"@ {
        Some("Fonts"@)
    } else if media == "image"@ {
        Some("Images"@)
    } else if media == "inode"@ {
        Some("Folders and Devices"@)
    } else if media == "message"@ {
        Some("Messages"@)
    } else if media == "model"@ {
        Some("3D Models"@)
    } else if media == "multipart"@ {
        Some("Multipart"@)
    } else if media == "text"@ {
        Some("Text"@)
    } else if media == "video"@ {
        Some("Video"@)
    } else if media == "x-scheme-handler"@ {
        Some("Links and Protocols"@)
    } else {
        None
    }
}

/// `c` in upper case, by the Unicode mapping `char::to_uppercase` applies;
/// one character may become several.
pub uninterp spec fn uppercase(c: char) -> Seq<char>;

/// `char::to_uppercase`, collected into a string.
#[verifier::external_body]
fn upper(c: char) -> (r: String)
    ensures
        r@ == uppercase(c),
{
    c.to_uppercase().to_string()
}

/// The section a type belongs to, before translation: `(true, msgid)` for a
/// name to translate, `(false, text)` for a name shown as it is, which is the
/// media type with its first letter in upper case.
pub open spec fn label_of(mime: Seq<char>) -> (bool, Seq<char>) {
    let media = media_part(mime);
    match group_msgid(media) {
        Some(m) => (true, m),
        None => if media.len() == 0 {
            (true, "Other"@)
        } else {
            (false, uppercase(media[0]) + media.drop_first())
        },
    }
}

/// The name of a section: a message to translate, or text shown as it is.
pub enum GroupLabel {
    Translated(&'static str),
    Plain(String),
}

/// The view of a section name, as `label_of` gives it.
pub open spec fn label_view(l: GroupLabel) -> (bool, Seq<char>) {
    match l {
        GroupLabel::Translated(m) => (true, m@),
        GroupLabel::Plain(s) => (false, s@),
    }
}

/// The top-level media type of `mime`, as characters.
fn media_chars(mime: &str) -> (r: Vec<char>)
    ensures
        r@ == media_part(mime@),
{
    let cs = chars_of(mime);
    let mut k: usize = 0;
    while k < cs.len()
        invariant
            k <= cs@.len(),
            cs@ == mime@,
            forall|j: int| 0 <= j < k ==> cs@[j] != '/',
        decreases cs@.len() - k,
    {
        if cs[k] == '/' {
            assert(first_slash(mime@, k as int));
            let ghost c = choose|c: int| #[trigger] first_slash(mime@, c);
            assert(c == k) by {
                if c < k {
                    assert(cs@[c] != '/');
                } else if c > k {
                    assert(mime@[k as int] != '/');
                }
            }
            let r = sub_chars(cs.as_slice(), 0, k);
            assert(r@ =~= mime@.take(k as int));
            return r;
        }
        k = k + 1;
    }
    assert(!exists|c: int| #[trigger] first_slash(mime@, c));
    cs
}

/// Whether `media` is the literal `name`.
fn is_media(media: &[char], name: &str) -> (r: bool)
    ensures
        r == (media@ == name@),
{
    let n = chars_of(name);
    same_chars(media, n.as_slice())
}

/// The name of the section `mime` is listed under, before translation.
pub fn group_label(mime: &str) -> (r: GroupLabel)
    ensures
        label_view(r) == label_of(mime@),
{
    let media = media_chars(mime);
    let m = media.as_slice();
    if is_media(m, "application") {
        GroupLabel::Translated("Applications and Documents")
    } else if is_media(m, "audio") {
        GroupLabel::Translated("Audio")
    } else if is_media(m, "font") {
        GroupLabel::Translated("Fonts")
    } else if is_media(m, "image") {
        GroupLabel::Translated("Images")
    } else if is_media(m, "inode") {
        GroupLabel::Translated("Folders and Devices")
    } else if is_media(m, "message") {
        GroupLabel::Translated("Messages")
    } else if is_media(m, "model") {
        GroupLabel::Translated("3D Models")
    } else if is_media(m, "multipart") {
        GroupLabel::Translated("Multipart")
    } else if is_media(m, "text") {
        GroupLabel::Translated("Text")
    } else if is_media(m, "video") {
        GroupLabel::Translated("Video")
    } else if is_media(m, "x-scheme-handler") {
        GroupLabel::Translated("Links and Protocols")
    } else if media.len() == 0 {
        GroupLabel::Translated("Other")
    } else {
        let mut first = upper(media[0]);
        let rest = sub_chars(m, 1, media.len());
        let tail = string_of(rest.as_slice());
        first.append(tail.as_str());
        assert(rest@ =~= media@.drop_first());
        GroupLabel::Plain(first)
    }
}

/// `name` is the section name of `mime`: the text `tr` gave for the section's
/// message where the list translates it, else the name `label_of` gives.
pub open spec fn group_name<T: Fn(&Message) -> String>(tr: T, mime: Seq<char>, name: Seq<char>) -> bool {
    if label_of(mime).0 {
        translated(tr, fixed(label_of(mime).1), name)
    } else {
        name == label_of(mime).1
    }
}

/// The section a type belongs to: its top-level media type, under the name
/// `tr` gives for it where the list knows it, else the media type itself
/// with its first letter in upper case.
pub fn media_group<T: Fn(&Message) -> String>(mime: &str, tr: &T) -> (r: String)
    requires
        can_translate(*tr),
    ensures
        group_name(*tr, mime@, r@),
{
    match group_label(mime) {
        GroupLabel::Translated(m) => {
            let message = Message { id: m, plural: None };
            text_of(tr, &message)
        },
        GroupLabel::Plain(s) => s,
    }
}

/// The section is decided by the text before the first slash alone: a type
/// `media/anything` is listed where `media` itself would be.
pub proof fn lemma_group_decided_by_media_type(media: Seq<char>, rest: Seq<char>)
    requires
        forall|i: int| 0 <= i < media.len() ==> media[i] != '/',
    ensures
        label_of(media + "/"@ + rest) == label_of(media),
{
    let mime = media + "/"@ + rest;
    reveal_strlit("/");
    assert(first_slash(mime, media.len() as int));
    assert(!exists|c: int| #[trigger] first_slash(media, c));
    assert forall|c: int| #[trigger] first_slash(mime, c) implies c == media.len() by {
        if c < media.len() {
            assert(mime[c] == media[c]);
        } else if c > media.len() {
            assert(mime[media.len() as int] == '/');
        }
    }
    assert(mime.take(media.len() as int) =~= media);
}

/// One content type in the list model.
pub struct MimeEntry {
    mime: String,
    description: String,
    search_key: String,
    type_group: String,
    /// True when this type has an entry in the user's own mimeapps.list.
    modified: bool,
}

impl MimeEntry {
    pub closed spec fn mime_view(&self) -> Seq<char> {
        self.mime@
    }

    pub closed spec fn description_view(&self) -> Seq<char> {
        self.description@
    }

    pub closed spec fn search_key_view(&self) -> Seq<char> {
        self.search_key@
    }

    pub closed spec fn type_group_view(&self) -> Seq<char> {
        self.type_group@
    }

    pub closed spec fn modified_view(&self) -> bool {
        self.modified
    }

    /// The entry for `mime`, described as the MIME database describes it;
    /// searched by its name and description, listed under its media group,
    /// and marked modified when the user assigned it themselves; `tr` gives
    /// the names of the sections the list translates.
    pub fn new<T: Fn(&Message) -> String>(mime: &str, description: &str, overrides: &TypeSet, tr: &T) -> (e: Self)
        requires
            can_translate(*tr),
        ensures
            e.mime_view() == mime@,
            e.description_view() == description@,
            e.search_key_view() == mime@ + " "@ + description@,
            group_name(*tr, mime@, e.type_group_view()),
            e.modified_view() == overrides@.contains(mime@),
    {
        let mut search_key = join2(mime, " ");
        search_key.append(description);
        MimeEntry {
            mime: String::from_str(mime),
            description: String::from_str(description),
            search_key,
            type_group: media_group(mime, tr),
            modified: overrides.contains(mime),
        }
    }

    /// An entry with these fields, as another representation of it holds them.
    pub fn from_parts(
        mime: String,
        description: String,
        search_key: String,
        type_group: String,
        modified: bool,
    ) -> (e: Self)
        ensures
            e.mime_view() == mime@,
            e.description_view() == description@,
            e.search_key_view() == search_key@,
            e.type_group_view() == type_group@,
            e.modified_view() == modified,
    {
        MimeEntry { mime, description, search_key, type_group, modified }
    }

    pub fn mime(&self) -> (r: String)
        ensures
            r@ == self.mime_view(),
    {
        self.mime.clone()
    }

    pub fn description(&self) -> (r: String)
        ensures
            r@ == self.description_view(),
    {
        self.description.clone()
    }

    pub fn search_key(&self) -> (r: String)
        ensures
            r@ == self.search_key_view(),
    {
        self.search_key.clone()
    }

    pub fn type_group(&self) -> (r: String)
        ensures
            r@ == self.type_group_view(),
    {
        self.type_group.clone()
    }

    pub fn modified(&self) -> (r: bool)
        ensures
            r == self.modified_view(),
    {
        self.modified
    }
}

/// The one piece of layout state the breakpoint flips and rows bind to.
pub struct ViewState {
    pub narrow: bool,
}

impl ViewState {
    /// The state of a window wide enough for two columns.
    pub fn new() -> (s: Self)
        ensures
            !s.narrow,
    {
        ViewState { narrow: false }
    }

    pub fn narrow(&self) -> (r: bool)
        ensures
            r == self.narrow,
    {
        self.narrow
    }

    pub fn set_narrow(&mut self, narrow: bool)
        ensures
            final(self).narrow == narrow,
    {
        self.narrow = narrow;
    }
}

/// Distinct top-level media types the list knows get distinct section
/// names, so no two of them share a section: what one section lists,
/// counts and assigns in bulk is of one media type.
pub proof fn lemma_known_groups_have_distinct_names(a: Seq<char>, b: Seq<char>)
    requires
        group_msgid(a) is Some,
        group_msgid(a) == group_msgid(b),
    ensures
        a == b,
{
    reveal_strlit("application");
    reveal_strlit("Applications and Documents");
    reveal_strlit("audio");
    reveal_strlit("Audio");
    reveal_strlit("font");
    reveal_strlit("Fonts");
    reveal_strlit("image");
    reveal_strlit("Images");
    reveal_strlit("inode");
    reveal_strlit("Folders and Devices");
    reveal_strlit("message");
    reveal_strlit("Messages");
    reveal_strlit("model");
    reveal_strlit("3D Models");
    reveal_strlit("multipart");
    reveal_strlit("Multipart");
    reveal_strlit("text");
    reveal_strlit("Text");
    reveal_strlit("video");
    reveal_strlit("Video");
    reveal_strlit("x-scheme-handler");
    reveal_strlit("Links and Protocols");
    assert("Applications and Documents"@.len() == 26 && "Applications and Documents"@[0] == 'A');
    assert("Audio"@.len() == 5 && "Audio"@[0] == 'A');
    assert("Fonts"@.len() == 5 && "Fonts"@[0] == 'F');
    assert("Images"@.len() == 6 && "Images"@[0] == 'I');
    assert("Folders and Devices"@.len() == 19 && "Folders and Devices"@[0] == 'F');
    assert("Messages"@.len() == 8 && "Messages"@[0] == 'M');
    assert("3D Models"@.len() == 9 && "3D Models"@[0] == '3');
    assert("Multipart"@.len() == 9 && "Multipart"@[0] == 'M');
    assert("Text"@.len() == 4 && "Text"@[0] == 'T');
    assert("Video"@.len() == 5 && "Video"@[0] == 'V');
    assert("Links and Protocols"@.len() == 19 && "Links and Protocols"@[0] == 'L');
    assert("application"@.len() == 11 && "application"@[0] == 'a' && "application"@[1] == 'p');
    assert("audio"@.len() == 5 && "audio"@[0] == 'a' && "audio"@[1] == 'u');
    assert("font"@.len() == 4 && "font"@[0] == 'f' && "font"@[1] == 'o');
    assert("image"@.len() == 5 && "image"@[0] == 'i' && "image"@[1] == 'm');
    assert("inode"@.len() == 5 && "inode"@[0] == 'i' && "inode"@[1] == 'n');
    assert("message"@.len() == 7 && "message"@[0] == 'm' && "message"@[1] == 'e');
    assert("model"@.len() == 5 && "model"@[0] == 'm' && "model"@[1] == 'o');
    assert("multipart"@.len() == 9 && "multipart"@[0] == 'm' && "multipart"@[1] == 'u');
    assert("text"@.len() == 4 && "text"@[0] == 't' && "text"@[1] == 'e');
    assert("video"@.len() == 5 && "video"@[0] == 'v' && "video"@[1] == 'i');
    assert("x-scheme-handler"@.len() == 16 && "x-scheme-handler"@[0] == 'x' && "x-scheme-handler"@[1] == '-');
}

/// The section each known top-level media type is listed under: a type
/// `media/anything` goes to the section its media type names, `audio/*` to
/// Audio, `video/*` to Video, and so on.
pub proof fn lemma_known_group_names(rest: Seq<char>)
    ensures
        label_of("application"@ + "/"@ + rest) == (true, "Applications and Documents"@),
        label_of("audio"@ + "/"@ + rest) == (true, "Audio"@),
        label_of("font"@ + "/"@ + rest) == (true, "Fonts"@),
        label_of("image"@ + "/"@ + rest) == (true, "Images"@),
        label_of("inode"@ + "/"@ + rest) == (true, "Folders and Devices"@),
        label_of("message"@ + "/"@ + rest) == (true, "Messages"@),
        label_of("model"@ + "/"@ + rest) == (true, "3D Models"@),
        label_of("multipart"@ + "/"@ + rest) == (true, "Multipart"@),
        label_of("text"@ + "/"@ + rest) == (true, "Text"@),
        label_of("video"@ + "/"@ + rest) == (true, "Video"@),
        label_of("x-scheme-handler"@ + "/"@ + rest) == (true, "Links and Protocols"@),
{
    reveal_strlit("/");
    reveal_strlit("application");
    reveal_strlit("Applications and Documents");
    reveal_strlit("audio");
    reveal_strlit("Audio");
    reveal_strlit("font");
    reveal_strlit("Fonts");
    reveal_strlit("image");
    reveal_strlit("Images");
    reveal_strlit("inode");
    reveal_strlit("Folders and Devices");
    reveal_strlit("message");
    reveal_strlit("Messages");
    reveal_strlit("model");
    reveal_strlit("3D Models");
    reveal_strlit("multipart");
    reveal_strlit("Multipart");
    reveal_strlit("text");
    reveal_strlit("Text");
    reveal_strlit("video");
    reveal_strlit("Video");
    reveal_strlit("x-scheme-handler");
    reveal_strlit("Links and Protocols");
    assert("Applications and Documents"@.len() == 26 && "Applications and Documents"@[0] == 'A');
    assert("Audio"@.len() == 5 && "Audio"@[0] == 'A');
    assert("Fonts"@.len() == 5 && "Fonts"@[0] == 'F');
    assert("Images"@.len() == 6 && "Images"@[0] == 'I');
    assert("Folders and Devices"@.len() == 19 && "Folders and Devices"@[0] == 'F');
    assert("Messages"@.len() == 8 && "Messages"@[0] == 'M');
    assert("3D Models"@.len() == 9 && "3D Models"@[0] == '3');
    assert("Multipart"@.len() == 9 && "Multipart"@[0] == 'M');
    assert("Text"@.len() == 4 && "Text"@[0] == 'T');
    assert("Video"@.len() == 5 && "Video"@[0] == 'V');
    assert("Links and Protocols"@.len() == 19 && "Links and Protocols"@[0] == 'L');
    assert("application"@.len() == 11 && "application"@[0] == 'a' && "application"@[1] == 'p');
    assert("audio"@.len() == 5 && "audio"@[0] == 'a' && "audio"@[1] == 'u');
    assert("font"@.len() == 4 && "font"@[0] == 'f' && "font"@[1] == 'o');
    assert("image"@.len() == 5 && "image"@[0] == 'i' && "image"@[1] == 'm');
    assert("inode"@.len() == 5 && "inode"@[0] == 'i' && "inode"@[1] == 'n');
    assert("message"@.len() == 7 && "message"@[0] == 'm' && "message"@[1] == 'e');
    assert("model"@.len() == 5 && "model"@[0] == 'm' && "model"@[1] == 'o');
    assert("multipart"@.len() == 9 && "multipart"@[0] == 'm' && "multipart"@[1] == 'u');
    assert("text"@.len() == 4 && "text"@[0] == 't' && "text"@[1] == 'e');
    assert("video"@.len() == 5 && "video"@[0] == 'v' && "video"@[1] == 'i');
    assert("x-scheme-handler"@.len() == 16 && "x-scheme-handler"@[0] == 'x' && "x-scheme-handler"@[1] == '-');
    lemma_group_decided_by_media_type("application"@, rest);
    assert(!exists|c: int| #[trigger] first_slash("application"@, c));
    lemma_group_decided_by_media_type("audio"@, rest);
    assert(!exists|c: int| #[trigger] first_slash("audio"@, c));
    lemma_group_decided_by_media_type("font"@, rest);
    assert(!exists|c: int| #[trigger] first_slash("font"@, c));
    lemma_group_decided_by_media_type("image"@, rest);
    assert(!exists|c: int| #[trigger] first_slash("image"@, c));
    lemma_group_decided_by_media_type("inode"@, rest);
    assert(!exists|c: int| #[trigger] first_slash("inode"@, c));
    lemma_group_decided_by_media_type("message"@, rest);
    assert(!exists|c: int| #[trigger] first_slash("message"@, c));
    lemma_group_decided_by_media_type("model"@, rest);
    assert(!exists|c: int| #[trigger] first_slash("model"@, c));
    lemma_group_decided_by_media_type("multipart"@, rest);
    assert(!exists|c: int| #[trigger] first_slash("multipart"@, c));
    lemma_group_decided_by_media_type("text"@, rest);
    assert(!exists|c: int| #[trigger] first_slash("text"@, c));
    lemma_group_decided_by_media_type("video"@, rest);
    assert(!exists|c: int| #[trigger] first_slash("video"@, c));
    lemma_group_decided_by_media_type("x-scheme-handler"@, rest);
    assert(!exists|c: int| #[trigger] first_slash("x-scheme-handler"@, c));
}

} // verus!
