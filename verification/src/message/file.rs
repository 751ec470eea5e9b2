//! What saving one message writes: file names and file contents.
use vstd::prelude::*;

use crate::datetime::{api_format, compact_text, chrono_format, chrono_parse, compact_format, parse_datetime,
    format_datetime, api_format_str, compact_format_str};
use crate::errors::Error;
use crate::text::{decimal, occurs_at, owned, push_all, push_char, push_decimal, replace, replaced,
    lemma_replaced_every_occurrence, lemma_replaced_leaves_no_pattern};

verus! {

/// The extension that `PathBuf::set_extension` gives a saved file.
#[derive(Clone, Copy, PartialEq, Eq, Structural, Debug)]
pub enum Extension {
    Txt,
    Jpg,
    Mp4,
}

impl Extension {
    pub open spec fn text(self) -> Seq<char> {
        match self {
            Extension::Txt => seq!['t', 'x', 't'],
            Extension::Jpg => seq!['j', 'p', 'g'],
            Extension::Mp4 => seq!['m', 'p', '4'],
        }
    }

    pub fn as_str(&self) -> (r: &'static str)
        ensures
            r@ == self.text(),
    {
        match self {
            Extension::Txt => {
                proof {
                    reveal_strlit("txt");
                }
                "txt"
            },
            Extension::Jpg => {
                proof {
                    reveal_strlit("jpg");
                }
                "jpg"
            },
            Extension::Mp4 => {
                proof {
                    reveal_strlit("mp4");
                }
                "mp4"
            },
        }
    }
}

/// What goes into a saved file.
pub enum FileContent {
    /// This text, written as it is.
    Text(String),
    /// What a GET of this URL answers.
    Download(String),
}

/// One file to write in the member's directory.
pub struct FileAction {
    pub file_name: String,
    pub extension: Extension,
    pub content: FileContent,
}

/// The view of a file action: name, extension, and either the text or the URL.
pub struct FileActionView {
    pub file_name: Seq<char>,
    pub extension: Extension,
    pub is_download: bool,
    pub body: Seq<char>,
}

impl View for FileAction {
    type V = FileActionView;

    open spec fn view(&self) -> FileActionView {
        FileActionView {
            file_name: self.file_name@,
            extension: self.extension,
            is_download: self.content is Download,
            body: match self.content {
                FileContent::Text(t) => t@,
                FileContent::Download(u) => u@,
            },
        }
    }
}

pub open spec fn actions_view(actions: Seq<FileAction>) -> Seq<FileActionView> {
    actions.map_values(|a: FileAction| a@)
}

/// The literal `\r\n` (backslash, r, backslash, n) that message texts carry
/// in place of line breaks.
pub open spec fn escaped_line_break() -> Seq<char> {
    seq!['\\', 'r', '\\', 'n']
}

/// The content of a saved text: the escaped line breaks turned into real
/// ones, and a final line break.
pub open spec fn text_file_content(talk: Seq<char>) -> Seq<char> {
    replaced(talk, escaped_line_break(), seq!['\n']) + seq!['\n']
}

/// A saved text holds no literal `\r\n` any more: every one became a line
/// break, and an escape at the start of a text becomes a line break before
/// the rest of the text is turned the same way.
pub proof fn lemma_saved_text_has_no_escape(talk: Seq<char>, rest: Seq<char>)
    ensures
        forall|k: int| !occurs_at(#[trigger] text_file_content(talk), escaped_line_break(), k),
        text_file_content(escaped_line_break() + rest) == seq!['\n'] + text_file_content(rest),
{
    let pat = escaped_line_break();
    let nl = seq!['\n'];
    lemma_replaced_leaves_no_pattern(talk, pat, nl);
    let body = replaced(talk, pat, nl);
    let full = text_file_content(talk);
    assert(full == body + nl);
    assert forall|k: int| !occurs_at(#[trigger] text_file_content(talk), pat, k) by {
        if occurs_at(full, pat, k) {
            if k + 4 <= body.len() {
                assert(full.subrange(k, k + 4) =~= body.subrange(k, k + 4));
                assert(occurs_at(body, pat, k));
            } else {
                let w = full.subrange(k, k + 4);
                assert(w[body.len() - k] == full[body.len() as int]);
                assert(full[body.len() as int] == '\n');
            }
        }
    }
    lemma_replaced_every_occurrence(rest, pat, nl, ' ');
    assert(nl + replaced(rest, pat, nl) + nl =~= nl + (replaced(rest, pat, nl) + nl));
}

/// The text file written for a message text, if there is one.
pub open spec fn text_actions(file_name: Seq<char>, talk: Option<Seq<char>>) -> Seq<FileActionView> {
    match talk {
        Some(t) => seq![
            FileActionView {
                file_name: file_name,
                extension: Extension::Txt,
                is_download: false,
                body: text_file_content(t),
            },
        ],
        None => Seq::empty(),
    }
}

/// The media file downloaded for a message, if it has a URL.
pub open spec fn media_actions(file_name: Seq<char>, url: Option<Seq<char>>, ext: Extension) -> Seq<
    FileActionView,
> {
    match url {
        Some(u) => seq![
            FileActionView { file_name: file_name, extension: ext, is_download: true, body: u },
        ],
        None => Seq::empty(),
    }
}

pub open spec fn opt_view(o: Option<String>) -> Option<Seq<char>> {
    match o {
        Some(s) => Some(s@),
        None => None,
    }
}

fn text_action(file_name: &String, talk: &String) -> (r: FileAction)
    ensures
        r@ == text_actions(file_name@, Some(talk@))[0],
{
    let backslash_rn = "\\r\\n";
    let newline = "\n";
    proof {
        reveal_strlit("\\r\\n");
        reveal_strlit("\n");
    }
    assert(backslash_rn@ =~= escaped_line_break());
    assert(newline@ =~= seq!['\n']);
    let mut content = replace(talk.as_str(), backslash_rn, newline);
    push_char(&mut content, '\n');
    assert(content@ =~= text_file_content(talk@));
    let r = FileAction {
        file_name: file_name.clone(),
        extension: Extension::Txt,
        content: FileContent::Text(content),
    };
    assert(r@.body == text_file_content(talk@));
    r
}

/// A message that can be saved. `save` answers the files to write in the
/// member's directory, in the order in which they are written; the caller
/// writes them.
pub trait SaveToFile {
    fn save(&self) -> Vec<FileAction>;
}

/// A text or link message.
pub struct Text {
    pub file_name: String,
    pub talk: Option<String>,
}

impl Text {
    pub fn new(file_name: String, talk: Option<String>) -> (r: Text)
        ensures
            r.file_name == file_name,
            r.talk == talk,
    {
        Text { file_name, talk }
    }
}

impl SaveToFile for Text {
    /// Saving writes the text, if there is one.
    fn save(&self) -> (r: Vec<FileAction>)
        ensures
            actions_view(r@) == text_actions(self.file_name@, opt_view(self.talk)),
    {
        save_text(&self.file_name, &self.talk)
    }
}

/// A picture message: the picture and its caption.
pub struct Picture {
    pub file_name: String,
    pub talk: Option<String>,
    pub file_url: Option<String>,
}

impl Picture {
    pub fn new(file_name: String, talk: Option<String>, file_url: Option<String>) -> (r: Picture)
        ensures
            r.file_name == file_name,
            r.talk == talk,
            r.file_url == file_url,
    {
        Picture { file_name, talk, file_url }
    }
}

impl SaveToFile for Picture {
    /// Saving downloads the picture as `.jpg`, then writes the caption.
    fn save(&self) -> (r: Vec<FileAction>)
        ensures
            actions_view(r@) == media_actions(self.file_name@, opt_view(self.file_url), Extension::Jpg)
                + text_actions(self.file_name@, opt_view(self.talk)),
    {
        let mut r = save_media(&self.file_name, &self.file_url, Extension::Jpg);
        let mut t = save_text(&self.file_name, &self.talk);
        let ghost a = actions_view(r@);
        let ghost b = actions_view(t@);
        r.append(&mut t);
        assert(actions_view(r@) =~= a + b);
        assert(actions_view(r@) =~= media_actions(
            self.file_name@,
            opt_view(self.file_url),
            Extension::Jpg,
        ) + text_actions(self.file_name@, opt_view(self.talk)));
        r
    }
}

/// What saving a message text writes: the text file, where there is a text.
pub fn save_text(file_name: &String, talk: &Option<String>) -> (r: Vec<FileAction>)
    ensures
        actions_view(r@) == text_actions(file_name@, opt_view(*talk)),
{
    let mut r: Vec<FileAction> = Vec::new();
    match talk {
        Some(t) => {
            r.push(text_action(file_name, t));
        },
        None => {},
    }
    assert(actions_view(r@) =~= text_actions(file_name@, opt_view(*talk)));
    r
}

/// What saving a message's media writes: the download, where there is a URL.
pub fn save_media(file_name: &String, file_url: &Option<String>, ext: Extension) -> (r: Vec<FileAction>)
    ensures
        actions_view(r@) == media_actions(file_name@, opt_view(*file_url), ext),
{
    let mut r: Vec<FileAction> = Vec::new();
    match file_url {
        Some(u) => {
            r.push(
                FileAction {
                    file_name: file_name.clone(),
                    extension: ext,
                    content: FileContent::Download(u.clone()),
                },
            );
        },
        None => {},
    }
    assert(actions_view(r@) =~= media_actions(file_name@, opt_view(*file_url), ext));
    r
}

/// A video message.
pub struct Video {
    pub file_name: String,
    pub file_url: Option<String>,
}

impl Video {
    pub fn new(file_name: String, file_url: Option<String>) -> (r: Video)
        ensures
            r.file_name == file_name,
            r.file_url == file_url,
    {
        Video { file_name, file_url }
    }
}

impl SaveToFile for Video {
    /// Saving downloads the video as `.mp4`.
    fn save(&self) -> (r: Vec<FileAction>)
        ensures
            actions_view(r@) == media_actions(self.file_name@, opt_view(self.file_url), Extension::Mp4),
    {
        save_media(&self.file_name, &self.file_url, Extension::Mp4)
    }
}

/// A voice message.
pub struct Voice {
    pub file_name: String,
    pub file_url: Option<String>,
}

impl Voice {
    pub fn new(file_name: String, file_url: Option<String>) -> (r: Voice)
        ensures
            r.file_name == file_name,
            r.file_url == file_url,
    {
        Voice { file_name, file_url }
    }
}

impl SaveToFile for Voice {
    /// Saving downloads the recording, which is saved as `.mp4` too.
    fn save(&self) -> (r: Vec<FileAction>)
        ensures
            actions_view(r@) == media_actions(self.file_name@, opt_view(self.file_url), Extension::Mp4),
    {
        save_media(&self.file_name, &self.file_url, Extension::Mp4)
    }
}

/// A saved file's name before its extension: `<id>_<kind>_<date>_<poster>`.
pub open spec fn file_stem(id: u32, media: u32, compact_date: Seq<char>, poster: Seq<char>) -> Seq<
    char,
> {
    decimal(id as nat) + seq!['_'] + decimal(media as nat) + seq!['_'] + compact_date + seq!['_']
        + poster
}

/// A saved file's name before its extension, from the message's compact
/// date (see `file_stem`).
pub fn stem_of(seq_id: u32, media: u32, compact_date: &str, poster_name: &str) -> (r: String)
    ensures
        r@ == file_stem(seq_id, media, compact_date@, poster_name@),
{
    let mut name = String::new();
    push_decimal(&mut name, seq_id as u64);
    push_char(&mut name, '_');
    push_decimal(&mut name, media as u64);
    push_char(&mut name, '_');
    push_all(&mut name, compact_date);
    push_char(&mut name, '_');
    push_all(&mut name, poster_name);
    assert(name@ =~= file_stem(seq_id, media, compact_date@, poster_name@));
    name
}

/// The message for a date that cannot be read.
pub open spec fn date_error_text(date: Seq<char>) -> Seq<char> {
    "Parse error. date: "@ + date
}

/// The name of a message's files: its id, its kind number, its API date
/// (`updated_at`) in the compact format, and who posted it.
pub fn file_name(seq_id: u32, media: u32, date: &str, poster_name: &str) -> (r: core::result::Result<String, Error>)
    ensures
        match chrono_parse(date@, api_format()) {
            Ok(dt) => r is Ok && r->Ok_0@ == file_stem(
                seq_id,
                media,
                chrono_format(dt, compact_format()),
                poster_name@,
            ),
            Err(_) => r is Err && r->Err_0 is Msg && r->Err_0.text() == date_error_text(date@),
        },
        chrono_parse(date@, api_format()) matches Ok(dt) ==> dt.valid() && (dt.nanosecond == 0
            || dt.nanosecond == 1_000_000_000) && (dt.plain() ==> chrono_format(dt, compact_format())
            == compact_text(dt)),
{
    match parse_datetime(date, api_format_str()) {
        Ok(dt) => {
            let compact = format_datetime(&dt, compact_format_str());
            Ok(stem_of(seq_id, media, compact.as_str(), poster_name))
        },
        Err(_) => {
            let mut m = owned("Parse error. date: ");
            push_all(&mut m, date);
            Err(Error::Msg(m))
        },
    }
}

} // verus!
