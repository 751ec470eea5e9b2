//! The configuration file and the command line's values.
use vstd::prelude::*;

use crate::controller::Service;
use crate::errors::Error;
use crate::text::{all_ascii_digits, chars_of, digit_value, is_ascii_digit, owned, push_all,
    push_char, replace, replaced, same_text, string_of, trim, trimmed};
use crate::Kind;
use crate::message::saver::kind_of;

verus! {

// ----------------------------------------------------------------------------
// The configuration file
// ----------------------------------------------------------------------------

/// The pieces of a text between its line breaks (`str::split('\n')`).
pub open spec fn split_lines(s: Seq<char>) -> Seq<Seq<char>>
    decreases s.len(),
{
    if s.len() == 0 {
        seq![Seq::empty()]
    } else {
        let rest = split_lines(s.drop_last());
        if s.last() == '\n' {
            rest.push(Seq::empty())
        } else {
            rest.update(rest.len() - 1, rest.last().push(s.last()))
        }
    }
}

proof fn lemma_split_lines_nonempty(s: Seq<char>)
    ensures
        split_lines(s).len() >= 1,
    decreases s.len(),
{
    if s.len() > 0 {
        lemma_split_lines_nonempty(s.drop_last());
    }
}

/// What the shell-words crate's `split` makes of a line: its words, or
/// `None` where a quote is not closed.
pub uninterp spec fn shell_split(line: Seq<char>) -> Option<Seq<Seq<char>>>;

pub open spec fn words_view(v: Vec<String>) -> Seq<Seq<char>> {
    v@.map_values(|s: String| s@)
}

/// Splits a line into words as a shell does, with the shell-words crate's
/// `split`; the result is named by `shell_split`. The crate's only error,
/// `ParseError`, prints as "missing closing quote" (its `Display`), and that
/// text is what an error here holds.
#[verifier::external_body]
fn split_words(line: &str) -> (r: core::result::Result<Vec<String>, String>)
    ensures
        match r {
            Ok(v) => shell_split(line@) == Some(words_view(v)),
            Err(e) => shell_split(line@) is None && e@ == missing_quote_text(),
        },
{
    match shell_words::split(line) {
        Ok(words) => Ok(words),
        Err(e) => Err(e.to_string()),
    }
}

/// Whether a trimmed line holds arguments: it is not empty and not a comment.
pub open spec fn argument_line(line: Seq<char>) -> bool {
    line.len() > 0 && line[0] != '#'
}

/// The arguments of the configuration file's lines `0..k`: every line that
/// is not empty or a comment, trimmed and split as a shell does; `None` if a
/// line has a quote that is not closed.
pub open spec fn args_of_lines(lines: Seq<Seq<char>>) -> Option<Seq<Seq<char>>>
    decreases lines.len(),
{
    if lines.len() == 0 {
        Some(Seq::empty())
    } else {
        match args_of_lines(lines.drop_last()) {
            None => None,
            Some(before) => {
                let line = trimmed(lines.last());
                if !argument_line(line) {
                    Some(before)
                } else {
                    match shell_split(line) {
                        Some(words) => Some(before + words),
                        None => None,
                    }
                }
            },
        }
    }
}

/// Blank lines and comment lines (`#` first, once trimmed) of the
/// configuration file are ignored: inserting one anywhere leaves its
/// arguments, and whether it has an unclosed quote, as they were.
pub proof fn lemma_comment_lines_ignored(lines: Seq<Seq<char>>, k: int, comment: Seq<char>)
    requires
        0 <= k <= lines.len(),
        !argument_line(trimmed(comment)),
    ensures
        args_of_lines(lines.insert(k, comment)) == args_of_lines(lines),
    decreases lines.len(),
{
    let with = lines.insert(k, comment);
    if k == lines.len() {
        assert(with.drop_last() =~= lines);
        assert(with.last() == comment);
    } else {
        lemma_comment_lines_ignored(lines.drop_last(), k, comment);
        assert(with.drop_last() =~= lines.drop_last().insert(k, comment));
        assert(with.last() == lines.last());
    }
}

pub open spec fn missing_quote_text() -> Seq<char> {
    "missing closing quote"@
}

/// The arguments that a configuration file's content holds (see
/// `args_of_lines`); a line with a quote that is not closed is an error.
pub fn get_args_from_str(content: &str) -> (r: core::result::Result<Vec<String>, Error>)
    ensures
        match args_of_lines(split_lines(content@)) {
            Some(args) => r is Ok && words_view(r->Ok_0) == args,
            None => r is Err && r->Err_0 is ShellWordsParseError && r->Err_0.text()
                == missing_quote_text(),
        },
{
    let cs = chars_of(content);
    let n = cs.len();
    let mut args: Vec<String> = Vec::new();
    let mut failed: Option<String> = None;
    let mut line: Vec<char> = Vec::new();
    // `done` lines have been read; `line` is the one being read.
    let ghost mut done: Seq<Seq<char>> = Seq::empty();
    proof {
        assert(cs@.take(0) =~= Seq::<char>::empty());
    }
    let mut i: usize = 0;
    while i < n
        invariant
            n == cs.len(),
            cs@ == content@,
            i <= n,
            split_lines(cs@.take(i as int)) == done.push(line@),
            args_of_lines(done) == (if failed is Some { None } else { Some(words_view(args)) }),
            failed matches Some(t) ==> t@ == missing_quote_text(),
        decreases n - i,
    {
        let ghost t = cs@.take(i + 1);
        assert(t.drop_last() =~= cs@.take(i as int));
        proof {
            lemma_split_lines_nonempty(cs@.take(i as int));
        }
        if cs[i] != '\n' {
            line.push(cs[i]);
            proof {
                assert(done.push(line@.drop_last()).update(done.len() as int, line@) =~= done.push(line@));
            }
        } else {
            end_line(&line, &mut args, &mut failed, Ghost(done));
            proof {
                done = done.push(line@);
            }
            line = Vec::new();
            assert(line@ =~= Seq::<char>::empty());
        }
        i = i + 1;
    }
    end_line(&line, &mut args, &mut failed, Ghost(done));
    proof {
        assert(cs@.take(n as int) =~= cs@);
        done = done.push(line@);
    }
    if let Some(text) = failed {
        Err(Error::ShellWordsParseError(text))
    } else {
        Ok(args)
    }
}

/// Reads one line of the configuration file: `done` lines came before it.
fn end_line(line: &Vec<char>, args: &mut Vec<String>, failed: &mut Option<String>, Ghost(done): Ghost<Seq<Seq<char>>>)
    requires
        args_of_lines(done) == (if *old(failed) is Some { None } else { Some(words_view(*old(args))) }),
        *old(failed) matches Some(t) ==> t@ == missing_quote_text(),
    ensures
        args_of_lines(done.push(line@)) == (if *final(failed) is Some { None } else { Some(words_view(*final(args))) }),
        *final(failed) matches Some(t) ==> t@ == missing_quote_text(),
{
    let ghost lines = done.push(line@);
    assert(lines.drop_last() =~= done);
    assert(lines.last() == line@);
    if failed.is_some() {
        return;
    }
    let text = string_of(line);
    let t = trim(text.as_str());
    let is_args = t.unicode_len() > 0 && t.as_str().get_char(0) != '#';
    if is_args {
        match split_words(t.as_str()) {
            Ok(words) => {
                let ghost before = words_view(*args);
                let m = words.len();
                for j in 0..m
                    invariant
                        m == words.len(),
                        words_view(*args) == before + words_view(words).take(j as int),
                {
                    let ghost b = words_view(*args);
                    args.push(words[j].clone());
                    assert(words_view(*args) =~= b.push(words@[j as int]@));
                    assert(words_view(words).take(j + 1) =~= words_view(words).take(j as int).push(words@[j as int]@));
                }
                assert(words_view(words).take(m as int) =~= words_view(words));
            },
            Err(e) => {
                *failed = Some(e);
            },
        }
    }
}

// ----------------------------------------------------------------------------
// The command line's values
// ----------------------------------------------------------------------------

/// The file that caches a service's access token: its token option's name
/// with `refresh_token` turned into `access_token`.
pub open spec fn token_file_text(service: Service) -> Seq<char> {
    replaced(service.spec_token_argument(), "refresh_token"@, "access_token"@)
}

pub fn token_file_name(service: Service) -> (r: String)
    ensures
        r@ == token_file_text(service),
{
    proof {
        reveal_strlit("refresh_token");
    }
    replace(service.token_argument(), "refresh_token", "access_token")
}

/// The kind that a `--kind` value names; the values that the command line
/// accepts are the five kinds' names.
pub open spec fn kind_named(value: Seq<char>) -> Kind {
    if value == "text"@ {
        Kind::Text
    } else if value == "picture"@ {
        Kind::Picture
    } else if value == "video"@ {
        Kind::Video
    } else if value == "voice"@ {
        Kind::Voice
    } else {
        Kind::Link
    }
}

/// Each value that `--kind` accepts names the kind of the same name: the
/// kind that messages of that type are saved as.
pub proof fn lemma_kind_values_name_their_kind(value: Seq<char>)
    ensures
        kind_named("text"@) == Kind::Text,
        kind_named("picture"@) == Kind::Picture,
        kind_named("video"@) == Kind::Video,
        kind_named("voice"@) == Kind::Voice,
        kind_named("link"@) == Kind::Link,
        kind_of(value) matches Some((k, _)) ==> kind_named(value) == k,
{
    reveal_strlit("text");
    reveal_strlit("picture");
    reveal_strlit("video");
    reveal_strlit("voice");
    reveal_strlit("link");
    assert("picture"@ != "text"@) by { assert("picture"@.len() != "text"@.len()); }
    assert("video"@ != "text"@) by { assert("video"@.len() != "text"@.len()); }
    assert("video"@ != "picture"@) by { assert("video"@.len() != "picture"@.len()); }
    assert("voice"@ != "text"@) by { assert("voice"@.len() != "text"@.len()); }
    assert("voice"@ != "picture"@) by { assert("voice"@.len() != "picture"@.len()); }
    assert("voice"@ != "video"@) by { assert("voice"@[2] != "video"@[2]); }
    assert("link"@ != "text"@) by { assert("link"@[0] != "text"@[0]); }
    assert("link"@ != "picture"@) by { assert("link"@.len() != "picture"@.len()); }
    assert("link"@ != "video"@) by { assert("link"@.len() != "video"@.len()); }
    assert("link"@ != "voice"@) by { assert("link"@.len() != "voice"@.len()); }
}

pub open spec fn all_kinds() -> Seq<Kind> {
    seq![Kind::Text, Kind::Picture, Kind::Video, Kind::Voice, Kind::Link]
}

/// The kinds to save: those named by `--kind`, or every kind.
pub fn kinds_from(values: &Option<Vec<String>>) -> (r: Vec<Kind>)
    ensures
        match values {
            Some(v) => r@ == v@.map_values(|s: String| kind_named(s@)),
            None => r@ == all_kinds(),
        },
        values matches Some(v) ==> forall|i: int|
            0 <= i < v@.len() ==> (kind_of(#[trigger] v@[i]@) matches Some((k, _)) ==> r@[i] == k),
{
    match values {
        Some(v) => {
            let mut r: Vec<Kind> = Vec::new();
            let n = v.len();
            for i in 0..n
                invariant
                    n == v.len(),
                    r@ == v@.take(i as int).map_values(|s: String| kind_named(s@)),
            {
                let s = v[i].as_str();
                let k = if same_text(s, "text") {
                    Kind::Text
                } else if same_text(s, "picture") {
                    Kind::Picture
                } else if same_text(s, "video") {
                    Kind::Video
                } else if same_text(s, "voice") {
                    Kind::Voice
                } else {
                    Kind::Link
                };
                r.push(k);
                assert(r@ =~= v@.take(i + 1).map_values(|s: String| kind_named(s@)));
            }
            assert(v@.take(n as int) =~= v@);
            proof {
                assert forall|x: Seq<char>| #[trigger] kind_of(x) is Some implies kind_named(x) == (kind_of(x)->0).0 by {
                    lemma_kind_values_name_their_kind(x);
                }
            }
            r
        },
        None => {
            let mut r: Vec<Kind> = Vec::new();
            r.push(Kind::Text);
            r.push(Kind::Picture);
            r.push(Kind::Video);
            r.push(Kind::Voice);
            r.push(Kind::Link);
            assert(r@ =~= all_kinds());
            r
        },
    }
}

/// The member names asked for with `--name`, trimmed (`str::trim`).
pub fn names_from(values: &Option<Vec<String>>) -> (r: Vec<String>)
    ensures
        match values {
            Some(v) => r@.map_values(|s: String| s@) == v@.map_values(|s: String| trimmed(s@)),
            None => r@.len() == 0,
        },
{
    match values {
        Some(v) => {
            let mut r: Vec<String> = Vec::new();
            let n = v.len();
            for i in 0..n
                invariant
                    n == v.len(),
                    r@.map_values(|s: String| s@) == v@.take(i as int).map_values(|s: String| trimmed(s@)),
            {
                let ghost before = r@;
                r.push(trim(v[i].as_str()));
                assert(r@.map_values(|s: String| s@) =~= before.map_values(|s: String| s@).push(trimmed(v@[i as int]@)));
                assert(v@.take(i + 1).map_values(|s: String| trimmed(s@)) =~= v@.take(i as int).map_values(|s: String| trimmed(s@)).push(trimmed(v@[i as int]@)));
            }
            assert(v@.take(n as int) =~= v@);
            r
        },
        None => Vec::new(),
    }
}

/// What `str::parse::<usize>` reads from the characters from `i` on, after
/// `acc`: the number, or which error it reports (1: an invalid digit, 2: too
/// large).
pub open spec fn scan_usize(s: Seq<char>, i: int, acc: nat) -> core::result::Result<nat, int>
    decreases s.len() - i,
{
    if i < 0 || i >= s.len() {
        Ok(acc)
    } else if !is_ascii_digit(s[i]) {
        Err(1)
    } else if acc * 10 + digit_value(s[i]) > usize::MAX {
        Err(2)
    } else {
        scan_usize(s, i + 1, acc * 10 + digit_value(s[i]))
    }
}

/// What `str::parse::<usize>` reads: the number, or the text of its error.
pub open spec fn parsed_usize(s: Seq<char>) -> core::result::Result<nat, Seq<char>> {
    if s.len() == 0 {
        Err("cannot parse integer from empty string"@)
    } else if s.len() == 1 && (s[0] == '+' || s[0] == '-') {
        Err("invalid digit found in string"@)
    } else {
        match scan_usize(s, if s[0] == '+' { 1 } else { 0 }, 0) {
            Ok(n) => Ok(n),
            Err(k) => if k == 1 {
                Err("invalid digit found in string"@)
            } else {
                Err("number too large to fit in target type"@)
            },
        }
    }
}

fn parse_usize(s: &str) -> (r: core::result::Result<usize, String>)
    ensures
        match parsed_usize(s@) {
            Ok(n) => r is Ok && r->Ok_0 == n,
            Err(e) => r is Err && r->Err_0@ == e,
        },
{
    let cs = chars_of(s);
    if cs.len() == 0 {
        return Err(owned("cannot parse integer from empty string"));
    }
    if cs.len() == 1 && (cs[0] == '+' || cs[0] == '-') {
        return Err(owned("invalid digit found in string"));
    }
    let start: usize = if cs[0] == '+' { 1 } else { 0 };
    let mut acc: usize = 0;
    let mut i = start;
    while i < cs.len()
        invariant
            cs@ == s@,
            s@.len() > 0,
            !(s@.len() == 1 && (s@[0] == '+' || s@[0] == '-')),
            start == (if s@[0] == '+' { 1usize } else { 0usize }),
            start <= i <= cs.len(),
            scan_usize(s@, start as int, 0) == scan_usize(s@, i as int, acc as nat),
        decreases cs.len() - i,
    {
        let c = cs[i];
        if !('0' <= c && c <= '9') {
            return Err(owned("invalid digit found in string"));
        }
        let d: usize = (c as u32 - '0' as u32) as usize;
        assert(d == digit_value(c)) by {
            assert('0' as u32 == 48);
        }
        if acc > (usize::MAX - d) / 10 {
            assert(acc * 10 + d > usize::MAX) by (nonlinear_arith)
                requires
                    acc > (usize::MAX - d) / 10,
                    d < 10,
            ;
            return Err(owned("number too large to fit in target type"));
        }
        assert(acc * 10 + d <= usize::MAX) by (nonlinear_arith)
            requires
                acc <= (usize::MAX - d) / 10,
                d < 10,
        ;
        acc = acc * 10 + d;
        i = i + 1;
    }
    Ok(acc)
}

pub open spec fn default_jobs_text() -> Seq<char> {
    "4"@
}

/// How many members are saved at once: `--jobs`, else 4. A value that is not
/// a number is an error; zero is refused when saving starts.
pub fn parse_jobs(value: Option<&str>) -> (r: core::result::Result<usize, Error>)
    ensures
        match parsed_usize(match value { Some(v) => v@, None => default_jobs_text() }) {
            Ok(n) => r is Ok && r->Ok_0 == n,
            Err(e) => r is Err && r->Err_0 is Msg && r->Err_0.text() == "invalid --jobs value: "@ + e,
        },
{
    let text = match value {
        Some(v) => v,
        None => "4",
    };
    match parse_usize(text) {
        Ok(n) => Ok(n),
        Err(e) => {
            let mut m = owned("invalid --jobs value: ");
            push_all(&mut m, e.as_str());
            Err(Error::Msg(m))
        },
    }
}

} // verus!
