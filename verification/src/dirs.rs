//! The directories of the configuration and of the saved messages.
use vstd::prelude::*;

use crate::text::{chars_of, owned, push_all, push_char};

verus! {

/// The configuration directory and the download directory.
pub struct ColmsgProjectDirs {
    config_dir: String,
    download_dir: String,
}

/// `name` under `base`, with `separator` between them unless `base` already
/// ends with one.
pub open spec fn joined_path(base: Seq<char>, name: Seq<char>, separator: char) -> Seq<char> {
    if base.len() > 0 && base.last() == separator {
        base + name
    } else {
        base + seq![separator] + name
    }
}

fn join_path(base: &str, name: &str, separator: char) -> (r: String)
    ensures
        r@ == joined_path(base@, name@, separator),
{
    let cs = chars_of(base);
    let mut r = owned(base);
    if !(cs.len() > 0 && cs[cs.len() - 1] == separator) {
        push_char(&mut r, separator);
    }
    push_all(&mut r, name);
    r
}

impl ColmsgProjectDirs {
    pub closed spec fn spec_config_dir(&self) -> Seq<char> {
        self.config_dir@
    }

    pub closed spec fn spec_download_dir(&self) -> Seq<char> {
        self.download_dir@
    }

    /// The `colmsg` directories under the platform's configuration and
    /// download directories; none where the platform has not both.
    pub fn new(config_base: Option<String>, download_base: Option<String>, separator: char) -> (r: Option<ColmsgProjectDirs>)
        ensures
            (config_base is Some && download_base is Some) <==> r is Some,
            r matches Some(d) ==> d.spec_config_dir() == joined_path(config_base->0@, "colmsg"@, separator)
                && d.spec_download_dir() == joined_path(download_base->0@, "colmsg"@, separator),
    {
        match (config_base, download_base) {
            (Some(c), Some(d)) => Some(ColmsgProjectDirs {
                config_dir: join_path(c.as_str(), "colmsg", separator),
                download_dir: join_path(d.as_str(), "colmsg", separator),
            }),
            _ => None,
        }
    }

    pub fn config_dir(&self) -> (r: &str)
        ensures
            r@ == self.spec_config_dir(),
    {
        self.config_dir.as_str()
    }

    pub fn download_dir(&self) -> (r: &str)
        ensures
            r@ == self.spec_download_dir(),
    {
        self.download_dir.as_str()
    }
}

} // verus!
