//! Where the program keeps its data.

use crate::domain::recipe::opt_text;
use crate::text::texts;
use vstd::prelude::*;

verus! {

/// The parts of the path of the data directory: below the home directory if there is one, or else
/// below the directory for application data, or else the current directory.
pub open spec fn data_dir_parts(home: Option<Seq<char>>, appdata: Option<Seq<char>>) -> Seq<
    Seq<char>,
> {
    match (home, appdata) {
        (Some(h), _) => seq![h, ".local"@, "share"@, "stoclove"@],
        (None, Some(a)) => seq![a, "stoclove"@],
        (None, None) => seq!["."@],
    }
}

/// The parts of the path of the data directory, where `home` and `appdata` are the directories
/// that the system names.
pub fn dirs_path(home: Option<String>, appdata: Option<String>) -> (r: Vec<String>)
    ensures
        texts(r@) == data_dir_parts(opt_text(home), opt_text(appdata)),
{
    let mut parts: Vec<String> = Vec::new();
    match home {
        Some(h) => {
            parts.push(h);
            parts.push(".local".to_owned());
            parts.push("share".to_owned());
            parts.push("stoclove".to_owned());
        },
        None => match appdata {
            Some(a) => {
                parts.push(a);
                parts.push("stoclove".to_owned());
            },
            None => {
                parts.push(".".to_owned());
            },
        },
    }
    assert(texts(parts@) =~= data_dir_parts(opt_text(home), opt_text(appdata)));
    parts
}

/// The home directory comes first, and the directory for application data only without one.
pub proof fn law_the_home_directory_comes_first(home: Seq<char>, appdata: Option<Seq<char>>)
    ensures
        data_dir_parts(Some(home), appdata) == data_dir_parts(Some(home), None),
        data_dir_parts(Some(home), appdata) == seq![home, ".local"@, "share"@, "stoclove"@],
        appdata is Some ==> data_dir_parts(None, appdata) == seq![appdata->0, "stoclove"@],
        data_dir_parts(None, None) == seq!["."@],
{
}

} // verus!
