//! What `mcospkg-info` tells about the program.
use vstd::prelude::*;

use crate::text::{concat2, concat3, owned, str_eq};

verus! {

/// One sentence about the program.
pub fn introduce() -> (s: String)
    ensures
        s@ == "Mcospkg, producted by a 13-year-old boy."@,
{
    owned("Mcospkg, producted by a 13-year-old boy.")
}

/// The license.
pub fn os_license() -> (s: String)
    ensures
        s@ == "Uses license GPL-3.0"@,
{
    owned("Uses license GPL-3.0")
}

/// Where the program's repository is.
pub fn repo_site() -> (s: String)
    ensures
        s@ == "https://github.com/zhangxuan2011/mcospkg"@,
{
    owned("https://github.com/zhangxuan2011/mcospkg")
}

/// The text shown for the information type `all`.
pub open spec fn all_info() -> Seq<char> {
    "Mcospkg, producted by a 13-year-old boy."@ + "\n\n"@ + "Uses license GPL-3.0"@
        + " in this program, Repository URLS is "@ + "https://github.com/zhangxuan2011/mcospkg"@
        + ";\n\nExecutable files are: \n\tmcospkg, \n\tmcospkg-mirror, \n\tmcospkg-info\n\n"@
}

/// The text for an information type, if it is known.
pub open spec fn info_text(info_type: Seq<char>) -> Option<Seq<char>> {
    if info_type == "all"@ {
        Some(all_info())
    } else if info_type == "os-license"@ {
        Some("Uses license GPL-3.0"@)
    } else if info_type == "repo-site"@ {
        Some("https://github.com/zhangxuan2011/mcospkg"@)
    } else if info_type == "usage"@ {
        Some(""@)
    } else if info_type == "introduce"@ {
        Some("Mcospkg, producted by a 13-year-old boy."@)
    } else {
        None
    }
}

/// What to show for a requested information type.
pub enum InfoReply {
    /// Show this text.
    Text(String),
    /// The type is unknown; the supported ones are to be listed.
    Unknown(String),
}

/// The text for an information type: `all`, `os-license`, `repo-site`,
/// `usage` (an empty text) or `introduce`; any other type is unknown.
pub fn info_reply(info_type: &str) -> (r: InfoReply)
    ensures
        match info_text(info_type@) {
            Some(t) => (r matches InfoReply::Text(x) && x@ == t),
            None => (r matches InfoReply::Unknown(x) && x@ == info_type@),
        },
{
    if str_eq(info_type, "all") {
        let a = concat3(introduce().as_str(), "\n\n", os_license().as_str());
        let b = concat3(
            a.as_str(),
            " in this program, Repository URLS is ",
            repo_site().as_str(),
        );
        let t = concat2(
            b.as_str(),
            ";\n\nExecutable files are: \n\tmcospkg, \n\tmcospkg-mirror, \n\tmcospkg-info\n\n",
        );
        InfoReply::Text(t)
    } else if str_eq(info_type, "os-license") {
        InfoReply::Text(os_license())
    } else if str_eq(info_type, "repo-site") {
        InfoReply::Text(repo_site())
    } else if str_eq(info_type, "usage") {
        InfoReply::Text(owned(""))
    } else if str_eq(info_type, "introduce") {
        InfoReply::Text(introduce())
    } else {
        InfoReply::Unknown(owned(info_type))
    }
}

} // verus!
