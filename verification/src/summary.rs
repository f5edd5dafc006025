use vstd::prelude::*;

use crate::text::dec_str;
use crate::text::fmt_usize;

verus! {

/// The final summary line of the dispatcher: chapter count, the singular or
/// plural noun, the elapsed seconds as already formatted text, and the
/// destination path with a trailing slash.
pub open spec fn summary_line_spec(n: nat, seconds: Seq<char>, path: Seq<char>) -> Seq<char> {
    "Downloaded "@ + dec_str(n) + " "@ + (if n == 1 {
        "chapter"@
    } else {
        "chapters"@
    }) + " in "@ + seconds + " seconds to "@ + path + "/"@
}

/// The noun of the summary: the singular `chapter` for exactly one chapter,
/// the plural `chapters` otherwise.
pub fn chapter_noun(n: usize) -> (r: &'static str)
    ensures
        n == 1 ==> r@ == "chapter"@,
        n != 1 ==> r@ == "chapters"@,
{
    if n == 1 {
        "chapter"
    } else {
        "chapters"
    }
}

/// Renders the summary the dispatcher reports when every scheduled chapter
/// has been accounted for, exactly as [`summary_line_spec`] describes.
pub fn summary_line(num_chapters: usize, seconds: &str, path: &str) -> (r: String)
    ensures
        r@ == summary_line_spec(num_chapters as nat, seconds@, path@),
{
    let mut s = String::from_str("Downloaded ");
    let num = fmt_usize(num_chapters);
    s.append(num.as_str());
    s.append(" ");
    s.append(chapter_noun(num_chapters));
    s.append(" in ");
    s.append(seconds);
    s.append(" seconds to ");
    s.append(path);
    s.append("/");
    proof {
        assert(s@ =~= summary_line_spec(num_chapters as nat, seconds@, path@));
    }
    s
}

} // verus!
