//! Highlighting of the navigation link of the page being shown.

use vstd::prelude::*;
use crate::text::{chars_are, chars_of, has_prefix, starts_with};

verus! {

broadcast use vstd::string::group_string_axioms;

/// The style of the link to the page being shown.
pub const ACTIVE_LINK_STYLE: &'static str = "color: #55aaff; text-decoration: none;";

/// The style of the other links.
pub const IDLE_LINK_STYLE: &'static str = "color: #00ff00; text-decoration: none;";

/// The link to `link` is highlighted while the page at `current` is shown:
/// the home link also for the root page, and every link for the pages
/// whose path starts with its own.
pub open spec fn link_is_active(link: Seq<char>, current: Seq<char>) -> bool {
    if link == "/home"@ && (current == "/"@ || current == "/home"@) {
        true
    } else {
        has_prefix(current, link)
    }
}

/// Whether the link to `link` is highlighted while the page at `current`
/// is shown.
pub fn is_active(link: &str, current: &str) -> (res: bool)
    ensures
        res == link_is_active(link@, current@),
{
    let l = chars_of(link);
    let p = chars_of(current);
    if chars_are(l.as_slice(), "/home") && (chars_are(p.as_slice(), "/") || chars_are(
        p.as_slice(),
        "/home",
    )) {
        true
    } else {
        starts_with(p.as_slice(), l.as_slice())
    }
}

/// The style of the link to `link` while the page at `current` is shown.
pub fn link_style(link: &str, current: &str) -> (res: &'static str)
    ensures
        res@ == (if link_is_active(link@, current@) {
            ACTIVE_LINK_STYLE@
        } else {
            IDLE_LINK_STYLE@
        }),
{
    if is_active(link, current) {
        ACTIVE_LINK_STYLE
    } else {
        IDLE_LINK_STYLE
    }
}

} // verus!
