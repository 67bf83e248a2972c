//! The label of the terminal pane a session runs in: the launch directory,
//! with the home directory abbreviated to `~`.
use vstd::prelude::*;
use crate::text::{char_vec, opt_view, string_of};

verus! {

/// The rest of `path` after its leading components `base`
/// (`Path::strip_prefix`), when `base` is a prefix of `path` component by
/// component.
pub uninterp spec fn path_strip_prefix(path: Seq<char>, base: Seq<char>) -> Option<Seq<char>>;

/// The rest of `path` after its leading components `base`: strips them with
/// `std::path::Path::strip_prefix` and renders the remainder with
/// `Path::display`. The result depends on the two strings alone.
#[verifier::external_body]
fn strip_path_prefix(path: &str, base: &str) -> (r: Option<String>)
    ensures
        opt_view(r) == path_strip_prefix(path@, base@),
{
    match std::path::Path::new(path).strip_prefix(base) {
        Ok(rest) => Some(rest.display().to_string()),
        Err(_) => None,
    }
}

/// The label for a launch directory `cwd`, given what `strip_prefix` left of
/// it after the home directory (if anything).
pub open spec fn label_of(cwd: Seq<char>, rest: Option<Seq<char>>) -> Seq<char> {
    match rest {
        Some(r) => if r.len() == 0 {
            "~"@
        } else {
            "~/"@ + r
        },
        None => cwd,
    }
}

/// The label for `cwd` when the home directory is `home` (if known).
pub open spec fn pane_label(cwd: Seq<char>, home: Option<Seq<char>>) -> Seq<char> {
    match home {
        Some(h) => label_of(cwd, path_strip_prefix(cwd, h)),
        None => cwd,
    }
}

/// The label for `cwd`, given the remainder `rest` of it after the home
/// directory, or `None` when the home directory is unknown or not a prefix.
pub fn label_from(cwd: &str, rest: Option<String>) -> (r: String)
    ensures
        r@ == label_of(cwd@, opt_view(rest)),
{
    match rest {
        Some(rest) => {
            if rest.as_str().is_empty() {
                String::from_str("~")
            } else {
                let mut r = String::from_str("~/");
                r.append(rest.as_str());
                r
            }
        },
        None => string_of(&char_vec(cwd)),
    }
}

/// The absolute launch path, with $HOME abbreviated to `~` when it is a
/// prefix (`/home/me/src/x` -> `~/src/x`, `/home/me` -> `~`).
pub fn display_name(cwd: &str, home: Option<&str>) -> (r: String)
    ensures
        r@ == pane_label(
            cwd@,
            match home {
                Some(h) => Some(h@),
                None => None,
            },
        ),
{
    match home {
        Some(h) => label_from(cwd, strip_path_prefix(cwd, h)),
        None => label_from(cwd, None),
    }
}

} // verus!
