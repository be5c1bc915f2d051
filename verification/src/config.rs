//! The list of subscription sources.
use vstd::prelude::*;
use crate::text::{eq_ignore_ascii_case, eq_ignore_ascii_case_chars, to_chars};

verus! {

/// The sources to sync, in the order they are listed.
#[derive(Debug, Clone)]
pub struct Config {
    pub source: Vec<Source>,
}

/// One subscription source.
///
/// `kind` is `direct` (the subscription lives at `url`) or `github_readme`
/// (the subscription URL is the last match of `url_pattern` in the README of
/// `repo` on `branch`); `format` is `v2ray` or `clash`.
#[derive(Debug, Clone)]
pub struct Source {
    pub name: String,
    pub kind: String,
    pub enabled: bool,
    pub format: String,
    pub url: Option<String>,
    pub repo: Option<String>,
    pub branch: String,
    pub url_pattern: Option<String>,
}

/// A source is enabled unless the list says otherwise.
pub fn default_enabled() -> (r: bool)
    ensures
        r,
{
    true
}

/// The branch read when the list names none.
pub fn default_branch() -> (r: String)
    ensures
        r@ == "main"@,
{
    "main".to_owned()
}

impl Source {
    /// Whether the format is `v2ray`, ignoring ASCII case.
    pub fn is_v2ray(&self) -> (r: bool)
        ensures
            r == eq_ignore_ascii_case(self.format@, "v2ray"@),
    {
        let f = to_chars(self.format.as_str());
        let v = to_chars("v2ray");
        eq_ignore_ascii_case_chars(f.as_slice(), v.as_slice())
    }

    /// Whether the format is `clash`, ignoring ASCII case.
    pub fn is_clash(&self) -> (r: bool)
        ensures
            r == eq_ignore_ascii_case(self.format@, "clash"@),
    {
        let f = to_chars(self.format.as_str());
        let v = to_chars("clash");
        eq_ignore_ascii_case_chars(f.as_slice(), v.as_slice())
    }
}

} // verus!
