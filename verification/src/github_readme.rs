//! Where a source's subscription lives: given directly, or found in a
//! GitHub README.
use vstd::prelude::*;
use crate::config::Source;
use crate::foreign::{regex_find_all, regex_matches_of};
use crate::text::{equals_str, from_chars, push_str, to_chars, lemma_string_views};

verus! {

/// Why a source's subscription URL could not be found.
#[derive(Debug)]
pub enum ResolveError {
    /// A `direct` source without `url`.
    MissingUrl { name: String },
    /// A source whose kind is neither `direct` nor `github_readme`.
    UnknownKind { kind: String, name: String },
    /// A `github_readme` source without `repo`.
    MissingRepo { name: String },
    /// A `github_readme` source without `url_pattern`.
    MissingPattern { name: String },
    /// The `url_pattern` is no regular expression.
    InvalidPattern,
    /// Nothing in the README matched the pattern.
    NoMatch { repo: String },
}

/// The model of a [`ResolveError`].
pub ghost enum ResolveFailure {
    MissingUrl(Seq<char>),
    UnknownKind(Seq<char>, Seq<char>),
    MissingRepo(Seq<char>),
    MissingPattern(Seq<char>),
    InvalidPattern,
    NoMatch(Seq<char>),
}

impl View for ResolveError {
    type V = ResolveFailure;

    open spec fn view(&self) -> ResolveFailure {
        match self {
            ResolveError::MissingUrl { name } => ResolveFailure::MissingUrl(name@),
            ResolveError::UnknownKind { kind, name } => ResolveFailure::UnknownKind(kind@, name@),
            ResolveError::MissingRepo { name } => ResolveFailure::MissingRepo(name@),
            ResolveError::MissingPattern { name } => ResolveFailure::MissingPattern(name@),
            ResolveError::InvalidPattern => ResolveFailure::InvalidPattern,
            ResolveError::NoMatch { repo } => ResolveFailure::NoMatch(repo@),
        }
    }
}

/// The message a failure is reported with.
pub open spec fn failure_message(f: ResolveFailure) -> Seq<char> {
    match f {
        ResolveFailure::MissingUrl(name) => "source '"@ + name + "' missing url"@,
        ResolveFailure::UnknownKind(kind, name) => "unknown source kind '"@ + kind + "' for '"@ + name
            + "'"@,
        ResolveFailure::MissingRepo(name) => "source '"@ + name + "' missing repo"@,
        ResolveFailure::MissingPattern(name) => "source '"@ + name + "' missing url_pattern"@,
        ResolveFailure::InvalidPattern => "invalid url_pattern regex"@,
        ResolveFailure::NoMatch(repo) => "no subscription URL matched pattern in "@ + repo
            + " README"@,
    }
}

impl ResolveError {
    /// The message the failure is reported with.
    pub fn message(&self) -> (r: String)
        ensures
            r@ == failure_message(self@),
    {
        let mut out: Vec<char> = Vec::new();
        match self {
            ResolveError::MissingUrl { name } => {
                push_str(&mut out, "source '");
                push_str(&mut out, name.as_str());
                push_str(&mut out, "' missing url");
            },
            ResolveError::UnknownKind { kind, name } => {
                push_str(&mut out, "unknown source kind '");
                push_str(&mut out, kind.as_str());
                push_str(&mut out, "' for '");
                push_str(&mut out, name.as_str());
                push_str(&mut out, "'");
            },
            ResolveError::MissingRepo { name } => {
                push_str(&mut out, "source '");
                push_str(&mut out, name.as_str());
                push_str(&mut out, "' missing repo");
            },
            ResolveError::MissingPattern { name } => {
                push_str(&mut out, "source '");
                push_str(&mut out, name.as_str());
                push_str(&mut out, "' missing url_pattern");
            },
            ResolveError::InvalidPattern => {
                push_str(&mut out, "invalid url_pattern regex");
            },
            ResolveError::NoMatch { repo } => {
                push_str(&mut out, "no subscription URL matched pattern in ");
                push_str(&mut out, repo.as_str());
                push_str(&mut out, " README");
            },
        }
        assert(out@ =~= failure_message(self@));
        from_chars(out.as_slice())
    }
}

/// What resolving a source's URL does next.
#[derive(Debug)]
pub enum UrlStep {
    /// The subscription URL is known.
    Resolved(String),
    /// The README at this URL is to be fetched and handed to
    /// [`resolve_from_readme`].
    FetchReadme(String),
    /// The URL cannot be found.
    Failed(ResolveError),
}

/// The model of a [`UrlStep`].
pub ghost enum Step {
    Resolved(Seq<char>),
    FetchReadme(Seq<char>),
    Failed(ResolveFailure),
}

impl View for UrlStep {
    type V = Step;

    open spec fn view(&self) -> Step {
        match self {
            UrlStep::Resolved(u) => Step::Resolved(u@),
            UrlStep::FetchReadme(u) => Step::FetchReadme(u@),
            UrlStep::Failed(e) => Step::Failed(e@),
        }
    }
}

/// The raw URL of the README of `repo` on `branch`.
pub open spec fn readme_url(repo: Seq<char>, branch: Seq<char>) -> Seq<char> {
    "https://raw.githubusercontent.com/"@ + repo + "/"@ + branch + "/README.md"@
}

/// The first step of resolving a source: a `direct` source's `url`; for a
/// `github_readme` source with `repo` and `url_pattern`, fetching the README;
/// otherwise the failure, the missing `repo` reported before the missing
/// pattern.
pub open spec fn resolve_step(s: Source) -> Step {
    if s.kind@ == "direct"@ {
        match s.url {
            Some(u) => Step::Resolved(u@),
            None => Step::Failed(ResolveFailure::MissingUrl(s.name@)),
        }
    } else if s.kind@ == "github_readme"@ {
        match (s.repo, s.url_pattern) {
            (None, _) => Step::Failed(ResolveFailure::MissingRepo(s.name@)),
            (Some(_), None) => Step::Failed(ResolveFailure::MissingPattern(s.name@)),
            (Some(repo), Some(_)) => Step::FetchReadme(readme_url(repo@, s.branch@)),
        }
    } else {
        Step::Failed(ResolveFailure::UnknownKind(s.kind@, s.name@))
    }
}

/// The first step of resolving a source's subscription URL (see
/// [`resolve_step`]).
pub fn resolve_url(source: &Source) -> (r: UrlStep)
    ensures
        r@ == resolve_step(*source),
{
    let kind = to_chars(source.kind.as_str());
    if equals_str(kind.as_slice(), "direct") {
        match &source.url {
            Some(u) => UrlStep::Resolved(u.clone()),
            None => UrlStep::Failed(ResolveError::MissingUrl { name: source.name.clone() }),
        }
    } else if equals_str(kind.as_slice(), "github_readme") {
        match (&source.repo, &source.url_pattern) {
            (None, _) => UrlStep::Failed(ResolveError::MissingRepo { name: source.name.clone() }),
            (Some(_), None) => UrlStep::Failed(
                ResolveError::MissingPattern { name: source.name.clone() },
            ),
            (Some(repo), Some(_)) => {
                let mut out: Vec<char> = Vec::new();
                push_str(&mut out, "https://raw.githubusercontent.com/");
                push_str(&mut out, repo.as_str());
                push_str(&mut out, "/");
                push_str(&mut out, source.branch.as_str());
                push_str(&mut out, "/README.md");
                UrlStep::FetchReadme(from_chars(out.as_slice()))
            },
        }
    } else {
        UrlStep::Failed(
            ResolveError::UnknownKind { kind: source.kind.clone(), name: source.name.clone() },
        )
    }
}

/// A resolution result by its model.
pub open spec fn outcome_view(r: Result<String, ResolveError>) -> Result<Seq<char>, ResolveFailure> {
    match r {
        Ok(u) => Ok(u@),
        Err(e) => Err(e@),
    }
}

/// The URL out of the matches of the pattern in `repo`'s README: `None`
/// (the pattern was refused) is an invalid pattern, no match is a failure,
/// and otherwise the last match wins.
pub open spec fn last_match(matches: Option<Seq<Seq<char>>>, repo: Seq<char>) -> Result<Seq<char>, ResolveFailure> {
    match matches {
        None => Err(ResolveFailure::InvalidPattern),
        Some(ms) => if ms.len() == 0 {
            Err(ResolveFailure::NoMatch(repo))
        } else {
            Ok(ms.last())
        },
    }
}

/// What resolving a `github_readme` source from its README gives: a missing
/// `repo` or `url_pattern` fails as in [`resolve_step`]; otherwise the
/// [`last_match`] of the pattern's matches.
pub open spec fn readme_resolution(s: Source, readme: Seq<char>) -> Result<Seq<char>, ResolveFailure> {
    match (s.repo, s.url_pattern) {
        (None, _) => Err(ResolveFailure::MissingRepo(s.name@)),
        (Some(_), None) => Err(ResolveFailure::MissingPattern(s.name@)),
        (Some(repo), Some(pattern)) => last_match(regex_matches_of(pattern@, readme), repo@),
    }
}

/// The subscription URL out of the matches of the pattern in `repo`'s
/// README (see [`last_match`]); the newest link comes last in such READMEs.
pub fn pick_last_match(matches: Option<Vec<String>>, repo: &str) -> (r: Result<String, ResolveError>)
    ensures
        outcome_view(r) == last_match(
            match matches {
                Some(v) => Some(v.deep_view()),
                None => None,
            },
            repo@,
        ),
{
    match matches {
        None => Err(ResolveError::InvalidPattern),
        Some(mut ms) => {
            proof {
                lemma_string_views(ms);
            }
            match ms.pop() {
                Some(u) => Ok(u),
                None => Err(ResolveError::NoMatch { repo: repo.to_owned() }),
            }
        },
    }
}

/// The subscription URL of a `github_readme` source, given its README (see
/// [`readme_resolution`]).
pub fn resolve_from_readme(source: &Source, readme: &str) -> (r: Result<String, ResolveError>)
    ensures
        outcome_view(r) == readme_resolution(*source, readme@),
{
    match (&source.repo, &source.url_pattern) {
        (None, _) => Err(ResolveError::MissingRepo { name: source.name.clone() }),
        (Some(_), None) => Err(ResolveError::MissingPattern { name: source.name.clone() }),
        (Some(repo), Some(pattern)) => {
            let matches = regex_find_all(pattern.as_str(), readme);
            pick_last_match(matches, repo.as_str())
        },
    }
}

} // verus!
