//! One run: from the configuration and the outcome of reading the file to
//! the lines to print, or to the failure to report.
//!
//! Reading the file and printing belong to the caller. It reads the file at
//! `Config::file_path` as text, hands the outcome to `run`, and prints each
//! line that comes back, one per line, in order and unchanged.

use vstd::prelude::*;
use crate::config::{Config, ConfigView};
use crate::lines::lines;
use crate::search::{
    lemma_absent_query_finds_nothing, lemma_search_returns_the_matching_lines, matching_lines,
    search,
};
use crate::substring::occurs_in;

verus! {

/// The lowercase form of a text: what `str::to_lowercase` returns for it.
pub uninterp spec fn lowercase(text: Seq<char>) -> Seq<char>;

/// Calls `str::to_lowercase`, which returns the lowercase equivalent of the
/// text as a new `String`, by the Unicode property `Lowercase`. The result
/// depends on the text alone; the contract gives it the name `lowercase` and
/// claims nothing else of it.
#[verifier::external_body]
fn to_lowercase(text: &str) -> (lower: String)
    ensures
        lower@ == lowercase(text@),
{
    text.to_lowercase()
}

/// Why a run failed.
#[derive(Debug, PartialEq, Eq)]
pub enum RunError {
    /// The file could not be read as text. Holds the cause, in words.
    FileRead(String),
}

impl RunError {
    /// The cause of the failure, in words.
    pub open spec fn message_text(self) -> Seq<char> {
        match self {
            RunError::FileRead(cause) => cause@,
        }
    }

    /// The line for standard error: what failed, then the cause.
    pub open spec fn report_text(self) -> Seq<char> {
        "Problem reading the file: "@ + self.message_text()
    }

    /// Returns the cause of the failure, in words.
    pub fn message(&self) -> (text: String)
        ensures
            text@ == self.message_text(),
    {
        match self {
            RunError::FileRead(cause) => cause.clone(),
        }
    }

    /// Returns the line to print on standard error.
    pub fn report(&self) -> (line: String)
        ensures
            line@ == self.report_text(),
    {
        let mut line = String::from_str("Problem reading the file: ");
        let message = self.message();
        line.append(message.as_str());
        line
    }
}

/// The lines that a run prints for `contents`. Where case counts, they are
/// the lines that contain the query. Where it does not, the query and the
/// contents are both put in lowercase first, once, and the lines come out in
/// lowercase.
pub open spec fn output_lines(config: ConfigView, contents: Seq<char>) -> Seq<Seq<char>> {
    if config.case_sensitive {
        matching_lines(config.query, contents)
    } else {
        matching_lines(lowercase(config.query), lowercase(contents))
    }
}

/// Copies each line into a `String` of its own.
fn to_owned_lines(found: &Vec<&str>) -> (owned: Vec<String>)
    ensures
        owned.deep_view() == found.deep_view(),
{
    let mut owned: Vec<String> = Vec::new();
    let mut i: usize = 0;
    while i < found.len()
        invariant
            i <= found@.len(),
            owned@.len() == i,
            forall|k: int| 0 <= k < i ==> owned@[k]@ == found@[k]@,
        decreases found@.len() - i,
    {
        owned.push(String::from_str(found[i]));
        i += 1;
    }
    owned
}

/// Runs the search that `config` asks for on the outcome of reading its
/// file: `Ok` with the contents, or `Err` with the cause, in words. Returns
/// the lines to print, in order. A failed read comes back as
/// `RunError::FileRead` with the same cause, and nothing is searched.
pub fn run(config: Config, contents: Result<String, String>) -> (outcome: Result<
    Vec<String>,
    RunError,
>)
    ensures
        match contents {
            Ok(text) => outcome matches Ok(printed) && printed.deep_view() == output_lines(
                config@,
                text@,
            ),
            Err(cause) => outcome == Err::<Vec<String>, RunError>(RunError::FileRead(cause)),
        },
{
    match contents {
        Ok(text) => {
            if config.case_sensitive {
                let found = search(config.query.as_str(), text.as_str());
                Ok(to_owned_lines(&found))
            } else {
                let folded_text = to_lowercase(text.as_str());
                let folded_query = to_lowercase(config.query.as_str());
                let found = search(folded_query.as_str(), folded_text.as_str());
                Ok(to_owned_lines(&found))
            }
        },
        Err(cause) => Err(RunError::FileRead(cause)),
    }
}

/// A run that ignores case prints lines of the lowercase contents: each line
/// printed contains the lowercase query, and a line of the lowercase contents
/// that is not printed does not contain it.
pub proof fn lemma_folded_run_prints_the_matching_lines(config: ConfigView, contents: Seq<char>)
    requires
        !config.case_sensitive,
    ensures
        forall|i: int|
            0 <= i < output_lines(config, contents).len() ==> occurs_in(
                #[trigger] output_lines(config, contents)[i],
                lowercase(config.query),
            ),
        forall|k: int|
            0 <= k < lines(lowercase(contents)).len() && !output_lines(config, contents).contains(
                #[trigger] lines(lowercase(contents))[k],
            ) ==> !occurs_in(lines(lowercase(contents))[k], lowercase(config.query)),
{
    lemma_search_returns_the_matching_lines(lowercase(config.query), lowercase(contents));
}

/// A query that stands nowhere in the contents prints nothing. Where case is
/// ignored, this is said of the lowercase query and the lowercase contents.
pub proof fn lemma_absent_query_prints_nothing(config: ConfigView, contents: Seq<char>)
    requires
        if config.case_sensitive {
            !occurs_in(contents, config.query)
        } else {
            !occurs_in(lowercase(contents), lowercase(config.query))
        },
    ensures
        output_lines(config, contents) == Seq::<Seq<char>>::empty(),
{
    if config.case_sensitive {
        lemma_absent_query_finds_nothing(config.query, contents);
    } else {
        lemma_absent_query_finds_nothing(lowercase(config.query), lowercase(contents));
    }
}

/// Case does not count in a run that ignores it: two queries with the same
/// lowercase form, on two contents with the same lowercase form, give the
/// same output.
pub proof fn lemma_case_is_ignored(
    first: ConfigView,
    first_contents: Seq<char>,
    second: ConfigView,
    second_contents: Seq<char>,
)
    requires
        !first.case_sensitive,
        !second.case_sensitive,
        lowercase(first.query) == lowercase(second.query),
        lowercase(first_contents) == lowercase(second_contents),
    ensures
        output_lines(first, first_contents) == output_lines(second, second_contents),
{
}

} // verus!
