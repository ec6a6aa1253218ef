//! What one search is asked to do: the query, the file, and whether case
//! counts.

use vstd::prelude::*;

verus! {

/// Why no configuration could be built from the arguments.
#[derive(Clone, Copy, Debug, PartialEq, Eq)]
pub enum ConfigError {
    /// No query follows the program's name.
    MissingQuery,
    /// A query is there, but no file path follows it.
    MissingFilePath,
}

impl ConfigError {
    /// The words that tell the user of this error.
    pub open spec fn message_text(self) -> Seq<char> {
        match self {
            ConfigError::MissingQuery => "Did not get query string !"@,
            ConfigError::MissingFilePath => "Did not get filename !"@,
        }
    }

    /// The line for standard error: what failed, then the message.
    pub open spec fn report_text(self) -> Seq<char> {
        "Problem parsing args: "@ + self.message_text()
    }

    /// Returns the words that tell the user of this error.
    pub fn message(&self) -> (text: String)
        ensures
            text@ == self.message_text(),
    {
        match self {
            ConfigError::MissingQuery => String::from_str("Did not get query string !"),
            ConfigError::MissingFilePath => String::from_str("Did not get filename !"),
        }
    }

    /// Returns the line to print on standard error.
    pub fn report(&self) -> (line: String)
        ensures
            line@ == self.report_text(),
    {
        let mut line = String::from_str("Problem parsing args: ");
        let message = self.message();
        line.append(message.as_str());
        line
    }
}

/// A query, the path of the file to search, and whether the case of letters
/// counts.
#[derive(Debug, PartialEq, Eq)]
pub struct Config {
    /// The text to look for.
    pub query: String,
    /// Where the file to search is.
    pub file_path: String,
    /// Whether letters of different case differ.
    pub case_sensitive: bool,
}

/// A configuration as plain text and a flag.
pub struct ConfigView {
    pub query: Seq<char>,
    pub file_path: Seq<char>,
    pub case_sensitive: bool,
}

impl View for Config {
    type V = ConfigView;

    open spec fn view(&self) -> ConfigView {
        ConfigView {
            query: self.query@,
            file_path: self.file_path@,
            case_sensitive: self.case_sensitive,
        }
    }
}

/// What the arguments and the looked-up variable ask for. The first argument
/// is the program's name and is passed over; the next two are the query and
/// the file path; any further ones are ignored. An empty argument is an
/// argument. The search ignores case exactly when the variable is set, to any
/// value, the empty one included.
pub open spec fn configuration(args: Seq<Seq<char>>, case_insensitive: Option<Seq<char>>) -> Result<
    ConfigView,
    ConfigError,
> {
    if args.len() < 2 {
        Err(ConfigError::MissingQuery)
    } else if args.len() < 3 {
        Err(ConfigError::MissingFilePath)
    } else {
        Ok(
            ConfigView {
                query: args[1],
                file_path: args[2],
                case_sensitive: case_insensitive is None,
            },
        )
    }
}

/// The program's name has no say: whatever stands first among the arguments,
/// the outcome is the same.
pub proof fn lemma_program_name_is_passed_over(
    args: Seq<Seq<char>>,
    name: Seq<char>,
    case_insensitive: Option<Seq<char>>,
)
    requires
        args.len() > 0,
    ensures
        configuration(args.update(0, name), case_insensitive) == configuration(
            args,
            case_insensitive,
        ),
{
}

/// Arguments after the file path have no say.
pub proof fn lemma_further_arguments_are_ignored(
    args: Seq<Seq<char>>,
    further: Seq<Seq<char>>,
    case_insensitive: Option<Seq<char>>,
)
    requires
        args.len() >= 3,
    ensures
        configuration(args + further, case_insensitive) == configuration(args, case_insensitive),
{
}

/// Only whether the variable is set counts, not what it is set to.
pub proof fn lemma_value_of_the_variable_has_no_say(
    args: Seq<Seq<char>>,
    one: Seq<char>,
    other: Seq<char>,
)
    ensures
        configuration(args, Some(one)) == configuration(args, Some(other)),
{
}

/// The arguments as texts.
pub open spec fn argument_texts(args: Seq<String>) -> Seq<Seq<char>> {
    Seq::new(args.len(), |i: int| args[i]@)
}

/// The looked-up value as text.
pub open spec fn lookup_text(value: Option<&str>) -> Option<Seq<char>> {
    match value {
        Some(text) => Some(text@),
        None => None,
    }
}

/// Name of the environment variable that, when set, makes the search ignore
/// case.
pub fn case_insensitive_variable() -> (name: &'static str)
    ensures
        name@ == "CASE_INSENSITIVE"@,
{
    "CASE_INSENSITIVE"
}

impl Config {
    /// Builds the configuration from the program's arguments, the program's
    /// name first, and from what the lookup of the variable named by
    /// `case_insensitive_variable` gave: `None` if it is not set.
    pub fn new(args: &[String], case_insensitive: Option<&str>) -> (built: Result<
        Config,
        ConfigError,
    >)
        ensures
            match built {
                Ok(config) => configuration(argument_texts(args@), lookup_text(case_insensitive))
                    == Ok::<ConfigView, ConfigError>(config@),
                Err(error) => configuration(argument_texts(args@), lookup_text(case_insensitive))
                    == Err::<ConfigView, ConfigError>(error),
            },
    {
        if args.len() < 2 {
            Err(ConfigError::MissingQuery)
        } else if args.len() < 3 {
            Err(ConfigError::MissingFilePath)
        } else {
            Ok(
                Config {
                    query: args[1].clone(),
                    file_path: args[2].clone(),
                    case_sensitive: case_insensitive.is_none(),
                },
            )
        }
    }
}

} // verus!
