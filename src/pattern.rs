use vstd::prelude::*;
use crate::words::{is_listed, listed, Vocabulary};

verus! {

#[verifier::external_type_specification]
#[verifier::external_body]
pub struct ExRegex(regex::Regex);

#[verifier::external_type_specification]
#[verifier::external_body]
pub struct ExRegexError(regex::Error);

/// Whether the regular-expression syntax accepts `pattern`.
pub uninterp spec fn regex_compiles(pattern: Seq<char>) -> bool;

/// Whether some part of `text` matches the regular expression `pattern`.
pub uninterp spec fn regex_finds_match(pattern: Seq<char>, text: Seq<char>) -> bool;

/// Relies on regex::Regex::new: whether a pattern compiles depends on its text alone.
#[verifier::external_body]
fn compile_regex(pattern: &str) -> (r: Result<regex::Regex, regex::Error>)
    ensures
        r is Ok <==> regex_compiles(pattern@),
{
    regex::Regex::new(pattern)
}

/// Why no name matcher could be built from a request.
#[derive(Clone, Copy, Debug, PartialEq, Eq, Structural)]
pub enum PatternError {
    /// A words request named none of the three words.
    NoWords,
    /// The adjective is not in the vocabulary's adjective list.
    InvalidAdjective,
    /// The color is not in the vocabulary's color list.
    InvalidColor,
    /// The animal is not in the vocabulary's animal list.
    InvalidAnimal,
    /// The pattern is not a valid regular expression.
    InvalidRegex,
}

/// A compiled pattern that names are tested against.
pub struct NameMatcher {
    pattern: String,
    regex: regex::Regex,
}

impl View for NameMatcher {
    type V = Seq<char>;

    /// The pattern text the matcher was compiled from.
    closed spec fn view(&self) -> Seq<char> {
        self.pattern@
    }
}

/// Relies on regex::Regex::is_match: whether `text` holds a match of the regex, which
/// `NameMatcher::new` always compiles from the matcher's pattern.
#[verifier::external_body]
fn regex_is_match(m: &NameMatcher, text: &str) -> (r: bool)
    ensures
        r == regex_finds_match(m@, text@),
{
    m.regex.is_match(text)
}

impl NameMatcher {
    /// Compiles `pattern`; fails exactly when it is not a valid regular expression.
    pub fn new(pattern: &str) -> (r: Result<NameMatcher, PatternError>)
        ensures
            regex_compiles(pattern@) ==> (r matches Ok(m) && m@ == pattern@),
            !regex_compiles(pattern@) ==> r == Err::<NameMatcher, PatternError>(
                PatternError::InvalidRegex,
            ),
    {
        match compile_regex(pattern) {
            Ok(regex) => Ok(NameMatcher { pattern: pattern.to_owned(), regex }),
            Err(_) => Err(PatternError::InvalidRegex),
        }
    }

    /// Whether `name` is accepted: some part of it matches the pattern.
    pub fn matches(&self, name: &str) -> (r: bool)
        ensures
            r == regex_finds_match(self@, name@),
    {
        regex_is_match(self, name)
    }

    /// The pattern text the matcher was compiled from.
    pub fn pattern(&self) -> (r: &str)
        ensures
            r@ == self@,
    {
        self.pattern.as_str()
    }
}

/// The pattern text that stands for any single word.
pub open spec fn any_word() -> Seq<char> {
    "\\w+"@
}

/// The text a word slot contributes: the word itself, or any word when none is given.
pub open spec fn slot(word: Option<Seq<char>>) -> Seq<char> {
    match word {
        Some(w) => w,
        None => any_word(),
    }
}

pub open spec fn opt_view(word: Option<String>) -> Option<Seq<char>> {
    match word {
        Some(w) => Some(w@),
        None => None,
    }
}

/// The pattern for a words request: adjective, color and animal joined by hyphens.
pub open spec fn words_regex(
    adjective: Option<Seq<char>>,
    color: Option<Seq<char>>,
    animal: Option<Seq<char>>,
) -> Seq<char> {
    slot(adjective) + "-"@ + slot(color) + "-"@ + slot(animal)
}

/// A given word that is missing from its list.
pub open spec fn unlisted(list: Seq<String>, word: Option<Seq<char>>) -> bool {
    match word {
        Some(w) => !listed(list, w),
        None => false,
    }
}

/// The first fault of a words request, checked in the order adjective, color, animal.
pub open spec fn words_fault(
    vocab: &Vocabulary,
    adjective: Option<Seq<char>>,
    color: Option<Seq<char>>,
    animal: Option<Seq<char>>,
) -> Option<PatternError> {
    if adjective is None && color is None && animal is None {
        Some(PatternError::NoWords)
    } else if unlisted(vocab.adjectives@, adjective) {
        Some(PatternError::InvalidAdjective)
    } else if unlisted(vocab.colors@, color) {
        Some(PatternError::InvalidColor)
    } else if unlisted(vocab.animals@, animal) {
        Some(PatternError::InvalidAnimal)
    } else {
        None
    }
}

/// The pattern for a letter request: three words that each start with `letter`.
pub open spec fn letter_regex(letter: Seq<char>) -> Seq<char> {
    "^"@ + letter + "\\w+-"@ + letter + "\\w+-"@ + letter + "\\w+$"@
}

/// Whether a given word is missing from `list`.
fn is_unlisted(list: &Vec<String>, word: &Option<String>) -> (r: bool)
    ensures
        r == unlisted(list@, opt_view(*word)),
{
    match word {
        Some(w) => !is_listed(list, w),
        None => false,
    }
}

/// Appends the text of one word slot to `out`.
fn push_slot(out: &mut String, word: &Option<String>)
    ensures
        final(out)@ == old(out)@ + slot(opt_view(*word)),
{
    match word {
        Some(w) => out.append(w.as_str()),
        None => out.append("\\w+"),
    }
}

/// Builds the pattern for a words request after checking each given word against its
/// list; at least one word must be given.
pub fn words_pattern(
    vocab: &Vocabulary,
    adjective: Option<String>,
    color: Option<String>,
    animal: Option<String>,
) -> (r: Result<String, PatternError>)
    ensures
        ({
            let (a, c, n) = (opt_view(adjective), opt_view(color), opt_view(animal));
            match words_fault(vocab, a, c, n) {
                Some(e) => r == Err::<String, PatternError>(e),
                None => r matches Ok(p) && p@ == words_regex(a, c, n),
            }
        }),
{
    if adjective.is_none() && color.is_none() && animal.is_none() {
        return Err(PatternError::NoWords);
    }
    if is_unlisted(&vocab.adjectives, &adjective) {
        return Err(PatternError::InvalidAdjective);
    }
    if is_unlisted(&vocab.colors, &color) {
        return Err(PatternError::InvalidColor);
    }
    if is_unlisted(&vocab.animals, &animal) {
        return Err(PatternError::InvalidAnimal);
    }
    let mut out = String::new();
    push_slot(&mut out, &adjective);
    out.append("-");
    push_slot(&mut out, &color);
    out.append("-");
    push_slot(&mut out, &animal);
    Ok(out)
}

/// Builds the pattern for an alliterative name: each of the three words starts with
/// `letter`, and the pattern spans the whole name.
pub fn letter_pattern(letter: &str) -> (r: String)
    ensures
        r@ == letter_regex(letter@),
{
    let mut out = String::new();
    out.append("^");
    out.append(letter);
    out.append("\\w+-");
    out.append(letter);
    out.append("\\w+-");
    out.append(letter);
    out.append("\\w+$");
    out
}

/// What the user asked for on the command line.
#[derive(Debug)]
pub enum Command {
    /// A name holding specific words; at least one must be given.
    Words { adjective: Option<String>, color: Option<String>, animal: Option<String> },
    /// An alliterative name whose three words start with `letter`.
    Letter { letter: String },
    /// A name matching a regular expression given as is.
    Regex { regex: String },
    /// Show the word lists instead of searching.
    Lists,
}

/// What a command resolves to.
pub enum Request {
    /// Search for a key whose name the matcher accepts.
    Search(NameMatcher),
    /// Show the word lists.
    ShowLists,
}

/// The request that compiling `pattern` gives: a search with that pattern, or
/// `InvalidRegex`.
pub open spec fn compiled_to(r: Result<Request, PatternError>, pattern: Seq<char>) -> bool {
    if regex_compiles(pattern) {
        r matches Ok(Request::Search(m)) && m@ == pattern
    } else {
        r == Err::<Request, PatternError>(PatternError::InvalidRegex)
    }
}

/// What `handle_subcommands` returns for `cmd`.
pub open spec fn handles(vocab: &Vocabulary, cmd: Command, r: Result<Request, PatternError>) -> bool {
    match cmd {
        Command::Words { adjective, color, animal } => {
            let (a, c, n) = (opt_view(adjective), opt_view(color), opt_view(animal));
            match words_fault(vocab, a, c, n) {
                Some(e) => r == Err::<Request, PatternError>(e),
                None => compiled_to(r, words_regex(a, c, n)),
            }
        },
        Command::Letter { letter } => compiled_to(r, letter_regex(letter@)),
        Command::Regex { regex } => compiled_to(r, regex@),
        Command::Lists => r matches Ok(Request::ShowLists),
    }
}

fn search_request(pattern: &str) -> (r: Result<Request, PatternError>)
    ensures
        compiled_to(r, pattern@),
{
    match NameMatcher::new(pattern) {
        Ok(m) => Ok(Request::Search(m)),
        Err(e) => Err(e),
    }
}

/// Turns a command into a search request with its compiled matcher, or into the
/// request to show the word lists.
pub fn handle_subcommands(cmd: Command, vocab: &Vocabulary) -> (r: Result<Request, PatternError>)
    ensures
        handles(vocab, cmd, r),
{
    match cmd {
        Command::Words { adjective, color, animal } => {
            match words_pattern(vocab, adjective, color, animal) {
                Ok(p) => search_request(p.as_str()),
                Err(e) => Err(e),
            }
        },
        Command::Letter { letter } => {
            let p = letter_pattern(letter.as_str());
            search_request(p.as_str())
        },
        Command::Regex { regex } => search_request(regex.as_str()),
        Command::Lists => Ok(Request::ShowLists),
    }
}

} // verus!
