//! The configuration of a search: roots, name patterns and kind filters.
use regex::Regex;
use vstd::prelude::*;

verus! {

/// The kind of a filesystem entry that a type filter asks for.
#[derive(Clone, Copy, Debug, PartialEq, Eq, Structural)]
pub enum EntryType {
    Dir,
    File,
    Link,
}

/// The kind that a type code names: `d`, `f` or `l`, in either case.
pub open spec fn code_kind(code: Seq<char>) -> Option<EntryType> {
    if code.len() != 1 {
        None
    } else if code[0] == 'd' || code[0] == 'D' {
        Some(EntryType::Dir)
    } else if code[0] == 'f' || code[0] == 'F' {
        Some(EntryType::File)
    } else if code[0] == 'l' || code[0] == 'L' {
        Some(EntryType::Link)
    } else {
        None
    }
}

impl EntryType {
    /// Reads a type code; `None` for anything outside `d`, `f`, `l`
    /// (upper or lower case).
    pub fn from_code(code: &str) -> (r: Option<EntryType>)
        ensures
            r == code_kind(code@),
    {
        if code.unicode_len() != 1 {
            return None;
        }
        let c = code.get_char(0);
        if c == 'd' || c == 'D' {
            Some(EntryType::Dir)
        } else if c == 'f' || c == 'F' {
            Some(EntryType::File)
        } else if c == 'l' || c == 'L' {
            Some(EntryType::Link)
        } else {
            None
        }
    }
}

/// A compiled regular expression of the `regex` crate, carried opaquely.
#[verifier::external_type_specification]
#[verifier::external_body]
pub struct ExRegex(regex::Regex);

/// The `regex` crate's compile error, carried opaquely.
#[verifier::external_type_specification]
#[verifier::external_body]
pub struct ExRegexError(regex::Error);

/// Whether the regex engine accepts `pattern` (its syntax is valid and its
/// compiled form stays under the engine's default size limit).
pub uninterp spec fn regex_valid(pattern: Seq<char>) -> bool;

/// Whether the regex compiled from `pattern` matches somewhere in `text`.
pub uninterp spec fn regex_matches(pattern: Seq<char>, text: Seq<char>) -> bool;

/// Relies on `regex::Regex::new`: it fails exactly on the patterns that the
/// engine refuses, which depends on the pattern alone.
#[verifier::external_body]
fn compile_regex(pattern: &str) -> (r: Result<Regex, regex::Error>)
    ensures
        r is Ok <==> regex_valid(pattern@),
{
    Regex::new(pattern)
}

/// A name filter: a regular expression together with its source text.
#[derive(Debug)]
pub struct Pattern {
    source: String,
    compiled: Regex,
}

impl View for Pattern {
    type V = Seq<char>;

    closed spec fn view(&self) -> Seq<char> {
        self.source@
    }
}

/// Why a configuration could not be built.
#[derive(Debug, PartialEq, Eq)]
pub enum ConfigError {
    /// A name pattern is not a valid regular expression; `message` is the
    /// regex engine's diagnostic.
    InvalidPattern { pattern: String, message: String },
}

impl Pattern {
    /// Compiles `source` as a regular expression.
    pub fn new(source: &str) -> (r: Result<Pattern, ConfigError>)
        ensures
            r is Ok <==> regex_valid(source@),
            r matches Ok(p) ==> p@ == source@,
            r matches Err(ConfigError::InvalidPattern { pattern, .. }) ==> pattern@ == source@,
    {
        match compile_regex(source) {
            Ok(compiled) => Ok(Pattern { source: source.to_owned(), compiled }),
            Err(e) => Err(ConfigError::InvalidPattern { pattern: source.to_owned(), message: e.to_string() }),
        }
    }

    /// The source text of the expression.
    pub fn as_str(&self) -> (r: &str)
        ensures
            r@ == self@,
    {
        self.source.as_str()
    }

    /// Relies on `regex::Regex::is_match`: a match anywhere in `text`.
    /// `compiled` was built from `source` by `new`, the only constructor.
    #[verifier::external_body]
    pub(crate) fn regex_is_match(&self, text: &str) -> (r: bool)
        ensures
            r == regex_matches(self@, text@),
    {
        self.compiled.is_match(text)
    }
}

/// What a configuration holds, as plain values.
pub struct ConfigView {
    pub paths: Seq<Seq<char>>,
    pub names: Seq<Seq<char>>,
    pub types: Seq<EntryType>,
}

/// An immutable search configuration.
#[derive(Debug)]
pub struct Config {
    paths: Vec<String>,
    names: Vec<Pattern>,
    entry_types: Vec<EntryType>,
}

pub open spec fn string_views(v: Seq<String>) -> Seq<Seq<char>> {
    v.map_values(|s: String| s@)
}

pub open spec fn pattern_views(v: Seq<Pattern>) -> Seq<Seq<char>> {
    v.map_values(|p: Pattern| p@)
}

/// The roots searched for the given root list: `.` when it is empty.
pub open spec fn roots_or_default(paths: Seq<Seq<char>>) -> Seq<Seq<char>> {
    if paths.len() == 0 {
        seq![seq!['.']]
    } else {
        paths
    }
}

/// Every pattern is accepted by the regex engine.
pub open spec fn all_valid(names: Seq<Seq<char>>) -> bool {
    forall|i: int| 0 <= i < names.len() ==> regex_valid(#[trigger] names[i])
}

/// `i` is the position of the first pattern that the regex engine refuses.
pub open spec fn first_invalid(names: Seq<Seq<char>>, i: int) -> bool {
    &&& 0 <= i < names.len()
    &&& !regex_valid(names[i])
    &&& forall|j: int| 0 <= j < i ==> regex_valid(#[trigger] names[j])
}

impl View for Config {
    type V = ConfigView;

    closed spec fn view(&self) -> ConfigView {
        ConfigView {
            paths: string_views(self.paths@),
            names: pattern_views(self.names@),
            types: self.entry_types@,
        }
    }
}

impl Config {
    /// Builds a configuration: the roots (`.` if none is given), the name
    /// patterns compiled in order, and the kind filters as given (repeats
    /// kept). Fails on the first pattern that does not compile.
    pub fn new(paths: Vec<String>, names: Vec<String>, entry_types: Vec<EntryType>) -> (r: Result<
        Config,
        ConfigError,
    >)
        ensures
            r is Ok <==> all_valid(string_views(names@)),
            r matches Ok(c) ==> c@ == (ConfigView {
                paths: roots_or_default(string_views(paths@)),
                names: string_views(names@),
                types: entry_types@,
            }),
            r matches Err(ConfigError::InvalidPattern { pattern, .. }) ==> exists|i: int|
                first_invalid(string_views(names@), i) && pattern@ == names@[i]@,
    {
        let ghost ns = string_views(names@);
        let mut compiled: Vec<Pattern> = Vec::new();
        let mut i: usize = 0;
        while i < names.len()
            invariant
                ns == string_views(names@),
                i <= names.len(),
                compiled@.len() == i,
                forall|j: int| 0 <= j < i ==> #[trigger] compiled@[j]@ == ns[j],
                forall|j: int| 0 <= j < i ==> regex_valid(#[trigger] ns[j]),
            decreases names.len() - i,
        {
            match Pattern::new(names[i].as_str()) {
                Ok(p) => compiled.push(p),
                Err(e) => {
                    assert(first_invalid(ns, i as int));
                    return Err(e);
                },
            }
            i = i + 1;
        }
        assert(pattern_views(compiled@) =~= ns);
        let roots = if paths.len() == 0 {
            let mut d: Vec<String> = Vec::new();
            let dot = ".".to_owned();
            proof {
                reveal_strlit(".");
                assert(dot@ =~= seq!['.']);
            }
            d.push(dot);
            assert(string_views(d@) =~= seq![seq!['.']]);
            d
        } else {
            paths
        };
        Ok(Config { paths: roots, names: compiled, entry_types })
    }

    /// The roots to search, in order.
    pub fn paths(&self) -> (r: &Vec<String>)
        ensures
            string_views(r@) == self@.paths,
    {
        &self.paths
    }

    /// The name patterns; empty means every name passes.
    pub fn names(&self) -> (r: &Vec<Pattern>)
        ensures
            pattern_views(r@) == self@.names,
    {
        &self.names
    }

    /// The kind filters, in order; empty means every kind passes.
    pub fn entry_types(&self) -> (r: &Vec<EntryType>)
        ensures
            r@ == self@.types,
    {
        &self.entry_types
    }
}

} // verus!
