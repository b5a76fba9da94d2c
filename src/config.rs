//! The server's configuration, as the rest of the library reads it.

use vstd::prelude::*;

verus! {

/// How many symbols a workspace-symbol search returns at most, unless configured.
pub const MAX_SYMBOLS: usize = 250;

/// The whole configuration: per-language settings, and the symbol search if enabled.
#[derive(Clone, Debug)]
pub struct PicklsConfig {
    /// Language id and its settings; each language id at most once.
    pub languages: Vec<(String, PicklsLanguageConfig)>,
    pub symbols: Option<PicklsSymbolsConfig>,
}

pub fn default_max_symbols() -> (r: usize)
    ensures
        r == MAX_SYMBOLS,
{
    MAX_SYMBOLS
}

/// Settings of the workspace-symbol search.
#[derive(Clone, Debug, PartialEq, Eq)]
pub struct PicklsSymbolsConfig {
    pub source: PicklsSymbolsSource,
    pub max_symbols: usize,
    /// How long the tag extractor may run, in milliseconds.
    pub ctags_timeout_ms: u64,
}

/// The program that lists a workspace's symbols.
#[derive(Clone, Copy, Debug, PartialEq, Eq, Structural)]
pub enum PicklsSymbolsSource {
    UniversalCtags,
}

/// Settings of one language.
#[derive(Clone, Debug)]
pub struct PicklsLanguageConfig {
    /// Names of files whose presence marks a project's root directory.
    pub root_markers: Vec<String>,
    /// The linters to run on documents of this language.
    pub linters: Vec<PicklsLinterConfig>,
    /// The formatters to run, in order, on documents of this language.
    pub formatters: Vec<PicklsFormatterConfig>,
}

/// How to run one linter and read its output.
#[derive(Clone, Debug)]
pub struct PicklsLinterConfig {
    /// The program to run.
    pub program: String,
    /// Its arguments; `$filename` stands for the document's absolute path.
    pub args: Vec<String>,
    /// Whether the document's text is written to the program's input.
    pub use_stdin: bool,
    /// The pattern that each output line is matched against.
    pub pattern: String,
    /// Capture group of the file name.
    pub filename_match: Option<usize>,
    /// Capture group of the 1-based line number.
    pub line_match: usize,
    /// Capture group of the 1-based start column.
    pub start_col_match: Option<usize>,
    /// Capture group of the end column.
    pub end_col_match: Option<usize>,
    /// Capture group of the severity word.
    pub severity_match: Option<usize>,
    /// Capture group of the description; -1 takes the previous output line.
    pub description_match: Option<isize>,
    /// Whether the program's error output is read instead of its standard output.
    pub use_stderr: bool,
}

/// How to run one formatter.
#[derive(Clone, Debug)]
pub struct PicklsFormatterConfig {
    pub program: String,
    pub args: Vec<String>,
    /// Whether the text is written to the program's input.
    pub use_stdin: bool,
    /// Whether any error output makes the formatting fail.
    pub stderr_indicates_error: bool,
}

pub fn default_false() -> (r: bool)
    ensures
        !r,
{
    false
}

pub fn default_true() -> (r: bool)
    ensures
        r,
{
    true
}

/// The settings of the first entry for `language_id`, if any.
pub open spec fn language_entry(languages: Seq<(String, PicklsLanguageConfig)>, language_id: Seq<char>) -> Option<int>
    decreases languages.len(),
{
    if languages.len() == 0 {
        None
    } else if languages[0].0@ == language_id {
        Some(0)
    } else {
        match language_entry(languages.drop_first(), language_id) {
            Some(i) => Some(i + 1),
            None => None,
        }
    }
}

/// An entry found is an entry of the list.
pub proof fn lemma_language_entry_bound(languages: Seq<(String, PicklsLanguageConfig)>, language_id: Seq<char>)
    ensures
        match language_entry(languages, language_id) {
            Some(i) => 0 <= i < languages.len() && languages[i].0@ == language_id,
            None => true,
        },
    decreases languages.len(),
{
    if languages.len() > 0 && languages[0].0@ != language_id {
        lemma_language_entry_bound(languages.drop_first(), language_id);
    }
}

impl PicklsConfig {
    /// An empty configuration: no languages and no symbol search.
    pub fn new() -> (r: Self)
        ensures
            r.languages@.len() == 0,
            r.symbols is None,
    {
        PicklsConfig { languages: Vec::new(), symbols: None }
    }

    /// Where the settings of `language_id` stand in `languages`, if it has any.
    pub fn find_language(&self, language_id: &str) -> (r: Option<usize>)
        ensures
            match r {
                Some(i) => language_entry(self.languages@, language_id@) == Some(i as int) && i < self.languages@.len(),
                None => language_entry(self.languages@, language_id@) is None,
            },
    {
        proof {
            lemma_language_entry_bound(self.languages@, language_id@);
        }
        let name = String::from_str(language_id);
        let mut i: usize = 0;
        assert(self.languages@.skip(0) == self.languages@);
        while i < self.languages.len()
            invariant
                i <= self.languages.len(),
                name@ == language_id@,
                language_entry(self.languages@, language_id@) == match language_entry(
                    self.languages@.skip(i as int),
                    language_id@,
                ) {
                    Some(j) => Some(j + i),
                    None => None,
                },
            decreases self.languages.len() - i,
        {
            assert(self.languages@.skip(i as int)[0] == self.languages@[i as int]);
            if self.languages[i].0 == name {
                return Some(i);
            }
            assert(self.languages@.skip(i as int).drop_first() == self.languages@.skip(i + 1));
            i = i + 1;
        }
        None
    }
}

} // verus!
