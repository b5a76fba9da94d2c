//! Workspace symbols: reading the tag extractor's output lines, and choosing the
//! symbols that a query asks for.

use vstd::prelude::*;
use crate::pattern::{LinePattern, compile_pattern, is_match, pattern_matches, regex_compiles};
use crate::diagnostic::{Position, Range, one_less};
use crate::error::PicklsError;
use crate::text::{chars_of, parse_u32, parse_u32_of, split_words, substring, texts_of, words_of};

verus! {

/// The kind of a symbol, as the editor knows it.
#[derive(Clone, Copy, Debug, PartialEq, Eq, Structural)]
pub enum SymbolKind {
    Function,
    Class,
    Variable,
    Method,
    Module,
}

/// The part of `s` before the first `sep`, or all of `s`.
pub open spec fn before_sep(s: Seq<char>, sep: char) -> Seq<char>
    decreases s.len(),
{
    if s.len() == 0 {
        s
    } else if s[0] == sep {
        seq![]
    } else {
        seq![s[0]] + before_sep(s.drop_first(), sep)
    }
}

/// Whether `s` holds `sep`.
pub open spec fn has_sep(s: Seq<char>, sep: char) -> bool {
    exists|i: int| 0 <= i < s.len() && s[i] == sep
}

/// The fields of `s` between `sep` characters.
pub open spec fn fields(s: Seq<char>, sep: char) -> Seq<Seq<char>>
    decreases s.len(),
{
    if s.len() == 0 {
        seq![seq![]]
    } else if s[0] == sep {
        seq![seq![]] + fields(s.drop_first(), sep)
    } else {
        let rest = fields(s.drop_first(), sep);
        rest.update(0, seq![s[0]] + rest[0])
    }
}

/// The symbol kind that a tag's kind field names; kinds it does not know are variables.
pub open spec fn kind_of(field: Seq<char>) -> SymbolKind {
    let term = before_sep(field, ':');
    if term == "function"@ {
        SymbolKind::Function
    } else if term == "class"@ {
        SymbolKind::Class
    } else if term == "method"@ {
        SymbolKind::Method
    } else if term == "module"@ {
        SymbolKind::Module
    } else {
        SymbolKind::Variable
    }
}

/// A tag: a symbol's name, its file, its 1-based line, and its kind.
pub struct Tag {
    pub name: String,
    pub path: String,
    pub line: u32,
    pub kind: SymbolKind,
}

/// What a tag line `name<TAB>path<TAB>n;"<TAB>kind...` says, if it is one: a line
/// needs four fields, and a line number before a `;` in the third.
pub open spec fn tag_of(line: Seq<char>) -> Option<(Seq<char>, Seq<char>, u32, SymbolKind)> {
    let f = fields(line, '\t');
    if f.len() < 4 || !has_sep(f[2], ';') {
        None
    } else {
        match parse_u32_of(before_sep(f[2], ';')) {
            Some(n) => Some((f[0], f[1], n, kind_of(f[3]))),
            None => None,
        }
    }
}

/// Index of the first `sep` at or after `from`, or `hi`.
fn find_sep(s: &Vec<char>, from: usize, hi: usize, sep: char) -> (r: usize)
    requires
        from <= hi <= s.len(),
    ensures
        from <= r <= hi,
        forall|k: int| from <= k < r ==> s@[k] != sep,
        r < hi ==> s@[r as int] == sep,
{
    let mut i = from;
    while i < hi && s[i] != sep
        invariant
            from <= i <= hi <= s.len(),
            forall|k: int| from <= k < i ==> s@[k] != sep,
        decreases hi - i,
    {
        i = i + 1;
    }
    i
}

proof fn lemma_before_sep(s: Seq<char>, sep: char, r: int)
    requires
        0 <= r <= s.len(),
        forall|k: int| 0 <= k < r ==> s[k] != sep,
        r < s.len() ==> s[r] == sep,
    ensures
        before_sep(s, sep) == s.take(r),
        has_sep(s, sep) <==> r < s.len(),
    decreases s.len(),
{
    if s.len() > 0 && r > 0 {
        lemma_before_sep(s.drop_first(), sep, r - 1);
        assert(seq![s[0]] + s.drop_first().take(r - 1) == s.take(r));
        if has_sep(s, sep) {
            let i = choose|i: int| 0 <= i < s.len() && s[i] == sep;
            assert(s.drop_first()[i - 1] == sep);
        }
        if has_sep(s.drop_first(), sep) {
            let i = choose|i: int| 0 <= i < s.len() - 1 && s.drop_first()[i] == sep;
            assert(s[i + 1] == sep);
        }
    } else if s.len() > 0 {
        assert(s.take(0) == Seq::<char>::empty());
    } else {
        assert(s.take(0) == s);
    }
}

pub proof fn lemma_fields_first(s: Seq<char>, sep: char, r: int)
    requires
        0 <= r <= s.len(),
        forall|k: int| 0 <= k < r ==> s[k] != sep,
        r < s.len() ==> s[r] == sep,
    ensures
        fields(s, sep).len() >= 1,
        fields(s, sep)[0] == s.take(r),
        r < s.len() ==> fields(s, sep).drop_first() == fields(s.skip(r + 1), sep),
        r == s.len() ==> fields(s, sep).len() == 1,
    decreases s.len(),
{
    if s.len() > 0 && r > 0 {
        lemma_fields_first(s.drop_first(), sep, r - 1);
        assert(seq![s[0]] + s.drop_first().take(r - 1) == s.take(r));
        if r < s.len() {
            assert(s.drop_first().skip(r) == s.skip(r + 1));
        }
    } else if s.len() > 0 {
        assert(s.take(0) == Seq::<char>::empty());
        assert(s.drop_first() == s.skip(1));
    } else {
        assert(s.take(0) == s);
    }
}

/// There is one more field than separators, and at least one.
pub proof fn lemma_fields_len(s: Seq<char>, sep: char)
    ensures
        fields(s, sep).len() >= 1,
    decreases s.len(),
{
    if s.len() > 0 {
        lemma_fields_len(s.drop_first(), sep);
    }
}

fn kind_named(term: &String) -> (r: SymbolKind)
    ensures
        r == (if term@ == "function"@ {
            SymbolKind::Function
        } else if term@ == "class"@ {
            SymbolKind::Class
        } else if term@ == "method"@ {
            SymbolKind::Method
        } else if term@ == "module"@ {
            SymbolKind::Module
        } else {
            SymbolKind::Variable
        }),
{
    if *term == String::from_str("function") {
        SymbolKind::Function
    } else if *term == String::from_str("class") {
        SymbolKind::Class
    } else if *term == String::from_str("method") {
        SymbolKind::Method
    } else if *term == String::from_str("module") {
        SymbolKind::Module
    } else {
        SymbolKind::Variable
    }
}

/// The symbol kind that a tag's kind field names (see [`kind_of`]).
pub fn convert_kind(kind: &str) -> (r: SymbolKind)
    ensures
        r == kind_of(kind@),
{
    let v = chars_of(kind);
    let end = find_sep(&v, 0, v.len(), ':');
    proof {
        lemma_before_sep(v@, ':', end as int);
    }
    let term = substring(&v, 0, end);
    kind_named(&term)
}

/// Reads a tag line (see [`tag_of`]).
#[verifier::rlimit(50)]
pub fn parse_ctags_line(line: &str) -> (r: Option<Tag>)
    ensures
        match r {
            Some(t) => tag_of(line@) == Some((t.name@, t.path@, t.line, t.kind)),
            None => tag_of(line@) is None,
        },
{
    let v = chars_of(line);
    let ghost s = v@;
    let n = v.len();
    let e0 = find_sep(&v, 0, n, '\t');
    proof {
        lemma_fields_first(s, '\t', e0 as int);
    }
    if e0 == n {
        return None;
    }
    let e1 = find_sep(&v, e0 + 1, n, '\t');
    proof {
        let t = s.skip(e0 + 1);
        lemma_fields_first(t, '\t', e1 - e0 - 1);
        assert(t.take(e1 - e0 - 1) == s.subrange(e0 + 1, e1 as int));
    }
    if e1 == n {
        return None;
    }
    let e2 = find_sep(&v, e1 + 1, n, '\t');
    proof {
        let t = s.skip(e1 + 1);
        lemma_fields_first(t, '\t', e2 - e1 - 1);
        assert(s.skip(e0 + 1).skip(e1 - e0) == t);
        assert(t.take(e2 - e1 - 1) == s.subrange(e1 + 1, e2 as int));
    }
    if e2 == n {
        return None;
    }
    let e3 = find_sep(&v, e2 + 1, n, '\t');
    proof {
        let t = s.skip(e2 + 1);
        lemma_fields_first(t, '\t', e3 - e2 - 1);
        assert(s.skip(e1 + 1).skip(e2 - e1) == t);
        assert(t.take(e3 - e2 - 1) == s.subrange(e2 + 1, e3 as int));
    }
    let ghost f = fields(s, '\t');
    assert(f.len() >= 4);
    assert(f[2] == s.subrange(e1 + 1, e2 as int));
    assert(f[3] == s.subrange(e2 + 1, e3 as int));
    let semi = find_sep(&v, e1 + 1, e2, ';');
    proof {
        lemma_before_sep(f[2], ';', semi - e1 - 1);
        assert(f[2].take(semi - e1 - 1) == s.subrange(e1 + 1, semi as int));
    }
    if semi == e2 {
        return None;
    }
    let number = parse_u32(&v, e1 + 1, semi);
    let line_number = match number {
        Some(x) => x,
        None => return None,
    };
    let kind_text = substring(&v, e2 + 1, e3);
    let kind = convert_kind(kind_text.as_str());
    let name = substring(&v, 0, e0);
    let path = substring(&v, e0 + 1, e1);
    proof {
        assert(f[0] == s.take(e0 as int));
        assert(s.subrange(0, e0 as int) == s.take(e0 as int));
        assert(f[1] == s.subrange(e0 + 1, e1 as int));
    }
    Some(Tag { name, path, line: line_number, kind })
}

} // verus!

verus! {

/// A symbol as the editor is sent it.
#[derive(Clone, Debug)]
pub struct SymbolInformation {
    pub name: String,
    pub kind: SymbolKind,
    pub uri: String,
    pub range: Range,
}

pub open spec fn texts_of_patterns(v: Seq<LinePattern>) -> Seq<Seq<char>> {
    v.map_values(|p: LinePattern| p.text())
}

/// Compiles each white-space separated word of a symbol query into a pattern.
pub fn parse_multi_regex_query(query: &str) -> (r: Result<Vec<LinePattern>, PicklsError>)
    ensures
        r is Ok <==> forall|i: int|
            0 <= i < words_of(query@).len() ==> regex_compiles(#[trigger] words_of(query@)[i]),
        r is Ok ==> texts_of_patterns(r->Ok_0@) == words_of(query@),
{
    let words = split_words(query);
    let mut regexes: Vec<LinePattern> = Vec::new();
    let mut i: usize = 0;
    while i < words.len()
        invariant
            i <= words.len(),
            texts_of(words@) == words_of(query@),
            texts_of_patterns(regexes@) == texts_of(words@.take(i as int)),
            forall|k: int| 0 <= k < i ==> regex_compiles(#[trigger] words_of(query@)[k]),
        decreases words.len() - i,
    {
        match compile_pattern(words[i].as_str()) {
            Ok(p) => {
                let ghost before = regexes@;
                regexes.push(p);
                assert(words@.take(i + 1) == words@.take(i as int).push(words@[i as int]));
                assert(texts_of_patterns(regexes@) == texts_of_patterns(before).push(p.text()));
            },
            Err(_) => {
                assert(!regex_compiles(words_of(query@)[i as int]));
                return Err(PicklsError::new(String::from_str("invalid symbol query pattern")));
            },
        }
        i = i + 1;
    }
    assert(words@.take(words.len() as int) == words@);
    Ok(regexes)
}

/// Whether every pattern matches somewhere in `name`.
pub open spec fn all_match(patterns: Seq<Seq<char>>, name: Seq<char>) -> bool {
    forall|i: int| 0 <= i < patterns.len() ==> pattern_matches(#[trigger] patterns[i], name)
}

/// Whether every pattern of the query matches somewhere in `name`.
pub fn name_matches_all(patterns: &Vec<LinePattern>, name: &str) -> (r: bool)
    ensures
        r == all_match(texts_of_patterns(patterns@), name@),
{
    let mut i: usize = 0;
    while i < patterns.len()
        invariant
            i <= patterns.len(),
            forall|k: int| 0 <= k < i ==> pattern_matches(#[trigger] patterns@[k].text(), name@),
        decreases patterns.len() - i,
    {
        if !is_match(&patterns[i], name) {
            assert(!pattern_matches(texts_of_patterns(patterns@)[i as int], name@));
            return false;
        }
        i = i + 1;
    }
    assert forall|k: int| 0 <= k < patterns@.len() implies pattern_matches(
        #[trigger] texts_of_patterns(patterns@)[k],
        name@,
    ) by {
        assert(texts_of_patterns(patterns@)[k] == patterns@[k].text());
    }
    true
}

/// The tag that an output line of the tag extractor gives, if it is a tag whose
/// name every pattern of the query matches.
pub fn select_tag(patterns: &Vec<LinePattern>, line: &str) -> (r: Option<Tag>)
    ensures
        match r {
            Some(t) => tag_of(line@) == Some((t.name@, t.path@, t.line, t.kind)) && all_match(
                texts_of_patterns(patterns@),
                t.name@,
            ),
            None => tag_of(line@) is None || !all_match(
                texts_of_patterns(patterns@),
                tag_of(line@)->Some_0.0,
            ),
        },
{
    match parse_ctags_line(line) {
        Some(t) => {
            if name_matches_all(patterns, t.name.as_str()) {
                Some(t)
            } else {
                None
            }
        },
        None => None,
    }
}

/// The symbol of a tag found in the file `uri`: it spans the whole of its line.
pub fn symbol_for(tag: Tag, uri: String) -> (r: SymbolInformation)
    ensures
        r.name == tag.name,
        r.kind == tag.kind,
        r.uri == uri,
        r.range == (Range {
            start: Position { line: one_less(tag.line), character: 0 },
            end: Position { line: tag.line, character: 0 },
        }),
{
    let start = if tag.line >= 1 { tag.line - 1 } else { 0 };
    SymbolInformation {
        name: tag.name,
        kind: tag.kind,
        uri,
        range: Range {
            start: Position { line: start, character: 0 },
            end: Position { line: tag.line, character: 0 },
        },
    }
}

/// The symbols found so far by a search, never more than its limit.
pub struct SymbolCollector {
    max_symbols: usize,
    symbols: Vec<SymbolInformation>,
}

impl SymbolCollector {
    pub closed spec fn limit(&self) -> nat {
        self.max_symbols as nat
    }

    pub closed spec fn found(&self) -> Seq<SymbolInformation> {
        self.symbols@
    }

    pub open spec fn wf(&self) -> bool {
        self.found().len() <= self.limit()
    }

    /// A search that returns at most `max_symbols` symbols.
    pub fn new(max_symbols: usize) -> (r: Self)
        ensures
            r.wf(),
            r.limit() == max_symbols,
            r.found().len() == 0,
    {
        SymbolCollector { max_symbols, symbols: Vec::new() }
    }

    /// Whether the search still takes symbols; once it does not, the tag
    /// extractor can be stopped.
    pub fn wants_more(&self) -> (r: bool)
        ensures
            r == (self.found().len() < self.limit()),
    {
        self.symbols.len() < self.max_symbols
    }

    /// Adds a symbol while the limit is not reached; says whether more are wanted.
    pub fn offer(&mut self, symbol: SymbolInformation) -> (r: bool)
        requires
            old(self).wf(),
        ensures
            final(self).wf(),
            final(self).limit() == old(self).limit(),
            final(self).found() == if old(self).found().len() < old(self).limit() {
                old(self).found().push(symbol)
            } else {
                old(self).found()
            },
            r == (final(self).found().len() < final(self).limit()),
    {
        if self.symbols.len() < self.max_symbols {
            self.symbols.push(symbol);
        }
        self.symbols.len() < self.max_symbols
    }

    /// The symbols found, in the order they were offered.
    pub fn into_symbols(self) -> (r: Vec<SymbolInformation>)
        ensures
            r@ == self.found(),
    {
        self.symbols
    }
}

/// What a search holds after `offered` is offered to it, one symbol at a time, as
/// [`SymbolCollector::offer`] does.
pub open spec fn collect(
    found: Seq<SymbolInformation>,
    offered: Seq<SymbolInformation>,
    limit: nat,
) -> Seq<SymbolInformation>
    decreases offered.len(),
{
    if offered.len() == 0 {
        found
    } else {
        let before = collect(found, offered.drop_last(), limit);
        if before.len() < limit {
            before.push(offered.last())
        } else {
            before
        }
    }
}

/// A search that starts empty keeps the first symbols offered to it, up to its limit:
/// offered more than its limit, it returns exactly its limit.
pub proof fn lemma_collect_caps(offered: Seq<SymbolInformation>, limit: nat)
    ensures
        offered.len() <= limit ==> collect(seq![], offered, limit) == offered,
        offered.len() > limit ==> collect(seq![], offered, limit) == offered.take(limit as int),
    decreases offered.len(),
{
    if offered.len() > 0 {
        let p = offered.drop_last();
        lemma_collect_caps(p, limit);
        if offered.len() <= limit {
            assert(p.push(offered.last()) == offered);
        } else if p.len() <= limit {
            assert(p == offered.take(limit as int));
        } else {
            assert(p.take(limit as int) == offered.take(limit as int));
        }
    }
}

} // verus!
