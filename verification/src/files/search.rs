//! Searching the contents of files.

use vstd::prelude::*;
use vstd::string::*;
use vstd::utf8::{encode_scalar, encode_utf8};

use crate::json::{array_view, no_fields, values, Fields, Json, JsonView};
use crate::process::{lossy, lossy_text};
use crate::text::{blank, cat2, cat3, chars_of, lines, slices, split_lines, string_of, trim};

verus! {

/// How many matches a search gives at most.
pub const SEARCH_MAX_RESULTS: usize = 500;

/// How large a file may be to be searched.
pub const MAX_FILE_BYTES: usize = 1_000_000;

/// A regular expression.
#[verifier::external_type_specification]
#[verifier::external_body]
pub struct ExRegex(regex::Regex);

/// Tells whether a character has a meaning of its own in a regular expression.
pub open spec fn is_meta(c: char) -> bool {
    c == '\\' || c == '.' || c == '+' || c == '*' || c == '?' || c == '(' || c == ')' || c == '|'
        || c == '[' || c == ']' || c == '{' || c == '}' || c == '^' || c == '$' || c == '#' || c
        == '&' || c == '-' || c == '~'
}

/// A text with a backslash before each character that has a meaning of its own.
pub open spec fn escaped(s: Seq<char>) -> Seq<char>
    decreases s.len(),
{
    if s.len() == 0 {
        Seq::empty()
    } else if is_meta(s.last()) {
        escaped(s.drop_last()).push('\\').push(s.last())
    } else {
        escaped(s.drop_last()).push(s.last())
    }
}

/// `regex::escape`: the text with a backslash before each character that has a
/// meaning of its own in a regular expression.
#[verifier::external_body]
fn escape(s: &str) -> (r: String)
    ensures
        r@ == escaped(s@),
{
    regex::escape(s)
}

/// The regular expression of a pattern, or what is wrong with it.
pub uninterp spec fn compiled(pattern: Seq<char>) -> Result<regex::Regex, Seq<char>>;

/// The view of a regular expression or of an error.
pub open spec fn regex_view(r: Result<regex::Regex, String>) -> Result<regex::Regex, Seq<char>> {
    match r {
        Ok(re) => Ok(re),
        Err(e) => Err(e@),
    }
}

/// `regex::Regex::new`: the regular expression, or the message of the error,
/// depends on the pattern alone. The grammar of patterns is left unsaid.
#[verifier::external_body]
fn compile(pattern: &str) -> (r: Result<regex::Regex, String>)
    ensures
        regex_view(r) == compiled(pattern@),
{
    regex::Regex::new(pattern).map_err(|e| e.to_string())
}

/// The matches of a regular expression in a text, each by the offset of its
/// first byte and that of the byte behind it.
pub uninterp spec fn matches_in(re: regex::Regex, text: Seq<char>) -> Seq<(int, int)>;

/// The view of a list of matches.
pub open spec fn span_views(v: Seq<(usize, usize)>) -> Seq<(int, int)> {
    Seq::new(v.len(), |i: int| (v[i].0 as int, v[i].1 as int))
}

/// Tells whether some characters of a text make up its first `n` bytes.
pub open spec fn at_boundary(text: Seq<char>, n: int) -> bool {
    exists|k: int| 0 <= k <= text.len() && encode_utf8(#[trigger] text.take(k)).len() == n
}

/// Tells whether matches lie in a text, between its characters.
pub open spec fn spans_fit(text: Seq<char>, v: Seq<(usize, usize)>) -> bool {
    forall|i: int|
        0 <= i < v.len() ==> (#[trigger] v[i]).0 <= v[i].1 && at_boundary(text, v[i].0 as int)
            && at_boundary(text, v[i].1 as int)
}

/// `regex::Regex::find_iter`: the matches depend on the expression and the text
/// alone, and each begins and ends between two characters. What matches is left
/// unsaid.
#[verifier::external_body]
fn find_all(re: &regex::Regex, text: &str) -> (r: Vec<(usize, usize)>)
    ensures
        span_views(r@) == matches_in(*re, text@),
        spans_fit(text@, r@),
{
    re.find_iter(text).map(|m| (m.start(), m.end())).collect()
}

/// A match of a search.
#[derive(Debug, PartialEq)]
pub struct SearchMatch {
    pub file: String,
    /// The line, counted from one.
    pub line_number: u32,
    pub line_text: String,
    /// How many characters of the line stand before the match.
    pub match_start: u32,
    /// How many characters of the line stand before the end of the match.
    pub match_end: u32,
}

/// What a match stands for.
pub struct MatchView {
    pub file: Seq<char>,
    pub line_number: int,
    pub line_text: Seq<char>,
    pub match_start: int,
    pub match_end: int,
}

impl View for SearchMatch {
    type V = MatchView;

    open spec fn view(&self) -> MatchView {
        MatchView {
            file: self.file@,
            line_number: self.line_number as int,
            line_text: self.line_text@,
            match_start: self.match_start as int,
            match_end: self.match_end as int,
        }
    }
}

/// The views of a list of matches.
pub open spec fn match_views(v: Seq<SearchMatch>) -> Seq<MatchView> {
    Seq::new(v.len(), |i: int| v[i]@)
}

/// Tells whether a match lies in its line, where the line is not so long that
/// its characters cannot be counted.
pub open spec fn lies_in_its_line(m: MatchView) -> bool {
    m.line_text.len() < 0x1_0000_0000 ==> m.match_start <= m.match_end <= m.line_text.len()
}

/// The pattern of a search.
pub open spec fn pattern_of(
    query: Seq<char>,
    case_sensitive: bool,
    whole_word: bool,
    regex: bool,
) -> Seq<char> {
    let plain = if regex {
        query
    } else {
        escaped(query)
    };
    let word = if whole_word {
        "\\b(?:"@ + plain + ")\\b"@
    } else {
        plain
    };
    if case_sensitive {
        word
    } else {
        "(?i)"@ + word
    }
}

/// An option, or false when nothing is said.
pub open spec fn flag_of(b: Option<bool>) -> bool {
    b == Some(true)
}

fn flag(b: Option<bool>) -> (r: bool)
    ensures
        r == flag_of(b),
{
    match b {
        Some(x) => x,
        None => false,
    }
}

/// The pattern of a search.
pub fn search_pattern(query: &str, case_sensitive: bool, whole_word: bool, regex: bool) -> (r:
    String)
    ensures
        r@ == pattern_of(query@, case_sensitive, whole_word, regex),
{
    let plain = if regex {
        query.to_owned()
    } else {
        escape(query)
    };
    let word = if whole_word {
        cat3("\\b(?:", plain.as_str(), ")\\b")
    } else {
        plain
    };
    if case_sensitive {
        word
    } else {
        cat2("(?i)", word.as_str())
    }
}

/// How many characters of a text make up its first `n` bytes.
pub open spec fn chars_before(text: Seq<char>, n: int) -> int {
    choose|k: int| 0 <= k <= text.len() && encode_utf8(#[trigger] text.take(k)).len() == n
}

/// The bytes of a text with one more character.
proof fn lemma_encode_push(s: Seq<char>, c: char)
    ensures
        encode_utf8(s.push(c)) == encode_utf8(s) + encode_scalar(c as u32),
    decreases s.len(),
{
    reveal_with_fuel(encode_utf8, 2);
    if s.len() == 0 {
        assert(s.push(c).drop_first() =~= Seq::<char>::empty());
        assert(encode_utf8(s.push(c)) =~= encode_scalar(c as u32));
        assert(encode_utf8(s) + encode_scalar(c as u32) =~= encode_scalar(c as u32));
    } else {
        assert(s.push(c).drop_first() =~= s.drop_first().push(c));
        lemma_encode_push(s.drop_first(), c);
        assert(encode_utf8(s.push(c)) =~= encode_utf8(s) + encode_scalar(c as u32));
    }
}

/// One more character makes for more bytes.
proof fn lemma_bytes_grow(text: Seq<char>, i: int, j: int)
    requires
        0 <= i < j <= text.len(),
    ensures
        encode_utf8(text.take(i)).len() < encode_utf8(text.take(j)).len(),
    decreases j - i,
{
    assert(text.take(j) =~= text.take(j - 1).push(text[j - 1]));
    lemma_encode_push(text.take(j - 1), text[j - 1]);
    if i < j - 1 {
        lemma_bytes_grow(text, i, j - 1);
    }
}

fn width_of(c: char) -> (r: usize)
    ensures
        r == encode_scalar(c as u32).len(),
{
    let n: u32 = c as u32;
    if n < 0x80 {
        1
    } else if n < 0x800 {
        2
    } else if n < 0x10000 {
        3
    } else {
        4
    }
}

/// How many characters of a text make up its first `n` bytes.
fn char_offset(text: &[char], n: usize) -> (r: usize)
    requires
        at_boundary(text@, n as int),
    ensures
        r == chars_before(text@, n as int),
        r <= text@.len(),
{
    let ghost k = chars_before(text@, n as int);
    let mut at: usize = 0;
    let mut bytes: usize = 0;
    proof {
        assert(text@.take(0) =~= Seq::<char>::empty());
        assert(0 <= k <= text@.len() && encode_utf8(text@.take(k)).len() == n);
    }
    while bytes < n
        invariant
            at <= k <= text@.len(),
            bytes == encode_utf8(text@.take(at as int)).len(),
            bytes <= n,
            encode_utf8(text@.take(k)).len() == n,
        decreases k - at,
    {
        proof {
            if at == k {
                assert(false);
            }
            assert(text@.take(at + 1) =~= text@.take(at as int).push(text@[at as int]));
            lemma_encode_push(text@.take(at as int), text@[at as int]);
            if at + 1 < k {
                lemma_bytes_grow(text@, at + 1, k);
            }
        }
        bytes = bytes + width_of(text[at]);
        at = at + 1;
    }
    proof {
        if at < k {
            lemma_bytes_grow(text@, at as int, k);
        }
    }
    at
}

/// Fewer bytes are made up by fewer characters.
proof fn lemma_chars_before(text: Seq<char>, a: int, b: int)
    requires
        a <= b,
        at_boundary(text, a),
        at_boundary(text, b),
    ensures
        0 <= chars_before(text, a) <= chars_before(text, b) <= text.len(),
{
    let i = chars_before(text, a);
    let j = chars_before(text, b);
    assert(0 <= i <= text.len() && encode_utf8(text.take(i)).len() == a);
    assert(0 <= j <= text.len() && encode_utf8(text.take(j)).len() == b);
    if j < i {
        lemma_bytes_grow(text, j, i);
    }
}

/// The matches in a line.
pub open spec fn line_matches(
    re: regex::Regex,
    file: Seq<char>,
    index: int,
    line: Seq<char>,
) -> Seq<MatchView> {
    let found = matches_in(re, line);
    Seq::new(
        found.len(),
        |i: int|
            MatchView {
                file,
                line_number: (index + 1) % 0x1_0000_0000,
                line_text: line,
                match_start: chars_before(line, found[i].0) % 0x1_0000_0000,
                match_end: chars_before(line, found[i].1) % 0x1_0000_0000,
            },
    )
}

/// The matches in the first `n` lines of a file.
pub open spec fn lines_matches(
    re: regex::Regex,
    file: Seq<char>,
    all: Seq<Seq<char>>,
    n: nat,
) -> Seq<MatchView>
    decreases n,
{
    if n == 0 {
        Seq::empty()
    } else {
        lines_matches(re, file, all, (n - 1) as nat) + line_matches(re, file, n - 1, all[n - 1])
    }
}

/// The matches in a file: none in one that is too large or not a text.
pub open spec fn file_matches(re: regex::Regex, file: Seq<char>, bytes: Seq<u8>) -> Seq<
    MatchView,
> {
    if bytes.len() > MAX_FILE_BYTES || bytes.contains(0u8) {
        Seq::empty()
    } else {
        let all = lines(lossy(bytes));
        lines_matches(re, file, all, all.len())
    }
}

/// As many matches as a search gives.
pub open spec fn capped(v: Seq<MatchView>) -> Seq<MatchView> {
    if v.len() > SEARCH_MAX_RESULTS {
        v.take(SEARCH_MAX_RESULTS as int)
    } else {
        v
    }
}

/// A search over files.
pub struct Search {
    re: regex::Regex,
    matches: Vec<SearchMatch>,
}

/// What a search stands for.
pub struct SearchView {
    pub re: regex::Regex,
    pub matches: Seq<MatchView>,
}

impl View for Search {
    type V = SearchView;

    closed spec fn view(&self) -> SearchView {
        SearchView { re: self.re, matches: match_views(self.matches@) }
    }
}

fn has_nul(bytes: &[u8]) -> (r: bool)
    ensures
        r == bytes@.contains(0u8),
{
    let mut i: usize = 0;
    while i < bytes.len()
        invariant
            i <= bytes@.len(),
            forall|j: int| 0 <= j < i ==> bytes@[j] != 0,
        decreases bytes@.len() - i,
    {
        if bytes[i] == 0 {
            assert(bytes@[i as int] == 0u8);
            return true;
        }
        i += 1;
    }
    false
}

/// A number of 32 bits out of one that may be larger.
fn low_bits(n: usize) -> (r: u32)
    ensures
        r == n as int % 0x1_0000_0000,
{
    let m: u64 = n as u64 % 0x1_0000_0000;
    m as u32
}

impl Search {
    /// No more matches than a search gives, and each in its line.
    pub closed spec fn wf(&self) -> bool {
        &&& self.matches@.len() <= SEARCH_MAX_RESULTS
        &&& forall|i: int|
            0 <= i < self.matches@.len() ==> lies_in_its_line((#[trigger] self.matches@[i])@)
    }

    /// Tells whether the search has all the matches that it gives.
    pub fn is_full(&self) -> (r: bool)
        ensures
            r == (self@.matches.len() >= SEARCH_MAX_RESULTS),
    {
        self.matches.len() >= SEARCH_MAX_RESULTS
    }

    fn add_line(&mut self, file: &str, index: usize, line: &[char])
        requires
            old(self).wf(),
        ensures
            final(self).wf(),
            final(self)@.re == old(self)@.re,
            final(self)@.matches == capped(
                old(self)@.matches + line_matches(old(self)@.re, file@, index as int, line@),
            ),
    {
        let text = string_of(line);
        let spans = find_all(&self.re, text.as_str());
        let ghost before = self@.matches;
        let ghost re = self.re;
        let ghost all = line_matches(re, file@, index as int, line@);
        let number: u32 = low_bits(if index < usize::MAX { index + 1 } else { 0 });
        proof {
            if index == usize::MAX {
                assert((index + 1) % 0x1_0000_0000 == 0);
            }
        }
        assert(spans@.len() == span_views(spans@).len());
        let mut i: usize = 0;
        assert(before + all.take(0) =~= before);
        while i < spans.len() && self.matches.len() < SEARCH_MAX_RESULTS
            invariant
                i <= spans@.len(),
                self.wf(),
                self.re == re,
                text@ == line@,
                number == (index + 1) % 0x1_0000_0000,
                all == line_matches(re, file@, index as int, line@),
                span_views(spans@) == matches_in(re, line@),
                spans_fit(line@, spans@),
                all.len() == spans@.len(),
                self@.matches == before + all.take(i as int),
            decreases spans@.len() - i,
        {
            let ghost now = self@.matches;
            let (a, b) = spans[i];
            assert(span_views(spans@)[i as int] == (a as int, b as int));
            assert(at_boundary(line@, spans@[i as int].0 as int));
            let m = SearchMatch {
                file: file.to_owned(),
                line_number: number,
                line_text: text.clone(),
                match_start: low_bits(char_offset(line, a)),
                match_end: low_bits(char_offset(line, b)),
            };
            assert(m@ == all[i as int]);
            assert(lies_in_its_line(m@)) by {
                lemma_chars_before(line@, a as int, b as int);
            }
            self.matches.push(m);
            assert(self@.matches =~= now.push(m@));
            assert(self@.matches =~= before + all.take(i + 1));
            i += 1;
        }
        proof {
            if i == spans@.len() {
                assert(all.take(i as int) =~= all);
                assert(capped(before + all) =~= before + all);
            } else {
                assert(capped(before + all) =~= before + all.take(i as int));
            }
        }
    }

    /// Searches a file.
    pub fn search_file(&mut self, file: &str, bytes: &[u8])
        requires
            old(self).wf(),
        ensures
            final(self).wf(),
            final(self)@.re == old(self)@.re,
            final(self)@.matches == capped(
                old(self)@.matches + file_matches(old(self)@.re, file@, bytes@),
            ),
    {
        let ghost before = self@.matches;
        let ghost re = self.re;
        if bytes.len() > MAX_FILE_BYTES || has_nul(bytes) {
            assert(before + file_matches(re, file@, bytes@) =~= before);
            return;
        }
        let content = lossy_text(bytes);
        let chars = chars_of(content.as_str());
        let all = split_lines(chars.as_slice());
        let ghost told = lines(lossy(bytes@));
        let mut i: usize = 0;
        assert(before + lines_matches(re, file@, told, 0) =~= before);
        while i < all.len()
            invariant
                i <= all@.len(),
                told == slices(all@),
                self.wf(),
                self@.re == re,
                self@.matches == capped(before + lines_matches(re, file@, told, i as nat)),
            decreases all@.len() - i,
        {
            let ghost so_far = lines_matches(re, file@, told, i as nat);
            let ghost more = line_matches(re, file@, i as int, told[i as int]);
            assert(told[i as int] == all@[i as int]@);
            self.add_line(file, i, all[i]);
            proof {
                lemma_capped(before + so_far, more);
                assert((before + so_far) + more =~= before + (so_far + more));
            }
            i += 1;
        }
    }

    /// The matches, each of which lies in its line.
    pub fn into_matches(self) -> (r: Vec<SearchMatch>)
        requires
            self.wf(),
        ensures
            match_views(r@) == self@.matches,
            r@.len() <= SEARCH_MAX_RESULTS,
            forall|i: int| 0 <= i < r@.len() ==> lies_in_its_line((#[trigger] r@[i])@),
    {
        self.matches
    }
}

/// Capping on the way makes no difference.
proof fn lemma_capped(a: Seq<MatchView>, b: Seq<MatchView>)
    ensures
        capped(capped(a) + b) == capped(a + b),
{
    assert(capped(capped(a) + b) =~= capped(a + b));
}

/// Begins a search. One for nothing finds nothing, and a pattern that is no
/// regular expression is refused.
pub fn search_in_files(
    query: &str,
    case_sensitive: Option<bool>,
    whole_word: Option<bool>,
    regex: Option<bool>,
) -> (r: Result<Option<Search>, String>)
    ensures
        ({
            let pattern = pattern_of(
                query@,
                flag_of(case_sensitive),
                flag_of(whole_word),
                flag_of(regex),
            );
            if trim(query@).len() == 0 {
                r matches Ok(None)
            } else {
                match compiled(pattern) {
                    Err(e) => r matches Err(t) && t@ == "Invalid search: "@ + e,
                    Ok(re) => r matches Ok(Some(s)) && s.wf() && s@.re == re && s@.matches
                        == Seq::<MatchView>::empty(),
                }
            }
        }),
{
    if blank(query) {
        return Ok(None);
    }
    let pattern = search_pattern(query, flag(case_sensitive), flag(whole_word), flag(regex));
    match compile(pattern.as_str()) {
        Err(e) => Err(cat2("Invalid search: ", e.as_str())),
        Ok(re) => {
            let s = Search { re, matches: Vec::new() };
            assert(s@.matches =~= Seq::<MatchView>::empty());
            Ok(Some(s))
        },
    }
}

/// The matches in several files, in the order of the files, as many as a search
/// gives.
pub open spec fn found_in(re: regex::Regex, files: Seq<(Seq<char>, Seq<u8>)>) -> Seq<MatchView>
    decreases files.len(),
{
    if files.len() == 0 {
        Seq::empty()
    } else {
        capped(
            found_in(re, files.drop_last()) + file_matches(
                re,
                files.last().0,
                files.last().1,
            ),
        )
    }
}

/// A search gives no more matches than it may, and once it has them all, further
/// files change nothing.
pub proof fn search_is_bounded(re: regex::Regex, files: Seq<(Seq<char>, Seq<u8>)>)
    ensures
        found_in(re, files).len() <= SEARCH_MAX_RESULTS,
        forall|file: Seq<char>, bytes: Seq<u8>|
            found_in(re, files).len() == SEARCH_MAX_RESULTS ==> #[trigger] found_in(
                re,
                files.push((file, bytes)),
            ) == found_in(re, files),
    decreases files.len(),
{
    assert forall|file: Seq<char>, bytes: Seq<u8>|
        found_in(re, files).len() == SEARCH_MAX_RESULTS implies #[trigger] found_in(
        re,
        files.push((file, bytes)),
    ) == found_in(re, files) by {
        let more = files.push((file, bytes));
        assert(more.drop_last() =~= files);
        assert(found_in(re, more) =~= found_in(re, files));
    }
}

/// A match as a client is told it.
pub open spec fn match_json(m: SearchMatch) -> JsonView {
    JsonView::Object(
        no_fields().push(("file"@, JsonView::Str(m.file@))).push(
            ("lineNumber"@, JsonView::Unsigned(m.line_number as u64)),
        ).push(("lineText"@, JsonView::Str(m.line_text@))).push(
            ("matchStart"@, JsonView::Unsigned(m.match_start as u64)),
        ).push(("matchEnd"@, JsonView::Unsigned(m.match_end as u64))),
    )
}

/// The matches as a client is told them.
pub fn matches_to_json(v: &Vec<SearchMatch>) -> (r: Json)
    ensures
        r@ == JsonView::Array(Seq::new(v@.len(), |i: int| match_json(v@[i]))),
{
    let mut out: Vec<Json> = Vec::new();
    let mut i: usize = 0;
    while i < v.len()
        invariant
            i <= v@.len(),
            out@.len() == i,
            forall|j: int| 0 <= j < i ==> (#[trigger] out@[j])@ == match_json(v@[j]),
        decreases v@.len() - i,
    {
        let m = &v[i];
        let j = Fields::new().text("file", m.file.as_str()).number(
            "lineNumber",
            m.line_number as u64,
        ).text("lineText", m.line_text.as_str()).number(
            "matchStart",
            m.match_start as u64,
        ).number("matchEnd", m.match_end as u64).object();
        out.push(j);
        i += 1;
    }
    proof {
        array_view(out);
        assert(values(out@) =~= Seq::new(v@.len(), |i: int| match_json(v@[i])));
    }
    Json::Array(out)
}

/// The options of a search do not depend on one another: one that does not heed case
/// has the pattern of the one that does behind `(?i)`, one for whole words has the
/// other's between word boundaries, and a regular expression is the query itself.
pub proof fn options_are_independent(
    query: Seq<char>,
    case_sensitive: bool,
    whole_word: bool,
    regex: bool,
)
    ensures
        pattern_of(query, false, whole_word, regex) == "(?i)"@ + pattern_of(
            query,
            true,
            whole_word,
            regex,
        ),
        pattern_of(query, true, true, regex) == "\\b(?:"@ + pattern_of(query, true, false, regex)
            + ")\\b"@,
        pattern_of(query, true, false, true) == query,
        pattern_of(query, true, false, false) == escaped(query),
{
}

/// A text without the backslash before each character that follows one.
pub open spec fn unescaped(s: Seq<char>) -> Seq<char>
    decreases s.len(),
{
    if s.len() == 0 {
        Seq::empty()
    } else if s[0] == '\\' && s.len() > 1 {
        seq![s[1]] + unescaped(s.skip(2))
    } else {
        seq![s[0]] + unescaped(s.skip(1))
    }
}

/// A plain search is one for the query itself: escaping it loses nothing, and leaves no
/// character with a meaning of its own without a backslash before it. A query without
/// such characters stays as it is.
pub proof fn plain_queries_stand_for_themselves(query: Seq<char>)
    ensures
        unescaped(escaped(query)) == query,
        (forall|i: int| 0 <= i < query.len() ==> !is_meta(#[trigger] query[i])) ==> escaped(query)
            == query,
        forall|i: int|
            0 <= i < escaped(query).len() && is_meta(#[trigger] escaped(query)[i]) && escaped(
                query,
            )[i] != '\\' ==> i > 0 && escaped(query)[i - 1] == '\\',
    decreases query.len(),
{
    if query.len() > 0 {
        let front = query.drop_last();
        plain_queries_stand_for_themselves(front);
        let last = query.last();
        if is_meta(last) {
            lemma_unescaped_end(front, seq!['\\', last]);
            assert(escaped(query) =~= escaped(front) + seq!['\\', last]);
            reveal_with_fuel(unescaped, 3);
            assert(seq!['\\', last].skip(2) =~= Seq::<char>::empty());
            assert(unescaped(seq!['\\', last]) =~= seq![last]);
        } else {
            lemma_unescaped_end(front, seq![last]);
            assert(escaped(query) =~= escaped(front) + seq![last]);
            reveal_with_fuel(unescaped, 3);
            assert(seq![last].skip(1) =~= Seq::<char>::empty());
            assert(unescaped(seq![last]) =~= seq![last]);
        }
        assert(front + seq![last] =~= query);
        if forall|i: int| 0 <= i < query.len() ==> !is_meta(#[trigger] query[i]) {
            assert forall|i: int| 0 <= i < front.len() implies !is_meta(#[trigger] front[i]) by {
                assert(front[i] == query[i]);
            }
            assert(escaped(query) =~= query);
        }
    }
}

/// What follows an escaped text is read on its own.
proof fn lemma_unescaped_end(s: Seq<char>, tail: Seq<char>)
    ensures
        unescaped(escaped(s) + tail) == s + unescaped(tail),
    decreases s.len(),
{
    if s.len() == 0 {
        assert(escaped(s) + tail =~= tail);
        assert(s + unescaped(tail) =~= unescaped(tail));
    } else {
        let front = s.drop_last();
        let c = s.last();
        if is_meta(c) {
            let more = seq!['\\', c] + tail;
            lemma_unescaped_end(front, more);
            assert(escaped(s) + tail =~= escaped(front) + more);
            assert(more.skip(2) =~= tail);
            assert(unescaped(more) =~= seq![c] + unescaped(tail));
        } else {
            let more = seq![c] + tail;
            lemma_unescaped_end(front, more);
            assert(escaped(s) + tail =~= escaped(front) + more);
            assert(more.skip(1) =~= tail);
            assert(unescaped(more) =~= seq![c] + unescaped(tail));
        }
        assert(front + (seq![c] + unescaped(tail)) =~= s + unescaped(tail));
    }
}

/// A match of a search in a file is told with the file, with the line in which it stands,
/// counted from one, and with the characters before it and before its end. The bytes of
/// these are where the expression matches.
pub open spec fn is_told_right(
    re: regex::Regex,
    file: Seq<char>,
    all: Seq<Seq<char>>,
    m: MatchView,
) -> bool {
    &&& m.file == file
    &&& 1 <= m.line_number <= all.len()
    &&& m.line_text == all[m.line_number - 1]
    &&& exists|k: int|
        0 <= k < matches_in(re, m.line_text).len() && {
            let span = #[trigger] matches_in(re, m.line_text)[k];
            &&& at_boundary(m.line_text, span.0) ==> encode_utf8(
                m.line_text.take(m.match_start),
            ).len() == span.0
            &&& at_boundary(m.line_text, span.1) ==> encode_utf8(
                m.line_text.take(m.match_end),
            ).len() == span.1
        }
}

/// Every match that is told of a file is told right, and as many are told as there are in
/// its lines; where a file or a line is too long for its lines or characters to be counted,
/// nothing is said here.
pub proof fn matches_are_told_right(re: regex::Regex, file: Seq<char>, all: Seq<Seq<char>>, n: nat)
    requires
        n <= all.len() < 0x1_0000_0000,
        forall|i: int| 0 <= i < all.len() ==> (#[trigger] all[i]).len() < 0x1_0000_0000,
    ensures
        forall|j: int|
            0 <= j < lines_matches(re, file, all, n).len() ==> is_told_right(
                re,
                file,
                all,
                #[trigger] lines_matches(re, file, all, n)[j],
            ),
        n > 0 ==> lines_matches(re, file, all, n).len() == lines_matches(
            re,
            file,
            all,
            (n - 1) as nat,
        ).len() + matches_in(re, all[n - 1]).len(),
    decreases n,
{
    if n > 0 {
        let before = lines_matches(re, file, all, (n - 1) as nat);
        let more = line_matches(re, file, n - 1, all[n - 1]);
        let found = matches_in(re, all[n - 1]);
        matches_are_told_right(re, file, all, (n - 1) as nat);
        assert forall|j: int| 0 <= j < (before + more).len() implies is_told_right(
            re,
            file,
            all,
            #[trigger] (before + more)[j],
        ) by {
            if j >= before.len() {
                let k = j - before.len();
                let m = more[k];
                let line = all[n - 1];
                assert((before + more)[j] == m);
                assert(all[n - 1].len() < 0x1_0000_0000);
                let span = matches_in(re, m.line_text)[k];
                if at_boundary(line, span.0) {
                    let a = chars_before(line, span.0);
                    assert(0 <= a <= line.len() && encode_utf8(line.take(a)).len() == span.0);
                }
                if at_boundary(line, span.1) {
                    let b = chars_before(line, span.1);
                    assert(0 <= b <= line.len() && encode_utf8(line.take(b)).len() == span.1);
                }
            }
        }
    }
}

/// A file is searched by the lines of its text, unless it is larger than a million bytes or
/// holds a zero byte; and a search gives no more than five hundred matches, the first ones.
pub proof fn searches_pass_over_what_is_no_text(
    re: regex::Regex,
    file: Seq<char>,
    bytes: Seq<u8>,
    before: Seq<MatchView>,
)
    ensures
        bytes.len() > 1_000_000 || bytes.contains(0u8) ==> file_matches(re, file, bytes).len() == 0,
        bytes.len() <= 1_000_000 && !bytes.contains(0u8) ==> file_matches(re, file, bytes)
            == lines_matches(re, file, lines(lossy(bytes)), lines(lossy(bytes)).len()),
        before.len() <= 500 ==> capped(before) == before,
        before.len() > 500 ==> capped(before) == before.take(500),
{
}

/// A match is told to a client under the names of what it holds.
pub proof fn matches_are_told_by_name(m: SearchMatch)
    ensures
        match_json(m).says("file"@, JsonView::Str(m.file@)),
        match_json(m).says("lineNumber"@, JsonView::Unsigned(m.line_number as u64)),
        match_json(m).says("lineText"@, JsonView::Str(m.line_text@)),
        match_json(m).says("matchStart"@, JsonView::Unsigned(m.match_start as u64)),
        match_json(m).says("matchEnd"@, JsonView::Unsigned(m.match_end as u64)),
{
    let f = match_json(m)->Object_0;
    assert(f[0].0 == "file"@ && f[1].0 == "lineNumber"@ && f[2].0 == "lineText"@);
    assert(f[3].0 == "matchStart"@ && f[4].0 == "matchEnd"@);
}

/// An option of a search of which nothing is said is off.
pub proof fn options_are_off_unless_asked_for(b: bool)
    ensures
        flag_of(None) == flag_of(Some(false)),
        flag_of(Some(b)) == b,
{
}

} // verus!
