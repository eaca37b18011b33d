//! The shared layer of `fs.grep` and `fff.grep`: the request, the file
//! filter, the matchers and the collection of results under the request's
//! limits.

use vstd::prelude::*;
use vstd::string::StringSliceAdditionalSpecFns;
use vstd::utf8::{encode_utf8, is_char_boundary};
use crate::grep_match::{bytes_occur_at, first_occurrence, LiteralMatcher};
use crate::text::{push_str_chars, str_chars, string_of};
use grep_matcher::Matcher;

verus! {

// ── The request ──────────────────────────────────────────────────────

/// How the pattern is read.
#[derive(Debug, Clone, Copy, PartialEq, Eq, Structural)]
pub enum GrepMode {
    Regex,
    Plain,
}

/// What `optional_grep_mode` gives for the `mode` option (absent or text).
pub open spec fn grep_mode_spec(mode: Option<Seq<char>>, fn_name: Seq<char>) -> Result<GrepMode, Seq<char>> {
    match mode {
        None => Ok(GrepMode::Regex),
        Some(m) => if m == "regex"@ {
            Ok(GrepMode::Regex)
        } else if m == "plain"@ {
            Ok(GrepMode::Plain)
        } else {
            Err(fn_name + ": unsupported mode '"@ + m + "' (supported: regex, plain)"@)
        },
    }
}

/// The mode of a request from its `mode` option: regex when absent.
pub fn grep_mode_from(mode: Option<&str>, fn_name: &str) -> (r: Result<GrepMode, String>)
    ensures
        match grep_mode_spec(
            match mode {
                Some(m) => Some(m@),
                None => None,
            },
            fn_name@,
        ) {
            Ok(g) => r == Ok::<GrepMode, String>(g),
            Err(e) => r matches Err(m) && m@ == e,
        },
{
    match mode {
        None => Ok(GrepMode::Regex),
        Some(m) => {
            if crate::text::str_eq(m, "regex") {
                Ok(GrepMode::Regex)
            } else if crate::text::str_eq(m, "plain") {
                Ok(GrepMode::Plain)
            } else {
                let mut e = str_chars(fn_name);
                push_str_chars(&mut e, ": unsupported mode '");
                push_str_chars(&mut e, m);
                push_str_chars(&mut e, "' (supported: regex, plain)");
                Err(string_of(&e))
            }
        },
    }
}

/// A grep request.
pub struct GrepRequest {
    pub pattern: String,
    pub path: String,
    pub mode: GrepMode,
    pub glob: Option<String>,
    pub max_count: Option<usize>,
    pub files_only: bool,
}

/// A matching line of a file.
pub struct GrepMatch {
    pub file: String,
    pub line_number: u64,
    pub line: String,
    pub match_text: String,
    pub column: Option<usize>,
}

/// One result: a matching line, or (for `files_only`) a matching file.
pub enum GrepResult {
    Match(GrepMatch),
    File(String),
}

/// What a result holds.
pub enum ResultView {
    Match { file: Seq<char>, line_number: u64, line: Seq<char>, match_text: Seq<char>, column: Option<usize> },
    File(Seq<char>),
}

impl View for GrepResult {
    type V = ResultView;

    open spec fn view(&self) -> ResultView {
        match self {
            GrepResult::Match(m) => ResultView::Match {
                file: m.file@,
                line_number: m.line_number,
                line: m.line@,
                match_text: m.match_text@,
                column: m.column,
            },
            GrepResult::File(f) => ResultView::File(f@),
        }
    }
}

/// The failures of a search.
pub enum GrepError {
    InvalidGlob(String),
    InvalidPattern(String),
    Usage(String),
    Mount(String),
    Search(String),
}

impl GrepError {
    /// The message of the error as the function `fn_name` reports it.
    pub fn message(&self, fn_name: &str) -> (r: String)
        ensures
            r@ == match self {
                GrepError::InvalidGlob(m) => fn_name@ + ": invalid glob: "@ + m@,
                GrepError::InvalidPattern(m) => fn_name@ + ": invalid pattern: "@ + m@,
                GrepError::Usage(m) => fn_name@ + ": "@ + m@,
                GrepError::Mount(m) => m@,
                GrepError::Search(m) => fn_name@ + ": "@ + m@,
            },
    {
        let mut out = str_chars(fn_name);
        match self {
            GrepError::InvalidGlob(m) => {
                push_str_chars(&mut out, ": invalid glob: ");
                push_str_chars(&mut out, m.as_str());
            },
            GrepError::InvalidPattern(m) => {
                push_str_chars(&mut out, ": invalid pattern: ");
                push_str_chars(&mut out, m.as_str());
            },
            GrepError::Usage(m) => {
                push_str_chars(&mut out, ": ");
                push_str_chars(&mut out, m.as_str());
            },
            GrepError::Mount(m) => {
                out = str_chars(m.as_str());
            },
            GrepError::Search(m) => {
                push_str_chars(&mut out, ": ");
                push_str_chars(&mut out, m.as_str());
            },
        }
        string_of(&out)
    }
}

/// The check of the fff provider: the pattern must not be empty.
pub fn check_pattern(request: &GrepRequest) -> (r: Result<(), GrepError>)
    ensures
        request.pattern@.len() > 0 <==> r is Ok,
        r matches Err(e) ==> (e matches GrepError::Usage(m) && m@ == "field 'pattern' must not be empty"@),
{
    if request.pattern.as_str().is_empty() {
        Err(GrepError::Usage(string_of(&str_chars("field 'pattern' must not be empty"))))
    } else {
        Ok(())
    }
}

// ── Files ────────────────────────────────────────────────────────────

/// The sandbox path of a file found under the directory `dir` at the
/// relative path `relative`: the directory itself for an empty relative path,
/// else the two joined by one `/`.
pub open spec fn virtual_file_path_spec(dir: Seq<char>, relative: Seq<char>) -> Seq<char> {
    if relative.len() == 0 {
        dir
    } else if dir.len() > 0 && dir.last() == '/' {
        dir + relative
    } else {
        dir + "/"@ + relative
    }
}

/// The sandbox path of a file found while walking the directory `dir`.
pub fn virtual_file_path(dir: &str, relative: &str) -> (r: String)
    ensures
        r@ == virtual_file_path_spec(dir@, relative@),
{
    let d = str_chars(dir);
    if relative.is_empty() {
        return string_of(&d);
    }
    let mut out = str_chars(dir);
    if !(d.len() > 0 && d[d.len() - 1] == '/') {
        push_str_chars(&mut out, "/");
    }
    push_str_chars(&mut out, relative);
    string_of(&out)
}

#[verifier::external_type_specification]
#[verifier::external_body]
pub struct ExGlobSet(globset::GlobSet);

/// Whether the glob `pattern` of the `globset` crate matches the file name.
pub uninterp spec fn glob_matches(pattern: Seq<char>, name: Seq<char>) -> bool;

/// The message of the `globset` crate's error for a glob it refuses.
pub uninterp spec fn glob_error_text(pattern: Seq<char>) -> Seq<char>;

/// Whether the `globset` crate accepts the glob `pattern`.
pub uninterp spec fn glob_accepted(pattern: Seq<char>) -> bool;

/// The glob of a request, compiled. It is made only by `compile_glob`, so
/// `set` is the set built from `pattern`.
pub struct FileGlob {
    pattern: String,
    set: globset::GlobSet,
}

impl FileGlob {
    /// The glob's text.
    pub closed spec fn pattern_view(&self) -> Seq<char> {
        self.pattern@
    }
}

/// `Glob::new` and `GlobSetBuilder::build` from the `globset` crate: the set
/// of the one glob `pattern`, or the message of the error. Whether it is
/// accepted is named by `glob_accepted`, its message by `glob_error_text`.
#[verifier::external_body]
fn build_glob_set(pattern: &str) -> (r: Result<globset::GlobSet, String>)
    ensures
        glob_accepted(pattern@) <==> r is Ok,
        r matches Err(e) ==> e@ == glob_error_text(pattern@),
{
    let glob = globset::Glob::new(pattern).map_err(|e| e.to_string())?;
    let mut builder = globset::GlobSetBuilder::new();
    builder.add(glob);
    builder.build().map_err(|e| e.to_string())
}

/// `GlobSet::is_match` from the `globset` crate on a file name, for the set
/// that `compile_glob` built from `glob`'s pattern; named by `glob_matches`.
#[verifier::external_body]
fn glob_set_matches(glob: &FileGlob, name: &str) -> (r: bool)
    ensures
        r == glob_matches(glob.pattern_view(), name@),
{
    glob.set.is_match(name)
}

/// The glob of a request, or the invalid-glob error.
pub fn compile_glob(pattern: &str) -> (r: Result<FileGlob, GrepError>)
    ensures
        glob_accepted(pattern@) <==> r is Ok,
        r matches Ok(g) ==> g.pattern_view() == pattern@,
        r matches Err(e) ==> (e matches GrepError::InvalidGlob(m) && m@ == glob_error_text(pattern@)),
{
    match build_glob_set(pattern) {
        Ok(set) => Ok(FileGlob { pattern: string_of(&str_chars(pattern)), set }),
        Err(e) => Err(GrepError::InvalidGlob(e)),
    }
}

/// Whether a walked file is searched: every file without a glob; with one,
/// a file whose name is text and matches it.
pub fn keeps_file(glob: Option<&FileGlob>, name: Option<&str>) -> (r: bool)
    ensures
        r == match glob {
            None => true,
            Some(g) => match name {
                Some(n) => glob_matches(g.pattern_view(), n@),
                None => false,
            },
        },
{
    match glob {
        None => true,
        Some(g) => match name {
            Some(n) => glob_set_matches(g, n),
            None => false,
        },
    }
}

// ── Matchers ─────────────────────────────────────────────────────────

#[verifier::external_type_specification]
#[verifier::external_body]
pub struct ExRegexMatcher(grep_regex::RegexMatcher);

/// Whether the `grep-regex` crate accepts `pattern` (read literally when
/// `fixed`).
pub uninterp spec fn regex_accepted(pattern: Seq<char>, fixed: bool) -> bool;

/// The message of the `grep-regex` crate's error for a pattern it refuses.
pub uninterp spec fn regex_error_text(pattern: Seq<char>, fixed: bool) -> Seq<char>;

/// The first match, as a byte range, of the `grep-regex` matcher of `pattern`
/// (read literally when `fixed`) in `haystack`.
pub uninterp spec fn regex_first_match(pattern: Seq<char>, fixed: bool, haystack: Seq<u8>) -> Option<(usize, usize)>;

/// A compiled pattern. It is made only by `build_regex_matcher`, so `matcher`
/// is the matcher built from `pattern` and `fixed`.
pub struct PatternMatcher {
    pattern: String,
    fixed: bool,
    matcher: grep_regex::RegexMatcher,
}

impl PatternMatcher {
    /// The pattern's text.
    pub closed spec fn pattern_view(&self) -> Seq<char> {
        self.pattern@
    }

    /// Whether the pattern is read literally.
    pub closed spec fn is_fixed(&self) -> bool {
        self.fixed
    }
}

/// `RegexMatcherBuilder::build` from the `grep-regex` crate, with
/// `fixed_strings` set for a literal pattern: the matcher, or the message of
/// the error. Acceptance is named by `regex_accepted`, the message by
/// `regex_error_text`.
#[verifier::external_body]
fn build_matcher(pattern: &str, fixed: bool) -> (r: Result<grep_regex::RegexMatcher, String>)
    ensures
        regex_accepted(pattern@, fixed) <==> r is Ok,
        r matches Err(e) ==> e@ == regex_error_text(pattern@, fixed),
{
    let mut builder = grep_regex::RegexMatcherBuilder::new();
    if fixed {
        builder.fixed_strings(true);
    }
    builder.build(pattern).map_err(|e| e.to_string())
}

/// `Matcher::find` of the `grep-matcher` crate on the matcher that
/// `build_regex_matcher` built from `m`'s pattern: the first match as a byte
/// range of the haystack (the matcher never fails), named by
/// `regex_first_match`.
#[verifier::external_body]
fn matcher_find(m: &PatternMatcher, haystack: &[u8]) -> (r: Option<(usize, usize)>)
    ensures
        r == regex_first_match(m.pattern_view(), m.is_fixed(), haystack@),
        r matches Some((s, e)) ==> s <= e <= haystack@.len(),
{
    m.matcher.find(haystack).ok().flatten().map(|found| (found.start(), found.end()))
}

/// The matcher of a request's pattern: literal in plain mode.
pub fn build_regex_matcher(pattern: &str, mode: GrepMode) -> (r: Result<PatternMatcher, GrepError>)
    ensures
        regex_accepted(pattern@, mode == GrepMode::Plain) <==> r is Ok,
        r matches Ok(m) ==> m.pattern_view() == pattern@ && m.is_fixed() == (mode == GrepMode::Plain),
        r matches Err(e) ==> (e matches GrepError::InvalidPattern(t) && t@ == regex_error_text(
            pattern@,
            mode == GrepMode::Plain,
        )),
{
    let fixed = match mode {
        GrepMode::Plain => true,
        GrepMode::Regex => false,
    };
    match build_matcher(pattern, fixed) {
        Ok(matcher) => Ok(PatternMatcher { pattern: string_of(&str_chars(pattern)), fixed, matcher }),
        Err(e) => Err(GrepError::InvalidPattern(e)),
    }
}

/// What finds the match text in a matching line.
pub enum MatchExtractor {
    Plain(Vec<u8>),
    Regex(PatternMatcher),
}

impl MatchExtractor {
    /// The first match in `line`, as a byte range.
    pub open spec fn find_spec(&self, line: Seq<u8>) -> Option<(usize, usize)> {
        match self {
            MatchExtractor::Plain(needle) => match first_occurrence(line, needle@) {
                Some(i) => Some((i as usize, (i + needle@.len()) as usize)),
                None => None,
            },
            MatchExtractor::Regex(m) => regex_first_match(m.pattern_view(), m.is_fixed(), line),
        }
    }

    /// The first match in `line`, as a byte range.
    pub fn find(&self, line: &[u8]) -> (r: Option<(usize, usize)>)
        ensures
            r == self.find_spec(line@),
            r matches Some((s, e)) ==> s <= e <= line@.len(),
    {
        match self {
            MatchExtractor::Plain(needle) => {
                let lm = LiteralMatcher::new(needle.clone());
                proof {
                    assert(line@.skip(0) =~= line@);
                }
                lm.find_at(line, 0)
            },
            MatchExtractor::Regex(m) => matcher_find(m, line),
        }
    }
}

// ── Collecting results ───────────────────────────────────────────────

/// Whether `n` results reach the request's limit.
pub open spec fn limit_reached(max_count: Option<usize>, n: nat) -> bool {
    match max_count {
        Some(m) => n >= m,
        None => false,
    }
}

/// A matching line of the file being searched.
pub struct FileHit {
    pub line_number: u64,
    pub line: String,
    pub match_text: String,
    pub column: Option<usize>,
}

/// The result of a hit in `file`.
pub open spec fn hit_view(file: Seq<char>, h: FileHit) -> ResultView {
    ResultView::Match {
        file,
        line_number: h.line_number,
        line: h.line@,
        match_text: h.match_text@,
        column: h.column,
    }
}

/// The results after a file with these hits was searched: nothing more once
/// the limit is reached; in `files_only` mode the file once (and, when
/// `dedup`, only if it is not listed yet); otherwise its hits, up to the limit.
pub open spec fn after_file(
    before: Seq<ResultView>,
    max_count: Option<usize>,
    files_only: bool,
    dedup: bool,
    file: Seq<char>,
    hits: Seq<FileHit>,
) -> Seq<ResultView> {
    if limit_reached(max_count, before.len()) {
        before
    } else if files_only {
        if hits.len() > 0 && !(dedup && before.contains(ResultView::File(file))) {
            before.push(ResultView::File(file))
        } else {
            before
        }
    } else {
        let room: int = match max_count {
            Some(m) => m - before.len(),
            None => hits.len() as int,
        };
        let k: int = if room < hits.len() {
            room
        } else {
            hits.len() as int
        };
        before + hits.take(k).map_values(|h: FileHit| hit_view(file, h))
    }
}

/// The results of a search, file by file.
pub struct GrepCollector {
    pub results: Vec<GrepResult>,
}

/// The views of results.
pub open spec fn results_view(rs: Seq<GrepResult>) -> Seq<ResultView> {
    rs.map_values(|r: GrepResult| r@)
}

impl GrepCollector {
    /// No results yet.
    pub fn new() -> (r: Self)
        ensures
            r.results@.len() == 0,
    {
        GrepCollector { results: Vec::new() }
    }

    /// Whether the search goes on to another file: the limit is not reached.
    pub fn wants_more(&self, max_count: Option<usize>) -> (r: bool)
        ensures
            r == !limit_reached(max_count, self.results@.len()),
    {
        match max_count {
            Some(m) => self.results.len() < m,
            None => true,
        }
    }

    /// How many matching lines the fff searcher may still report for the next
    /// file: one in `files_only` mode, else what the limit leaves.
    pub fn remaining(&self, max_count: Option<usize>, files_only: bool) -> (r: Option<usize>)
        ensures
            r == if files_only {
                Some(1usize)
            } else {
                match max_count {
                    Some(m) => Some(
                        if m >= self.results@.len() {
                            (m - self.results@.len()) as usize
                        } else {
                            0usize
                        },
                    ),
                    None => None,
                }
            },
    {
        if files_only {
            Some(1)
        } else {
            match max_count {
                Some(m) => Some(m.saturating_sub(self.results.len())),
                None => None,
            }
        }
    }

    fn lists_file(&self, file: &str) -> (r: bool)
        ensures
            r == results_view(self.results@).contains(ResultView::File(file@)),
    {
        let mut i: usize = 0;
        while i < self.results.len()
            invariant
                i <= self.results@.len(),
                forall|j: int| 0 <= j < i ==> self.results@[j]@ != ResultView::File(file@),
            decreases self.results.len() - i,
        {
            match &self.results[i] {
                GrepResult::File(f) => {
                    if crate::text::str_eq(f.as_str(), file) {
                        assert(results_view(self.results@)[i as int] == ResultView::File(file@));
                        return true;
                    }
                },
                GrepResult::Match(_) => {},
            }
            i += 1;
        }
        assert forall|j: int| 0 <= j < results_view(self.results@).len() implies results_view(
            self.results@,
        )[j] != ResultView::File(file@) by {
            assert(self.results@[j]@ != ResultView::File(file@));
        }
        false
    }

    /// Records the hits of a searched file and says whether the search goes on
    /// (the limit is not reached). `dedup` lists a file once in `files_only`
    /// mode, as the ripgrep provider does.
    pub fn file_done(
        &mut self,
        max_count: Option<usize>,
        files_only: bool,
        dedup: bool,
        file: &str,
        hits: Vec<FileHit>,
    ) -> (r: bool)
        ensures
            results_view(final(self).results@) == after_file(
                results_view(old(self).results@),
                max_count,
                files_only,
                dedup,
                file@,
                hits@,
            ),
            r == !limit_reached(max_count, final(self).results@.len()),
    {
        let ghost before = results_view(self.results@);
        if !self.wants_more(max_count) {
            return false;
        }
        if files_only {
            if hits.len() > 0 && !(dedup && self.lists_file(file)) {
                self.results.push(GrepResult::File(string_of(&str_chars(file))));
                assert(results_view(self.results@) =~= before.push(ResultView::File(file@)));
            }
            return self.wants_more(max_count);
        }
        let ghost room: int = match max_count {
            Some(m) => m - before.len(),
            None => hits@.len() as int,
        };
        let ghost k: int = if room < hits@.len() {
            room
        } else {
            hits@.len() as int
        };
        let mut taken: usize = 0;
        let mut rest = hits;
        let ghost all = rest@;
        let total = rest.len();
        while rest.len() > 0 && self.wants_more(max_count)
            invariant
                taken <= all.len(),
                total == all.len(),
                rest@ == all.skip(taken as int),
                results_view(self.results@) == before + all.take(taken as int).map_values(
                    |h: FileHit| hit_view(file@, h),
                ),
                self.results@.len() == before.len() + taken,
                all == hits@,
                k == if room < all.len() { room } else { all.len() as int },
                room == match max_count {
                    Some(m) => m - before.len(),
                    None => all.len() as int,
                },
                !limit_reached(max_count, before.len()),
                taken <= k,
            decreases rest.len(),
        {
            let h = rest.remove(0);
            assert(h == all[taken as int]);
            let ghost prev = results_view(self.results@);
            self.results.push(
                GrepResult::Match(
                    GrepMatch {
                        file: string_of(&str_chars(file)),
                        line_number: h.line_number,
                        line: h.line,
                        match_text: h.match_text,
                        column: h.column,
                    },
                ),
            );
            taken += 1;
            assert(rest@ =~= all.skip(taken as int));
            assert(all.take(taken as int) =~= all.take(taken - 1).push(h));
            assert(results_view(self.results@) =~= prev.push(hit_view(file@, h)));
            assert(all.take(taken as int).map_values(|x: FileHit| hit_view(file@, x)) =~= all.take(
                taken - 1,
            ).map_values(|x: FileHit| hit_view(file@, x)).push(hit_view(file@, h)));
        }
        assert(taken == k);
        self.wants_more(max_count)
    }
}

// ── The ripgrep provider's lines ─────────────────────────────────────

/// `s` without its trailing `c` characters.
pub open spec fn trim_end_char(s: Seq<char>, c: char) -> Seq<char>
    decreases s.len(),
{
    if s.len() > 0 && s.last() == c {
        trim_end_char(s.drop_last(), c)
    } else {
        s
    }
}

fn trim_end_char_exec(s: &Vec<char>, c: char) -> (r: Vec<char>)
    ensures
        r@ == trim_end_char(s@, c),
{
    let mut end = s.len();
    assert(s@.take(end as int) =~= s@);
    while end > 0 && s[end - 1] == c
        invariant
            end <= s@.len(),
            trim_end_char(s@.take(end as int), c) == trim_end_char(s@, c),
        decreases end,
    {
        assert(s@.take(end as int).drop_last() =~= s@.take(end - 1));
        end -= 1;
    }
    let mut out: Vec<char> = Vec::new();
    let mut i: usize = 0;
    while i < end
        invariant
            i <= end <= s@.len(),
            out@ == s@.take(i as int),
        decreases end - i,
    {
        out.push(s[i]);
        i += 1;
        assert(out@ =~= s@.take(i as int));
    }
    out
}

proof fn lemma_prefix_boundary(bytes: Seq<u8>, s: int, e: int)
    requires
        vstd::utf8::valid_utf8(bytes),
        is_char_boundary(bytes, s),
        is_char_boundary(bytes, e),
        0 <= s <= e,
    ensures
        is_char_boundary(bytes.subrange(0, e), s),
{
    vstd::utf8::valid_utf8_split(bytes, e);
    let p = bytes.subrange(0, e);
    if s == 0 {
    } else if s == e {
        vstd::utf8::is_char_boundary_start_end_of_seq(p);
    } else {
        assert(e <= bytes.len());
        vstd::utf8::is_char_boundary_iff_not_is_continuation_byte(bytes, s);
        vstd::utf8::is_char_boundary_iff_not_is_continuation_byte(p, s);
    }
}

/// A matching line as the ripgrep provider records it: the line without its
/// trailing `\n`s and then `\r`s, and the matched text when the matcher
/// found a match in it (the empty text otherwise). No column is recorded.
pub fn ripgrep_hit(line_number: u64, line: &str, found: Option<(usize, usize)>) -> (r: FileHit)
    requires
        found matches Some((s, e)) ==> s <= e && is_char_boundary(encode_utf8(line@), s as int)
            && is_char_boundary(encode_utf8(line@), e as int),
    ensures
        r.line_number == line_number,
        r.line@ == trim_end_char(trim_end_char(line@, '\n'), '\r'),
        r.column is None,
        match found {
            Some((s, e)) => encode_utf8(r.match_text@) == encode_utf8(line@).subrange(s as int, e as int),
            None => r.match_text@.len() == 0,
        },
{
    let match_text = match found {
        Some((s, e)) => {
            proof {
                vstd::utf8::encode_utf8_valid_utf8(line@);
            }
            let (head, _) = line.split_at(e);
            proof {
                lemma_prefix_boundary(encode_utf8(line@), s as int, e as int);
            }
            let (_, piece) = head.split_at(s);
            let t = piece.to_owned();
            proof {
                assert(encode_utf8(t@) == piece.spec_bytes());
                assert(encode_utf8(head@) == head.spec_bytes());
                assert(piece.spec_bytes() =~= encode_utf8(line@).subrange(s as int, e as int));
            }
            t
        },
        None => String::new(),
    };
    let chars = str_chars(line);
    let t1 = trim_end_char_exec(&chars, '\n');
    let t2 = trim_end_char_exec(&t1, '\r');
    FileHit { line_number, line: string_of(&t2), match_text, column: None }
}

} // verus!
