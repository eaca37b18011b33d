//! Line matching of the `fs.grep` provider built on the fff searcher: literal
//! search in bytes, and the sink that collects matching lines.

use vstd::prelude::*;
use vstd::utf8::{decode_utf8, valid_utf8};
use crate::grep_search::MatchExtractor;

verus! {

// ── Literal search ───────────────────────────────────────────────────

/// Whether `needle` occurs in `haystack` starting at index `i`.
pub open spec fn bytes_occur_at(haystack: Seq<u8>, needle: Seq<u8>, i: int) -> bool {
    0 <= i && i + needle.len() <= haystack.len() && haystack.subrange(i, i + needle.len()) == needle
}

/// The index of the first occurrence of `needle` in `haystack`, if any.
pub open spec fn first_occurrence(haystack: Seq<u8>, needle: Seq<u8>) -> Option<int> {
    if exists|i: int| bytes_occur_at(haystack, needle, i) {
        Some(
            choose|i: int|
                bytes_occur_at(haystack, needle, i) && forall|j: int|
                    0 <= j < i ==> !bytes_occur_at(haystack, needle, j),
        )
    } else {
        None
    }
}

/// `memchr::memmem::find` from memchr: the index of the first occurrence of
/// `needle` in `haystack` (0 for an empty needle), or `None`.
#[verifier::external_body]
fn memmem_find(haystack: &[u8], needle: &[u8]) -> (r: Option<usize>)
    ensures
        match r {
            Some(i) => bytes_occur_at(haystack@, needle@, i as int) && forall|j: int|
                0 <= j < i ==> !bytes_occur_at(haystack@, needle@, j),
            None => forall|j: int| !bytes_occur_at(haystack@, needle@, j),
        },
{
    memchr::memmem::find(haystack, needle)
}

proof fn lemma_first_occurrence(haystack: Seq<u8>, needle: Seq<u8>, i: int)
    requires
        bytes_occur_at(haystack, needle, i),
        forall|j: int| 0 <= j < i ==> !bytes_occur_at(haystack, needle, j),
    ensures
        first_occurrence(haystack, needle) == Some(i),
{
    let k = choose|k: int|
        bytes_occur_at(haystack, needle, k) && forall|j: int|
            0 <= j < k ==> !bytes_occur_at(haystack, needle, j);
    assert(bytes_occur_at(haystack, needle, k));
    if k < i {
        assert(!bytes_occur_at(haystack, needle, k));
    }
    if k > i {
        assert(!bytes_occur_at(haystack, needle, i));
    }
}

/// A matcher of one literal byte string.
pub struct LiteralMatcher {
    pub needle: Vec<u8>,
}

impl LiteralMatcher {
    /// A matcher of `needle`.
    pub fn new(needle: Vec<u8>) -> (r: Self)
        ensures
            r.needle@ == needle@,
    {
        LiteralMatcher { needle }
    }

    /// The first match of the needle in `haystack` at or after `at`, as the
    /// range `(start, end)`; none when `at` is past the end.
    pub fn find_at(&self, haystack: &[u8], at: usize) -> (r: Option<(usize, usize)>)
        ensures
            at > haystack@.len() ==> r is None,
            r matches Some((s, e)) ==> at <= s <= e <= haystack@.len() && e - s == self.needle@.len(),
            at <= haystack@.len() ==> match first_occurrence(haystack@.skip(at as int), self.needle@) {
                Some(i) => r == Some(((at + i) as usize, (at + i + self.needle@.len()) as usize)),
                None => r is None,
            },
    {
        if at > haystack.len() {
            return None;
        }
        let mut tail: Vec<u8> = Vec::new();
        let mut k = at;
        while k < haystack.len()
            invariant
                at <= k <= haystack.len(),
                tail@ == haystack@.subrange(at as int, k as int),
            decreases haystack.len() - k,
        {
            tail.push(haystack[k]);
            k += 1;
            assert(tail@ =~= haystack@.subrange(at as int, k as int));
        }
        assert(tail@ =~= haystack@.skip(at as int));
        match memmem_find(tail.as_slice(), self.needle.as_slice()) {
            Some(start) => {
                proof {
                    lemma_first_occurrence(tail@, self.needle@, start as int);
                }
                Some((start + at, start + at + self.needle.len()))
            },
            None => {
                assert(!exists|i: int| bytes_occur_at(tail@, self.needle@, i));
                None
            },
        }
    }

    /// The line terminator the searcher may rely on: `\n`, unless the needle
    /// holds one (then matches may span lines).
    pub fn line_terminator(&self) -> (r: Option<u8>)
        ensures
            r == if self.needle@.contains(10u8) {
                None
            } else {
                Some(10u8)
            },
    {
        let mut i: usize = 0;
        while i < self.needle.len()
            invariant
                i <= self.needle@.len(),
                forall|j: int| 0 <= j < i ==> self.needle@[j] != 10u8,
            decreases self.needle.len() - i,
        {
            if self.needle[i] == 10u8 {
                return None;
            }
            i += 1;
        }
        Some(10u8)
    }
}

// ── Collecting matches ───────────────────────────────────────────────

/// `line` without one trailing `\n` and then one trailing `\r`.
pub open spec fn trim_line_end_spec(line: Seq<u8>) -> Seq<u8> {
    let a = if line.len() > 0 && line.last() == 10u8 {
        line.drop_last()
    } else {
        line
    };
    if a.len() > 0 && a.last() == 13u8 {
        a.drop_last()
    } else {
        a
    }
}

/// `line` without its line end (`\n`, `\r\n` or a lone final `\r`).
pub fn trim_line_end(line: &[u8]) -> (r: &[u8])
    ensures
        r@ == trim_line_end_spec(line@),
{
    let mut end = line.len();
    if end > 0 && line[end - 1] == 10u8 {
        end -= 1;
    }
    if end > 0 && line[end - 1] == 13u8 {
        end -= 1;
    }
    let r = slice_prefix(line, end);
    assert(r@ =~= trim_line_end_spec(line@));
    r
}

fn slice_prefix(s: &[u8], end: usize) -> (r: &[u8])
    requires
        end <= s@.len(),
    ensures
        r@ == s@.take(end as int),
{
    let (a, _) = s.split_at(end);
    a
}

/// The text of the bytes when they are valid UTF-8.
fn utf8_text(bytes: &[u8]) -> (r: Option<String>)
    ensures
        match r {
            Some(s) => valid_utf8(bytes@) && s@ == decode_utf8(bytes@),
            None => !valid_utf8(bytes@),
        },
{
    match crate::text::utf8_decode(bytes) {
        Ok(s) => Some(s),
        Err(_) => None,
    }
}

/// One matching line.
pub struct LineMatch {
    pub line_number: u64,
    pub column: usize,
    pub line: String,
    pub match_text: String,
}

/// The sink that keeps the matching lines of one file, up to `max_count`;
/// its extractor finds the match text in each line.
pub struct CollectSink {
    pub extractor: MatchExtractor,
    pub max_count: Option<usize>,
    pub matches: Vec<LineMatch>,
}

/// The line match recorded for a line (without its line end) with the match
/// `(start, end)` in it, when the line and the matched text are valid UTF-8.
pub open spec fn line_match_of(line: Seq<u8>, found: (usize, usize), line_number: u64) -> Option<
    (u64, nat, Seq<char>, Seq<char>),
> {
    let (start, end) = found;
    if valid_utf8(line) && start <= end <= line.len() && valid_utf8(line.subrange(start as int, end as int)) {
        Some((line_number, (start + 1) as nat, decode_utf8(line), decode_utf8(line.subrange(start as int, end as int))))
    } else {
        None
    }
}

/// The view of a recorded match.
pub open spec fn match_view(m: LineMatch) -> (u64, nat, Seq<char>, Seq<char>) {
    (m.line_number, m.column as nat, m.line@, m.match_text@)
}

impl CollectSink {
    /// An empty sink.
    pub fn new(extractor: MatchExtractor, max_count: Option<usize>) -> (r: Self)
        ensures
            r.extractor == extractor,
            r.max_count == max_count,
            r.matches@.len() == 0,
    {
        CollectSink { extractor, max_count, matches: Vec::new() }
    }

    /// Whether the sink holds `max_count` matches.
    pub fn is_full(&self) -> (r: bool)
        ensures
            r == match self.max_count {
                Some(m) => self.matches@.len() >= m,
                None => false,
            },
    {
        match self.max_count {
            Some(m) => self.matches.len() >= m,
            None => false,
        }
    }

    /// Whether the search should go on when a file begins.
    pub fn begin(&self) -> (r: bool)
        ensures
            r == !match self.max_count {
                Some(m) => self.matches@.len() >= m,
                None => false,
            },
    {
        !self.is_full()
    }

    /// Takes a matching line (with its line end) and returns whether the
    /// search should go on. The line is recorded when the sink is not full,
    /// the extractor finds a match in the line without its end, and both texts
    /// are valid UTF-8.
    pub fn matched(&mut self, line_bytes: &[u8], line_number: Option<u64>) -> (r: bool)
        requires
            line_bytes@.len() < usize::MAX,
        ensures
            final(self).max_count == old(self).max_count,
            final(self).extractor == old(self).extractor,
            ({
                let found = old(self).extractor.find_spec(trim_line_end_spec(line_bytes@));
                let full = match old(self).max_count {
                    Some(m) => old(self).matches@.len() >= m,
                    None => false,
                };
                let line = trim_line_end_spec(line_bytes@);
                let rec = match found {
                    Some(f) => line_match_of(line, f, match line_number {
                        Some(n) => n,
                        None => 0,
                    }),
                    None => None,
                };
                if full {
                    !r && final(self).matches@ == old(self).matches@
                } else {
                    match rec {
                        Some(v) => {
                            &&& final(self).matches@.len() == old(self).matches@.len() + 1
                            &&& final(self).matches@.take(old(self).matches@.len() as int) == old(self).matches@
                            &&& match_view(final(self).matches@.last()) == v
                            &&& r == !match final(self).max_count {
                                Some(m) => final(self).matches@.len() >= m,
                                None => false,
                            }
                        },
                        None => r && final(self).matches@ == old(self).matches@,
                    }
                }
            }),
    {
        if self.is_full() {
            return false;
        }
        let line = trim_line_end(line_bytes);
        let found = self.extractor.find(line);
        let (start, end) = match found {
            Some(f) => f,
            None => {
                return true;
            },
        };
        let text = match utf8_text(line) {
            Some(t) => t,
            None => {
                return true;
            },
        };
        if !(start <= end && end <= line.len()) {
            return true;
        }
        let mut piece: Vec<u8> = Vec::new();
        let mut k = start;
        while k < end
            invariant
                start <= k <= end <= line@.len(),
                piece@ == line@.subrange(start as int, k as int),
            decreases end - k,
        {
            piece.push(line[k]);
            k += 1;
            assert(piece@ =~= line@.subrange(start as int, k as int));
        }
        let match_text = match utf8_text(piece.as_slice()) {
            Some(t) => t,
            None => {
                return true;
            },
        };
        let ghost before = self.matches@;
        self.matches.push(
            LineMatch {
                line_number: match line_number {
                    Some(n) => n,
                    None => 0,
                },
                column: start + 1,
                line: text,
                match_text,
            },
        );
        assert(self.matches@.take(before.len() as int) =~= before);
        !self.is_full()
    }
}

} // verus!
