//! Calendar attachments: the files the sandbox copies for an event live under a
//! managed directory, and the event's notes list them in a marked block.

use vstd::prelude::*;
use crate::config::{join, push_joined};
use crate::doc_reader::{path_extension, split_char, split_chars, std_path_extension};
use std::collections::hash_map::DefaultHasher;
use std::hash::{Hash, Hasher};
use crate::text::{
    contains_seq, lemma_no_occurrence_joined, lemma_no_occurrence_over, lemma_occurs_in_subrange,
    lemma_trim_idempotent, lemma_trim_subrange, lemma_trim_elements, is_ws, trim_start, trim_end,
    chars_eq, chars_eq_str, find_from, is_ascii_alnum, occurs_at, push_all, push_str_chars,
    slice_chars, str_chars, string_of, trim, trim_chars, decimal, push_decimal,
};

verus! {

// ── Names ────────────────────────────────────────────────────────────

/// The directory that holds the copied attachments, one subdirectory per event.
pub open spec fn attachment_root() -> Seq<char> {
    "/home/herm/calendar-attachments"@
}

/// A character of a file name as the copy keeps it: ASCII letters, digits,
/// `.`, `-` and `_` stay, anything else becomes `-`.
pub open spec fn safe_char(c: char) -> char {
    if is_ascii_alnum(c) || c == '.' || c == '-' || c == '_' {
        c
    } else {
        '-'
    }
}

/// The characters that a safe name does not start or end with.
pub open spec fn is_mark(c: char) -> bool {
    c == '.' || c == '-'
}

/// The index of the first character of `s` that is not a mark.
pub open spec fn first_unmarked(s: Seq<char>) -> int {
    choose|i: int| 0 <= i < s.len() && !is_mark(s[i]) && forall|j: int| 0 <= j < i ==> is_mark(s[j])
}

/// The index of the last character of `s` that is not a mark.
pub open spec fn last_unmarked(s: Seq<char>) -> int {
    choose|i: int|
        0 <= i < s.len() && !is_mark(s[i]) && forall|j: int| i < j < s.len() ==> is_mark(s[j])
}

/// `s` without leading and trailing marks.
#[verifier::opaque]
pub open spec fn strip_marks(s: Seq<char>) -> Seq<char> {
    if exists|i: int| 0 <= i < s.len() && !is_mark(s[i]) {
        s.subrange(first_unmarked(s), last_unmarked(s) + 1)
    } else {
        seq![]
    }
}

/// The file name under which an attachment is stored.
pub open spec fn safe_attachment_name_spec(value: Seq<char>) -> Seq<char> {
    let name = strip_marks(value.map_values(|c: char| safe_char(c)));
    if name.len() == 0 {
        "attachment"@
    } else {
        name
    }
}

fn safe_chars(v: &Vec<char>) -> (r: Vec<char>)
    ensures
        r@ == v@.map_values(|c: char| safe_char(c)),
{
    let mut mapped: Vec<char> = Vec::new();
    let mut i: usize = 0;
    while i < v.len()
        invariant
            i <= v.len(),
            mapped@ == v@.take(i as int).map_values(|c: char| safe_char(c)),
        decreases v.len() - i,
    {
        let c = v[i];
        let kept = if ('0' <= c && c <= '9') || ('a' <= c && c <= 'z') || ('A' <= c && c <= 'Z')
            || c == '.' || c == '-' || c == '_' {
            c
        } else {
            '-'
        };
        mapped.push(kept);
        i += 1;
        assert(mapped@ =~= v@.take(i as int).map_values(|c: char| safe_char(c)));
    }
    assert(v@.take(v@.len() as int) =~= v@);
    mapped
}

fn strip_marks_chars(m: &Vec<char>) -> (r: Vec<char>)
    ensures
        r@ == strip_marks(m@),
{
    let mut lo: usize = 0;
    while lo < m.len() && (m[lo] == '.' || m[lo] == '-')
        invariant
            lo <= m.len(),
            forall|j: int| 0 <= j < lo ==> is_mark(m@[j]),
        decreases m.len() - lo,
    {
        lo += 1;
    }
    if lo == m.len() {
        assert(!exists|i: int| 0 <= i < m@.len() && !is_mark(m@[i]));
        reveal(strip_marks);
        assert(strip_marks(m@) =~= Seq::<char>::empty());
        return Vec::new();
    }
    let mut hi: usize = m.len();
    while hi > lo && (m[hi - 1] == '.' || m[hi - 1] == '-')
        invariant
            lo < m.len(),
            lo < hi <= m.len(),
            !is_mark(m@[lo as int]),
            forall|j: int| hi <= j < m@.len() ==> is_mark(m@[j]),
        decreases hi,
    {
        hi -= 1;
    }
    proof {
        lemma_strip_bounds(m@, lo as int, hi as int);
    }
    slice_chars(m, lo, hi)
}

proof fn lemma_strip_bounds(m: Seq<char>, lo: int, hi: int)
    requires
        0 <= lo < hi <= m.len(),
        forall|j: int| 0 <= j < lo ==> is_mark(m[j]),
        forall|j: int| hi <= j < m.len() ==> is_mark(m[j]),
        !is_mark(m[lo]),
        !is_mark(m[hi - 1]),
    ensures
        strip_marks(m) == m.subrange(lo, hi),
{
    reveal(strip_marks);
    assert(exists|i: int| 0 <= i < m.len() && !is_mark(m[i])) by {
        assert(!is_mark(m[lo]));
    }
    assert(exists|i: int|
        0 <= i < m.len() && !is_mark(m[i]) && forall|j: int| 0 <= j < i ==> is_mark(m[j])) by {
        assert(!is_mark(m[lo]));
    }
    assert(exists|i: int|
        0 <= i < m.len() && !is_mark(m[i]) && forall|j: int| i < j < m.len() ==> is_mark(m[j])) by {
        assert(!is_mark(m[hi - 1]));
    }
    let f = first_unmarked(m);
    let l = last_unmarked(m);
    assert(f == lo) by {
        if f < lo {
            assert(is_mark(m[f]));
        }
        if f > lo {
            assert(is_mark(m[lo]));
        }
    }
    assert(l == hi - 1) by {
        if l < hi - 1 {
            assert(is_mark(m[hi - 1]));
        }
        if l > hi - 1 {
            assert(is_mark(m[l]));
        }
    }
}

/// The file name under which an attachment named `value` is stored: unsafe
/// characters become `-`, and leading and trailing `.` and `-` go.
pub fn safe_attachment_name(value: &str) -> (r: String)
    ensures
        r@ == safe_attachment_name_spec(value@),
{
    let v = str_chars(value);
    let mapped = safe_chars(&v);
    let name = strip_marks_chars(&mapped);
    if name.len() == 0 {
        return string_of(&str_chars("attachment"));
    }
    string_of(&name)
}

/// Whether a component of a managed path is a plain name.
pub open spec fn plain_component(s: Seq<char>) -> bool {
    s.len() > 0 && s != "."@ && s != ".."@
}

/// Whether `path` names a file that the sandbox copied: the attachment root,
/// then exactly two plain components (the event's directory and the file).
pub open spec fn is_managed_path(path: Seq<char>) -> bool {
    let prefix = attachment_root().push('/');
    &&& prefix.len() <= path.len()
    &&& path.take(prefix.len() as int) == prefix
    &&& {
        let parts = split_char(path.skip(prefix.len() as int), '/');
        parts.len() == 2 && plain_component(parts[0]) && plain_component(parts[1])
    }
}

fn plain_component_exec(v: &Vec<char>) -> (r: bool)
    ensures
        r == plain_component(v@),
{
    v.len() > 0 && !chars_eq_str(v, ".") && !chars_eq_str(v, "..")
}

/// Whether `path` names a file that the sandbox copied under the attachment root.
pub fn is_managed_attachment_path(path: &str) -> (r: bool)
    ensures
        r == is_managed_path(path@),
{
    let v = str_chars(path);
    is_managed_chars(&v)
}

fn is_managed_chars(v: &Vec<char>) -> (r: bool)
    ensures
        r == is_managed_path(v@),
{
    let mut prefix = str_chars("/home/herm/calendar-attachments");
    prefix.push('/');
    if prefix.len() > v.len() {
        return false;
    }
    let head = slice_chars(v, 0, prefix.len());
    assert(head@ == v@.take(prefix@.len() as int));
    if !chars_eq(&head, &prefix) {
        return false;
    }
    let rest = slice_chars(v, prefix.len(), v.len());
    assert(rest@ == v@.skip(prefix@.len() as int));
    let parts = split_chars(&rest, '/');
    let ghost views = parts@.map_values(|p: Vec<char>| p@);
    if parts.len() != 2 {
        return false;
    }
    assert(views[0] == parts@[0]@ && views[1] == parts@[1]@);
    plain_component_exec(&parts[0]) && plain_component_exec(&parts[1])
}

// ── The attachment block of the notes ────────────────────────────────

/// The line that opens the attachment block.
pub open spec fn block_start() -> Seq<char> {
    "[Herm attachments]"@
}

/// The line that closes the attachment block.
pub open spec fn block_end() -> Seq<char> {
    "[/Herm attachments]"@
}

/// The index of the first occurrence of `p` in `s`.
#[verifier::opaque]
pub open spec fn find_seq(s: Seq<char>, p: Seq<char>) -> Option<int> {
    if exists|i: int| occurs_at(s, p, i) {
        Some(choose|i: int| occurs_at(s, p, i) && forall|j: int| 0 <= j < i ==> !occurs_at(s, p, j))
    } else {
        None
    }
}

fn find_first(v: &Vec<char>, p: &Vec<char>) -> (r: Option<usize>)
    ensures
        match r {
            Some(i) => find_seq(v@, p@) == Some(i as int) && occurs_at(v@, p@, i as int),
            None => find_seq(v@, p@) is None,
        },
{
    let r = find_from(v, p, 0);
    reveal(find_seq);
    match r {
        Some(i) => {
            let ghost k = choose|k: int|
                occurs_at(v@, p@, k) && forall|j: int| 0 <= j < k ==> !occurs_at(v@, p@, j);
            assert(occurs_at(v@, p@, k) && forall|j: int| 0 <= j < k ==> !occurs_at(v@, p@, j));
            assert(k == i) by {
                if k < i {
                    assert(!occurs_at(v@, p@, k));
                }
                if k > i {
                    assert(!occurs_at(v@, p@, i as int));
                }
            }
        },
        None => {
            assert(!exists|i: int| occurs_at(v@, p@, i)) by {
                assert forall|i: int| !occurs_at(v@, p@, i) by {
                    if i >= 0 {
                    }
                }
            }
        },
    }
    r
}

/// The paths of `lines` that are managed paths once trimmed, trimmed, each
/// kept at its first occurrence.
pub open spec fn managed_paths(lines: Seq<Seq<char>>) -> Seq<Seq<char>>
    decreases lines.len(),
{
    if lines.len() == 0 {
        seq![]
    } else {
        let before = managed_paths(lines.drop_last());
        let p = trim(lines.last());
        if is_managed_path(p) && !before.contains(p) {
            before.push(p)
        } else {
            before
        }
    }
}

/// The notes without their attachment block, and the managed paths the block
/// lists. Without a complete block the notes are only trimmed.
pub open spec fn split_notes_spec(notes: Seq<char>) -> (Seq<char>, Seq<Seq<char>>) {
    match find_seq(notes, block_start()) {
        None => (trim(notes), seq![]),
        Some(start) => {
            let paths_start = start + block_start().len();
            match find_seq(notes.skip(paths_start), block_end()) {
                None => (trim(notes), seq![]),
                Some(rel) => {
                    let end = paths_start + rel;
                    (
                        trim(notes.take(start) + notes.skip(end + block_end().len())),
                        managed_paths(split_char(notes.subrange(paths_start, end), '\n')),
                    )
                },
            }
        },
    }
}

/// The views of a vector of strings.
pub open spec fn views(v: Seq<String>) -> Seq<Seq<char>> {
    v.map_values(|s: String| s@)
}

fn managed_paths_exec(lines: &Vec<Vec<char>>) -> (r: Vec<Vec<char>>)
    ensures
        r@.map_values(|p: Vec<char>| p@) == managed_paths(lines@.map_values(|p: Vec<char>| p@)),
{
    let ghost lv = lines@.map_values(|p: Vec<char>| p@);
    let mut out: Vec<Vec<char>> = Vec::new();
    let mut i: usize = 0;
    while i < lines.len()
        invariant
            i <= lines.len(),
            lv == lines@.map_values(|p: Vec<char>| p@),
            out@.map_values(|p: Vec<char>| p@) == managed_paths(lv.take(i as int)),
        decreases lines.len() - i,
    {
        assert(lv.take(i + 1).drop_last() =~= lv.take(i as int));
        assert(lv.take(i + 1).last() == lines@[i as int]@);
        let ghost before = out@.map_values(|p: Vec<char>| p@);
        let p = trim_chars(&lines[i]);
        if is_managed_chars(&p) {
            let mut seen = false;
            let mut k: usize = 0;
            while k < out.len()
                invariant
                    k <= out.len(),
                    before == out@.map_values(|p: Vec<char>| p@),
                    seen == exists|j: int| 0 <= j < k && before[j] == p@,
                decreases out.len() - k,
            {
                assert(before[k as int] == out@[k as int]@);
                if chars_eq(&out[k], &p) {
                    seen = true;
                }
                k += 1;
            }
            assert(seen == before.contains(p@));
            if !seen {
                out.push(p);
                assert(out@.map_values(|p: Vec<char>| p@) =~= before.push(p@));
            }
        }
        i += 1;
    }
    assert(lv.take(lv.len() as int) =~= lv);
    out
}

fn strings_of(v: &Vec<Vec<char>>) -> (r: Vec<String>)
    ensures
        views(r@) == v@.map_values(|p: Vec<char>| p@),
{
    let mut out: Vec<String> = Vec::new();
    let mut i: usize = 0;
    while i < v.len()
        invariant
            i <= v.len(),
            views(out@) == v@.map_values(|p: Vec<char>| p@).take(i as int),
        decreases v.len() - i,
    {
        let ghost before = out@;
        let s = string_of(&v[i]);
        out.push(s);
        assert(views(out@) =~= views(before).push(s@));
        i += 1;
        assert(views(out@) =~= v@.map_values(|p: Vec<char>| p@).take(i as int));
    }
    assert(v@.map_values(|p: Vec<char>| p@).take(v@.len() as int) =~= v@.map_values(
        |p: Vec<char>| p@,
    ));
    out
}

fn split_notes_chars(n: &Vec<char>) -> (r: (Vec<char>, Vec<Vec<char>>))
    ensures
        (r.0@, r.1@.map_values(|p: Vec<char>| p@)) == split_notes_spec(n@),
{
    let start_marker = str_chars("[Herm attachments]");
    let end_marker = str_chars("[/Herm attachments]");
    let start = match find_first(n, &start_marker) {
        Some(s) => s,
        None => {
            return (trim_chars(n), Vec::new());
        },
    };
    assert(occurs_at(n@, start_marker@, start as int));
    assert(start + start_marker.len() <= n.len());
    let paths_start = start + start_marker.len();
    let tail = slice_chars(n, paths_start, n.len());
    assert(tail@ =~= n@.skip(paths_start as int));
    let rel = match find_first(&tail, &end_marker) {
        Some(r) => r,
        None => {
            return (trim_chars(n), Vec::new());
        },
    };
    assert(occurs_at(tail@, end_marker@, rel as int));
    let end = paths_start + rel;
    let middle = slice_chars(n, paths_start, end);
    let lines = split_chars(&middle, '\n');
    let paths = managed_paths_exec(&lines);
    let mut plain = slice_chars(n, 0, start);
    let after = slice_chars(n, end + end_marker.len(), n.len());
    push_all(&mut plain, &after);
    assert(plain@ =~= n@.take(start as int) + n@.skip(end + end_marker@.len()));
    (trim_chars(&plain), paths)
}

/// The notes without their attachment block, and the managed paths that the
/// block lists (trimmed, each once).
pub fn split_attachment_notes(notes: Option<&str>) -> (r: (String, Vec<String>))
    ensures
        (r.0@, views(r.1@)) == split_notes_spec(
            match notes {
                Some(n) => n@,
                None => seq![],
            },
        ),
{
    let n = match notes {
        Some(s) => str_chars(s),
        None => Vec::new(),
    };
    let (plain, paths) = split_notes_chars(&n);
    (string_of(&plain), strings_of(&paths))
}

/// The managed paths that the attachment block of the notes lists.
pub fn attachment_paths(notes: Option<&str>) -> (r: Vec<String>)
    ensures
        views(r@) == split_notes_spec(
            match notes {
                Some(n) => n@,
                None => seq![],
            },
        ).1,
{
    split_attachment_notes(notes).1
}

/// `paths` followed by the elements of `new` that it does not hold yet, each
/// once.
pub open spec fn merge_paths(paths: Seq<Seq<char>>, new: Seq<Seq<char>>) -> Seq<Seq<char>>
    decreases new.len(),
{
    if new.len() == 0 {
        paths
    } else {
        let before = merge_paths(paths, new.drop_last());
        if before.contains(new.last()) {
            before
        } else {
            before.push(new.last())
        }
    }
}

/// The notes text that lists `paths` in an attachment block after `plain`.
pub open spec fn notes_text(plain: Seq<char>, paths: Seq<Seq<char>>) -> Seq<char> {
    if paths.len() == 0 {
        plain
    } else {
        let block = block_start() + "\n"@ + join(paths, "\n"@) + "\n"@ + block_end();
        if plain.len() == 0 {
            block
        } else {
            plain + "\n\n"@ + block
        }
    }
}

/// What `notes_with_attachments` returns.
pub open spec fn notes_with_attachments_spec(notes: Seq<char>, new: Seq<Seq<char>>) -> Seq<char> {
    let (plain, paths) = split_notes_spec(notes);
    notes_text(plain, merge_paths(paths, new))
}

/// The notes with an attachment block that lists the paths they already list
/// and then the new ones they do not.
pub fn notes_with_attachments(notes: Option<&str>, new_paths: &[String]) -> (r: String)
    ensures
        r@ == notes_with_attachments_spec(
            match notes {
                Some(n) => n@,
                None => seq![],
            },
            views(new_paths@),
        ),
{
    let n = match notes {
        Some(s) => str_chars(s),
        None => Vec::new(),
    };
    let (plain, mut paths) = split_notes_chars(&n);
    let ghost existing = paths@.map_values(|p: Vec<char>| p@);
    let mut i: usize = 0;
    while i < new_paths.len()
        invariant
            i <= new_paths.len(),
            paths@.map_values(|p: Vec<char>| p@) == merge_paths(
                existing,
                views(new_paths@).take(i as int),
            ),
        decreases new_paths.len() - i,
    {
        let ghost before = paths@.map_values(|p: Vec<char>| p@);
        assert(views(new_paths@).take(i + 1).drop_last() =~= views(new_paths@).take(i as int));
        let p = str_chars(new_paths[i].as_str());
        assert(views(new_paths@).take(i + 1).last() == p@);
        let mut seen = false;
        let mut k: usize = 0;
        while k < paths.len()
            invariant
                k <= paths.len(),
                before == paths@.map_values(|p: Vec<char>| p@),
                seen == exists|j: int| 0 <= j < k && before[j] == p@,
            decreases paths.len() - k,
        {
            assert(before[k as int] == paths@[k as int]@);
            if chars_eq(&paths[k], &p) {
                seen = true;
            }
            k += 1;
        }
        assert(seen == before.contains(p@));
        if !seen {
            paths.push(p);
            assert(paths@.map_values(|p: Vec<char>| p@) =~= before.push(p@));
        }
        i += 1;
    }
    assert(views(new_paths@).take(new_paths@.len() as int) =~= views(new_paths@));
    if paths.len() == 0 {
        return string_of(&plain);
    }
    let mut block = str_chars("[Herm attachments]");
    block.push('\n');
    push_joined(&mut block, &paths, "\n");
    block.push('\n');
    push_str_chars(&mut block, "[/Herm attachments]");
    proof {
        reveal_strlit("\n");
    }
    if plain.len() == 0 {
        return string_of(&block);
    }
    let mut out = plain;
    push_str_chars(&mut out, "\n\n");
    push_all(&mut out, &block);
    string_of(&out)
}


// ── The directory of an event ────────────────────────────────────────

/// The hash that a `DefaultHasher` made by `DefaultHasher::new` gives for a
/// string: `<str as Hash>::hash` into it, then `finish`. All hashers made by
/// `new` are the same (std's documentation), so the hash depends on the
/// string alone within one build.
pub uninterp spec fn str_default_hash(s: Seq<char>) -> u64;

/// `DefaultHasher::new`, `<str as Hash>::hash` and `Hasher::finish` from std:
/// the hash of a string, named by `str_default_hash`.
#[verifier::external_body]
fn default_hash_of_str(s: &str) -> (r: u64)
    ensures
        r == str_default_hash(s@),
{
    let mut state = DefaultHasher::new();
    s.hash(&mut state);
    state.finish()
}

/// The lowercase hexadecimal digit of `n < 16`.
pub open spec fn hex_char(n: nat) -> char {
    if n < 10 {
        ((n + 48) as u32) as char
    } else {
        ((n + 87) as u32) as char
    }
}

/// The last `k` hexadecimal digits of `n`, most significant first.
pub open spec fn hex_digits(n: nat, k: nat) -> Seq<char>
    decreases k,
{
    if k == 0 {
        seq![]
    } else {
        hex_digits(n / 16, (k - 1) as nat).push(hex_char(n % 16))
    }
}

fn push_hex_digits(out: &mut Vec<char>, n: u64, k: u64)
    ensures
        final(out)@ == old(out)@ + hex_digits(n as nat, k as nat),
    decreases k,
{
    if k > 0 {
        push_hex_digits(out, n / 16, k - 1);
        let d = n % 16;
        let c = if d < 10 {
            ((d + 48) as u8) as char
        } else {
            ((d + 87) as u8) as char
        };
        out.push(c);
    }
}

/// The name of an event's attachment directory for the hash `h` of its id:
/// sixteen lowercase hexadecimal digits, as `{:016x}` prints it.
pub fn scope_text(h: u64) -> (r: String)
    ensures
        r@ == hex_digits(h as nat, 16),
{
    let mut out: Vec<char> = Vec::new();
    push_hex_digits(&mut out, h, 16);
    string_of(&out)
}

/// The name of the attachment directory of the event `event_id`: the
/// sixteen-digit hexadecimal text of the id's hash by std's `DefaultHasher`,
/// so the same event always has the same directory.
pub fn calendar_attachment_scope(event_id: &str) -> (r: String)
    ensures
        r@ == hex_digits(str_default_hash(event_id@) as nat, 16),
{
    scope_text(default_hash_of_str(event_id))
}

// ── Free names in the directory ──────────────────────────────────────

/// What `Path::file_stem` gives for a path, as a string.
pub uninterp spec fn std_file_stem(path: Seq<char>) -> Option<Seq<char>>;

/// `Path::file_stem` from std, for a path given as a string slice (the stem of
/// a string is valid UTF-8, so the conversion back to `&str` succeeds).
#[verifier::external_body]
fn path_file_stem(path: &str) -> (r: Option<&str>)
    ensures
        match std_file_stem(path@) {
            Some(e) => r matches Some(s) && s@ == e,
            None => r is None,
        },
{
    std::path::Path::new(path).file_stem().and_then(|e| e.to_str())
}

/// The file name tried for the `suffix`-th attempt to store `name`: the name
/// itself first, then its stem with `-suffix` and its extension.
pub open spec fn candidate_name(name: Seq<char>, suffix: nat) -> Seq<char> {
    let stem = match std_file_stem(name) {
        Some(s) => s,
        None => "attachment"@,
    };
    if suffix == 1 {
        name
    } else {
        match std_path_extension(name) {
            Some(e) => stem + "-"@ + decimal(suffix) + "."@ + e,
            None => stem + "-"@ + decimal(suffix),
        }
    }
}

/// The path tried for the `suffix`-th attempt to store `name` in
/// `virtual_directory`; the first one whose file does not exist is taken.
pub fn attachment_candidate(virtual_directory: &str, name: &str, suffix: u64) -> (r: String)
    ensures
        r@ == virtual_directory@ + "/"@ + candidate_name(name@, suffix as nat),
{
    let mut out = str_chars(virtual_directory);
    out.push('/');
    if suffix == 1 {
        push_str_chars(&mut out, name);
    } else {
        match path_file_stem(name) {
            Some(s) => push_str_chars(&mut out, s),
            None => push_str_chars(&mut out, "attachment"),
        }
        out.push('-');
        push_decimal(&mut out, suffix);
        match path_extension(name) {
            Some(e) => {
                out.push('.');
                push_str_chars(&mut out, e);
            },
            None => {},
        }
    }
    proof {
        reveal_strlit("/");
        reveal_strlit("-");
        reveal_strlit(".");
    }
    string_of(&out)
}


// ── Laws of the attachment block ─────────────────────────────────────

/// Whether `c` occurs nowhere in `s`.
pub open spec fn lacks(s: Seq<char>, c: char) -> bool {
    forall|k: int| 0 <= k < s.len() ==> s[k] != c
}

proof fn lemma_split_concat(a: Seq<char>, c: char, b: Seq<char>)
    ensures
        split_char(a + seq![c] + b, c) == split_char(a, c) + split_char(b, c),
    decreases b.len(),
{
    let ab = a + seq![c] + b;
    if b.len() == 0 {
        assert(ab =~= (a + seq![c]));
        assert((a + seq![c]).drop_last() =~= a);
        assert(split_char(b, c) == seq![Seq::<char>::empty()]);
        assert(split_char(a, c) + split_char(b, c) =~= split_char(a, c).push(seq![]));
    } else {
        let b1 = b.drop_last();
        lemma_split_concat(a, c, b1);
        assert(ab.drop_last() =~= a + seq![c] + b1);
        assert(ab.last() == b.last());
        crate::doc_reader::lemma_split_nonempty(b1, c);
        let l = split_char(a, c);
        let r = split_char(b1, c);
        if b.last() == c {
            assert((l + r).push(seq![]) =~= l + r.push(seq![]));
        } else {
            assert((l + r).last() == r.last());
            assert((l + r).update((l + r).len() - 1, r.last().push(b.last())) =~= l + r.update(
                r.len() - 1,
                r.last().push(b.last()),
            ));
        }
    }
}

proof fn lemma_split_without_sep(p: Seq<char>, c: char)
    requires
        lacks(p, c),
    ensures
        split_char(p, c) == seq![p],
    decreases p.len(),
{
    if p.len() > 0 {
        assert(lacks(p.drop_last(), c));
        lemma_split_without_sep(p.drop_last(), c);
        assert(p.last() != c);
        assert(p.drop_last().push(p.last()) =~= p);
        assert(seq![p.drop_last()].update(0, p.drop_last().push(p.last())) =~= seq![p]);
    } else {
        assert(p =~= Seq::<char>::empty());
    }
}

proof fn lemma_split_pieces(s: Seq<char>, c: char)
    ensures
        forall|k: int|
            0 <= k < split_char(s, c).len() ==> lacks(#[trigger] split_char(s, c)[k], c)
                && exists|a: int, b: int|
                0 <= a <= b <= s.len() && split_char(s, c)[k] == s.subrange(a, b),
        exists|a: int| 0 <= a <= s.len() && split_char(s, c).last() == s.subrange(a, s.len() as int),
    decreases s.len(),
{
    crate::doc_reader::lemma_split_nonempty(s, c);
    if s.len() == 0 {
        assert(split_char(s, c)[0] =~= s.subrange(0, 0));
    } else {
        let t = s.drop_last();
        lemma_split_pieces(t, c);
        crate::doc_reader::lemma_split_nonempty(t, c);
        let r = split_char(t, c);
        let out = split_char(s, c);
        let a0 = choose|a: int| 0 <= a <= t.len() && r.last() == t.subrange(a, t.len() as int);
        assert forall|k: int| 0 <= k < out.len() implies lacks(#[trigger] out[k], c) && exists|
            a: int,
            b: int,
        | 0 <= a <= b <= s.len() && out[k] == s.subrange(a, b) by {
            if s.last() == c {
                if k < r.len() {
                    let (a, b) = choose|a: int, b: int| 0 <= a <= b <= t.len() && r[k] == t.subrange(a, b);
                    assert(t.subrange(a, b) =~= s.subrange(a, b));
                } else {
                    assert(out[k] =~= s.subrange(s.len() as int, s.len() as int));
                }
            } else {
                if k < r.len() - 1 {
                    let (a, b) = choose|a: int, b: int| 0 <= a <= b <= t.len() && r[k] == t.subrange(a, b);
                    assert(t.subrange(a, b) =~= s.subrange(a, b));
                } else {
                    assert(lacks(r[r.len() - 1], c));
                    assert(r.last().push(s.last()) =~= s.subrange(a0, s.len() as int));
                }
            }
        }
        if s.last() == c {
            assert(out.last() =~= s.subrange(s.len() as int, s.len() as int));
        } else {
            assert(out.last() =~= s.subrange(a0, s.len() as int));
        }
    }
}


proof fn lemma_split_join(m: Seq<Seq<char>>)
    requires
        m.len() > 0,
        forall|k: int| 0 <= k < m.len() ==> lacks(#[trigger] m[k], '\n'),
    ensures
        split_char(join(m, "\n"@), '\n') == m,
    decreases m.len(),
{
    reveal_strlit("\n");
    if m.len() == 1 {
        lemma_split_without_sep(m[0], '\n');
        assert(seq![m[0]] =~= m);
    } else {
        let m1 = m.drop_last();
        lemma_split_join(m1);
        lemma_split_without_sep(m.last(), '\n');
        assert(join(m, "\n"@) == join(m1, "\n"@) + seq!['\n'] + m.last());
        lemma_split_concat(join(m1, "\n"@), '\n', m.last());
        assert(m1 + seq![m.last()] =~= m);
    }
}

proof fn lemma_join_without(m: Seq<Seq<char>>, p: Seq<char>)
    requires
        p.len() > 0,
        lacks(p, '\n'),
        forall|k: int| 0 <= k < m.len() ==> !contains_seq(#[trigger] m[k], p),
    ensures
        !contains_seq(join(m, "\n"@), p),
    decreases m.len(),
{
    reveal_strlit("\n");
    if m.len() == 0 {
        assert forall|i: int| !occurs_at(join(m, "\n"@), p, i) by {}
    } else if m.len() == 1 {
        assert(!contains_seq(m[0], p));
    } else {
        let m1 = m.drop_last();
        lemma_join_without(m1, p);
        assert(!contains_seq(m.last(), p));
        assert(join(m, "\n"@) == join(m1, "\n"@) + seq!['\n'] + m.last());
        lemma_no_occurrence_joined(join(m1, "\n"@), '\n', m.last(), p);
    }
}

proof fn lemma_find_at(s: Seq<char>, p: Seq<char>, i: int)
    requires
        occurs_at(s, p, i),
        forall|j: int| 0 <= j < i ==> !occurs_at(s, p, j),
    ensures
        find_seq(s, p) == Some(i),
{
    reveal(find_seq);
    let k = choose|k: int| occurs_at(s, p, k) && forall|j: int| 0 <= j < k ==> !occurs_at(s, p, j);
    assert(occurs_at(s, p, k) && forall|j: int| 0 <= j < k ==> !occurs_at(s, p, j));
    if k < i {
        assert(!occurs_at(s, p, k));
    }
    if k > i {
        assert(!occurs_at(s, p, i));
    }
}

proof fn lemma_find_none(s: Seq<char>, p: Seq<char>)
    requires
        !contains_seq(s, p),
    ensures
        find_seq(s, p) is None,
{
    reveal(find_seq);
}

proof fn lemma_min_occurrence(s: Seq<char>, p: Seq<char>, i: int)
    requires
        occurs_at(s, p, i),
    ensures
        exists|k: int| occurs_at(s, p, k) && forall|j: int| 0 <= j < k ==> !occurs_at(s, p, j),
    decreases i,
{
    if exists|j: int| 0 <= j < i && occurs_at(s, p, j) {
        let j = choose|j: int| 0 <= j < i && occurs_at(s, p, j);
        lemma_min_occurrence(s, p, j);
    } else {
        assert(occurs_at(s, p, i) && forall|j: int| 0 <= j < i ==> !occurs_at(s, p, j));
    }
}

proof fn lemma_find_first(s: Seq<char>, p: Seq<char>)
    requires
        find_seq(s, p) is Some,
    ensures
        occurs_at(s, p, find_seq(s, p)->0),
        forall|j: int| 0 <= j < find_seq(s, p)->0 ==> !occurs_at(s, p, j),
{
    reveal(find_seq);
    let i = choose|i: int| occurs_at(s, p, i);
    lemma_min_occurrence(s, p, i);
}

/// Whether no two elements of a list are equal.
pub open spec fn distinct(l: Seq<Seq<char>>) -> bool {
    forall|i: int, j: int| 0 <= i < j < l.len() ==> l[i] != l[j]
}

/// The paths that a notes block may list and read back unchanged: managed,
/// trimmed, on one line, and without the closing line of the block.
pub open spec fn listable(p: Seq<char>) -> bool {
    is_managed_path(p) && trim(p) == p && lacks(p, '\n') && !contains_seq(p, block_end())
}

proof fn lemma_managed_paths_of(lines: Seq<Seq<char>>)
    ensures
        distinct(managed_paths(lines)),
        forall|i: int|
            0 <= i < managed_paths(lines).len() ==> is_managed_path(#[trigger] managed_paths(lines)[i])
                && exists|k: int| 0 <= k < lines.len() && managed_paths(lines)[i] == trim(lines[k]),
    decreases lines.len(),
{
    if lines.len() > 0 {
        let l1 = lines.drop_last();
        lemma_managed_paths_of(l1);
        let before = managed_paths(l1);
        let r = managed_paths(lines);
        assert forall|i: int| 0 <= i < r.len() implies is_managed_path(#[trigger] r[i]) && exists|k: int|
            0 <= k < lines.len() && r[i] == trim(lines[k]) by {
            if i < before.len() {
                let k = choose|k: int| 0 <= k < l1.len() && before[i] == trim(l1[k]);
                assert(lines[k] == l1[k]);
            } else {
                assert(r[i] == trim(lines[lines.len() - 1]));
            }
        }
    }
}

proof fn lemma_managed_paths_listed(m: Seq<Seq<char>>, k: int)
    requires
        0 <= k <= m.len(),
        distinct(m),
        forall|i: int| 0 <= i < m.len() ==> listable(#[trigger] m[i]),
    ensures
        managed_paths(seq![Seq::<char>::empty()] + m.take(k)) == m.take(k),
    decreases k,
{
    reveal_strlit("/home/herm/calendar-attachments");
    let e = Seq::<char>::empty();
    assert(trim(e) =~= e);
    if k == 0 {
        let l = seq![e] + m.take(0);
        assert(l =~= seq![e]);
        assert(l.drop_last() =~= Seq::<Seq<char>>::empty());
        assert(managed_paths(l.drop_last()) =~= Seq::<Seq<char>>::empty());
        assert(l.last() == e);
        assert(!is_managed_path(trim(l.last())));
        assert(managed_paths(l) =~= Seq::<Seq<char>>::empty());
        assert(m.take(0) =~= Seq::<Seq<char>>::empty());
    } else {
        lemma_managed_paths_listed(m, k - 1);
        let l = seq![e] + m.take(k);
        assert(l.drop_last() =~= seq![e] + m.take(k - 1));
        assert(l.last() == m[k - 1]);
        assert(listable(m[k - 1]));
        assert(!m.take(k - 1).contains(m[k - 1])) by {
            if m.take(k - 1).contains(m[k - 1]) {
                let j = choose|j: int| 0 <= j < m.take(k - 1).len() && #[trigger] m.take(k - 1)[j] == m[k - 1];
                assert(m[j] == m[k - 1]);
            }
        }
        assert(managed_paths(l.drop_last()) == m.take(k - 1));
        assert(managed_paths(l) == m.take(k - 1).push(m[k - 1]));
        assert(m.take(k - 1).push(m[k - 1]) =~= m.take(k));
    }
}

proof fn lemma_managed_paths_block(m: Seq<Seq<char>>)
    requires
        distinct(m),
        forall|i: int| 0 <= i < m.len() ==> listable(#[trigger] m[i]),
    ensures
        managed_paths(seq![Seq::<char>::empty()] + m + seq![Seq::<char>::empty()]) == m,
{
    reveal_strlit("/home/herm/calendar-attachments");
    let e = Seq::<char>::empty();
    lemma_managed_paths_listed(m, m.len() as int);
    assert(m.take(m.len() as int) =~= m);
    let l = seq![e] + m + seq![e];
    assert(l.drop_last() =~= seq![e] + m);
    assert(l.last() == e);
    assert(trim(e) =~= e);
    assert(!is_managed_path(e));
}

proof fn lemma_merge_paths(paths: Seq<Seq<char>>, new: Seq<Seq<char>>)
    requires
        distinct(paths),
    ensures
        distinct(merge_paths(paths, new)),
        forall|i: int|
            0 <= i < merge_paths(paths, new).len() ==> paths.contains(#[trigger] merge_paths(paths, new)[i])
                || new.contains(merge_paths(paths, new)[i]),
    decreases new.len(),
{
    if new.len() > 0 {
        let n1 = new.drop_last();
        lemma_merge_paths(paths, n1);
        let before = merge_paths(paths, n1);
        let r = merge_paths(paths, new);
        assert forall|i: int| 0 <= i < r.len() implies paths.contains(#[trigger] r[i]) || new.contains(
            r[i],
        ) by {
            if i < before.len() {
                if n1.contains(before[i]) {
                    let j = choose|j: int| 0 <= j < n1.len() && n1[j] == before[i];
                    assert(new[j] == n1[j]);
                }
            } else {
                assert(new[new.len() - 1] == r[i]);
            }
        }
    }
}

proof fn lemma_existing_listable(notes: Seq<char>)
    ensures
        distinct(split_notes_spec(notes).1),
        forall|i: int|
            0 <= i < split_notes_spec(notes).1.len() ==> listable(#[trigger] split_notes_spec(notes).1[i]),
{
    match find_seq(notes, block_start()) {
        None => {},
        Some(start) => {
            let paths_start = start + block_start().len();
            let tail = notes.skip(paths_start);
            match find_seq(tail, block_end()) {
                None => {},
                Some(rel) => {
                    lemma_find_first(notes, block_start());
                    lemma_find_first(tail, block_end());
                    reveal_strlit("[/Herm attachments]");
                    let end = paths_start + rel;
                    let mid = notes.subrange(paths_start, end);
                    assert(mid =~= tail.subrange(0, rel));
                    assert(!contains_seq(mid, block_end())) by {
                        assert forall|i: int| !occurs_at(mid, block_end(), i) by {
                            if occurs_at(mid, block_end(), i) {
                                lemma_occurs_in_subrange(tail, 0, rel, block_end(), i);
                                assert(i < rel);
                            }
                        }
                    }
                    let lines = split_char(mid, '\n');
                    lemma_split_pieces(mid, '\n');
                    lemma_managed_paths_of(lines);
                    let r = managed_paths(lines);
                    assert forall|i: int| 0 <= i < r.len() implies listable(#[trigger] r[i]) by {
                        let k = choose|k: int| 0 <= k < lines.len() && r[i] == trim(lines[k]);
                        let x = lines[k];
                        lemma_trim_idempotent(x);
                        lemma_trim_elements(x);
                        assert(lacks(x, '\n'));
                        assert(lacks(trim(x), '\n')) by {
                            assert forall|q: int| 0 <= q < trim(x).len() implies trim(x)[q] != '\n' by {
                                let j = choose|j: int| 0 <= j < x.len() && x[j] == trim(x)[q];
                            }
                        }
                        let (a, b) = choose|a: int, b: int| 0 <= a <= b <= mid.len() && x == mid.subrange(a, b);
                        lemma_trim_subrange(x);
                        let (a2, b2) = choose|a2: int, b2: int| 0 <= a2 <= b2 <= x.len() && trim(x) == x.subrange(a2, b2);
                        assert(trim(x) =~= mid.subrange(a + a2, a + b2));
                        assert(!contains_seq(trim(x), block_end())) by {
                            assert forall|q: int| !occurs_at(trim(x), block_end(), q) by {
                                if occurs_at(trim(x), block_end(), q) {
                                    lemma_occurs_in_subrange(mid, a + a2, a + b2, block_end(), q);
                                }
                            }
                        }
                    }
                },
            }
        },
    }
}


/// The lines of the attachment block that lists `m`, between its markers.
pub open spec fn block_lines(m: Seq<Seq<char>>) -> Seq<char> {
    seq!['\n'] + join(m, "\n"@) + seq!['\n']
}

#[verifier::spinoff_prover]
#[verifier::rlimit(40)]
proof fn lemma_block_start_found(plain: Seq<char>, rest: Seq<char>)
    requires
        !contains_seq(plain, block_start()),
        occurs_at(rest, block_start(), 0),
    ensures
        ({
            let o = if plain.len() == 0 {
                rest
            } else {
                plain + "\n\n"@ + rest
            };
            let off = if plain.len() == 0 {
                0int
            } else {
                plain.len() as int + 2
            };
            find_seq(o, block_start()) == Some(off) && o.skip(off) == rest
        }),
{
    reveal_strlit("[Herm attachments]");
    reveal_strlit("\n\n");
    let start = block_start();
    let o = if plain.len() == 0 {
        rest
    } else {
        plain + "\n\n"@ + rest
    };
    let off = if plain.len() == 0 {
        0int
    } else {
        plain.len() as int + 2
    };
    assert(o.skip(off) =~= rest);
    assert(o.subrange(off, off + 18) =~= rest.subrange(0, 18));
    assert forall|q: int| 0 <= q < off implies !occurs_at(o, start, q) by {
        if occurs_at(o, start, q) {
            if q + 18 <= plain.len() {
                assert(o.subrange(q, q + 18) =~= plain.subrange(q, q + 18));
                assert(occurs_at(plain, start, q));
            } else {
                let c = if q >= plain.len() {
                    q
                } else {
                    plain.len() as int
                };
                assert(o[c] == '\n');
                lemma_no_occurrence_over(o, start, q, c);
            }
        }
    }
    lemma_find_at(o, start, off);
}

proof fn lemma_lines_without_end(m: Seq<Seq<char>>)
    requires
        forall|k: int| 0 <= k < m.len() ==> !contains_seq(#[trigger] m[k], block_end()),
    ensures
        !contains_seq(block_lines(m), block_end()),
{
    reveal_strlit("[/Herm attachments]");
    let end_marker = block_end();
    let j = join(m, "\n"@);
    lemma_join_without(m, end_marker);
    assert forall|q: int| !occurs_at(Seq::<char>::empty(), end_marker, q) by {}
    lemma_no_occurrence_joined(Seq::<char>::empty(), '\n', j, end_marker);
    assert(Seq::<char>::empty() + seq!['\n'] + j =~= seq!['\n'] + j);
    lemma_no_occurrence_joined(seq!['\n'] + j, '\n', Seq::<char>::empty(), end_marker);
    assert(seq!['\n'] + j + seq!['\n'] + Seq::<char>::empty() =~= block_lines(m));
}

proof fn lemma_pattern_after(x: Seq<char>, p: Seq<char>)
    requires
        x.len() > 0,
        p.len() > 0,
        lacks(p, x.last()),
        !contains_seq(x, p),
    ensures
        find_seq(x + p, p) == Some(x.len() as int),
{
    let tail = x + p;
    assert(tail.subrange(x.len() as int, x.len() + p.len() as int) =~= p);
    assert forall|q: int| 0 <= q < x.len() implies !occurs_at(tail, p, q) by {
        if occurs_at(tail, p, q) {
            if q + p.len() <= x.len() {
                assert(tail.subrange(q, q + p.len()) =~= x.subrange(q, q + p.len()));
                assert(occurs_at(x, p, q));
            } else {
                assert(tail[x.len() - 1] == x.last());
                lemma_no_occurrence_over(tail, p, q, x.len() - 1);
            }
        }
    }
    lemma_find_at(tail, p, x.len() as int);
}

proof fn lemma_block_lines_split(m: Seq<Seq<char>>)
    requires
        m.len() > 0,
        forall|k: int| 0 <= k < m.len() ==> listable(#[trigger] m[k]),
    ensures
        split_char(block_lines(m), '\n') == seq![Seq::<char>::empty()] + m + seq![Seq::<char>::empty()],
{
    let j = join(m, "\n"@);
    let x = block_lines(m);
    lemma_split_join(m);
    assert(x =~= Seq::<char>::empty() + seq!['\n'] + (j + seq!['\n'] + Seq::<char>::empty()));
    lemma_split_concat(Seq::<char>::empty(), '\n', j + seq!['\n'] + Seq::<char>::empty());
    lemma_split_concat(j, '\n', Seq::<char>::empty());
    assert(split_char(Seq::<char>::empty(), '\n') == seq![Seq::<char>::empty()]);
    assert(split_char(x, '\n') =~= seq![Seq::<char>::empty()] + m + seq![Seq::<char>::empty()]);
}

proof fn lemma_trim_start_len(s: Seq<char>)
    ensures
        trim_start(s).len() <= s.len(),
    decreases s.len(),
{
    if s.len() > 0 && is_ws(s[0]) {
        lemma_trim_start_len(s.drop_first());
    }
}

proof fn lemma_trim_end_len(s: Seq<char>)
    ensures
        trim_end(s).len() <= s.len(),
    decreases s.len(),
{
    if s.len() > 0 && is_ws(s.last()) {
        lemma_trim_end_len(s.drop_last());
    }
}

proof fn lemma_trim_then_blank_lines(t: Seq<char>)
    requires
        trim(t) == t,
    ensures
        trim(t + "\n\n"@) == t,
{
    reveal_strlit("\n\n");
    let w = t + "\n\n"@;
    assert(is_ws('\n'));
    assert(w.len() == t.len() + 2);
    assert(w.last() == '\n');
    assert(w.drop_last() =~= t + seq!['\n']);
    assert(w.drop_last().last() == '\n');
    assert(w.drop_last().drop_last() =~= t);
    if t.len() == 0 {
        assert(w[0] == '\n');
        assert(w.drop_first() =~= seq!['\n']);
        assert(w.drop_first()[0] == '\n');
        assert(w.drop_first().drop_first() =~= Seq::<char>::empty());
        assert(trim_start(w.drop_first().drop_first()) =~= Seq::<char>::empty());
        assert(trim_start(w.drop_first()) =~= Seq::<char>::empty());
        assert(trim_start(w) =~= Seq::<char>::empty());
        assert(trim_end(Seq::<char>::empty()) =~= Seq::<char>::empty());
    } else {
        assert(!is_ws(t[0])) by {
            if is_ws(t[0]) {
                lemma_trim_start_len(t.drop_first());
                lemma_trim_end_len(trim_start(t));
            }
        }
        assert(trim_start(t) == t);
        assert(w[0] == t[0]);
        assert(trim_start(w) == w);
        assert(trim_end(t) == t);
        assert(trim_end(w) == trim_end(w.drop_last()));
        assert(trim_end(w.drop_last()) == trim_end(w.drop_last().drop_last()));
    }
}

proof fn lemma_split_plain_trimmed(notes: Seq<char>)
    ensures
        trim(split_notes_spec(notes).0) == split_notes_spec(notes).0,
{
    match find_seq(notes, block_start()) {
        None => lemma_trim_idempotent(notes),
        Some(start) => {
            let paths_start = start + block_start().len();
            match find_seq(notes.skip(paths_start), block_end()) {
                None => lemma_trim_idempotent(notes),
                Some(rel) => {
                    let end = paths_start + rel;
                    lemma_trim_idempotent(notes.take(start) + notes.skip(end + block_end().len()));
                },
            }
        },
    }
}

/// The notes read back after new attachments are added: the same text outside
/// the block (for notes without a block, the trimmed notes), and the paths they
/// listed, then the new ones, each once. The new paths are ones a block can
/// hold (managed, trimmed, on one line, without the block's closing line), and
/// the text outside the block does not open a block itself.
pub proof fn law_listed_attachments_read_back(notes: Seq<char>, new: Seq<Seq<char>>)
    requires
        forall|k: int| 0 <= k < new.len() ==> listable(#[trigger] new[k]),
        !contains_seq(split_notes_spec(notes).0, block_start()),
    ensures
        split_notes_spec(notes_with_attachments_spec(notes, new)).0 == split_notes_spec(notes).0,
        split_notes_spec(notes_with_attachments_spec(notes, new)).1 == merge_paths(
            split_notes_spec(notes).1,
            new,
        ),
{
    lemma_split_plain_trimmed(notes);
    reveal_strlit("[Herm attachments]");
    reveal_strlit("[/Herm attachments]");
    reveal_strlit("\n");
    let plain = split_notes_spec(notes).0;
    let paths = split_notes_spec(notes).1;
    lemma_existing_listable(notes);
    lemma_merge_paths(paths, new);
    let m = merge_paths(paths, new);
    assert forall|i: int| 0 <= i < m.len() implies listable(#[trigger] m[i]) by {
        if paths.contains(m[i]) {
            let j = choose|j: int| 0 <= j < paths.len() && paths[j] == m[i];
            assert(listable(paths[j]));
        } else {
            assert(new.contains(m[i]));
            let j = choose|j: int| 0 <= j < new.len() && new[j] == m[i];
            assert(listable(new[j]));
        }
    }
    let o = notes_text(plain, m);
    if m.len() == 0 {
        lemma_find_none(plain, block_start());
    } else {
        let x = block_lines(m);
        let rest = block_start() + x + block_end();
        assert(rest =~= block_start() + "\n"@ + join(m, "\n"@) + "\n"@ + block_end());
        assert(rest.subrange(0, 18) =~= block_start());
        lemma_block_start_found(plain, rest);
        let off = if plain.len() == 0 {
            0int
        } else {
            plain.len() as int + 2
        };
        let ps = off + 18;
        assert(o.skip(ps) =~= x + block_end());
        assert forall|k: int| 0 <= k < m.len() implies !contains_seq(#[trigger] m[k], block_end()) by {
            assert(listable(m[k]));
        }
        lemma_lines_without_end(m);
        assert(lacks(block_end(), '\n'));
        lemma_pattern_after(x, block_end());
        assert(o.subrange(ps, ps + x.len()) =~= x);
        lemma_block_lines_split(m);
        lemma_managed_paths_block(m);
        let end = ps + x.len();
        assert(o.skip(end + 19) =~= Seq::<char>::empty());
        if plain.len() == 0 {
            assert(o.take(off) + o.skip(end + 19) =~= Seq::<char>::empty());
        } else {
            assert(o.take(off) + o.skip(end + 19) =~= plain + "\n\n"@);
            lemma_trim_then_blank_lines(plain);
        }
    }
}


proof fn lemma_merge_holds_new(paths: Seq<Seq<char>>, new: Seq<Seq<char>>)
    ensures
        forall|k: int| 0 <= k < new.len() ==> merge_paths(paths, new).contains(#[trigger] new[k]),
    decreases new.len(),
{
    if new.len() > 0 {
        let n1 = new.drop_last();
        lemma_merge_holds_new(paths, n1);
        let before = merge_paths(paths, n1);
        let m = merge_paths(paths, new);
        assert forall|k: int| 0 <= k < new.len() implies m.contains(#[trigger] new[k]) by {
            if k < new.len() - 1 {
                assert(new[k] == n1[k]);
                assert(before.contains(n1[k]));
                let j = choose|j: int| 0 <= j < before.len() && before[j] == n1[k];
                if !before.contains(new.last()) {
                    assert(m[j] == before[j]);
                }
            } else {
                if !before.contains(new.last()) {
                    assert(m[before.len() as int] == new.last());
                }
            }
        }
    }
}

proof fn lemma_merge_known(q: Seq<Seq<char>>, new: Seq<Seq<char>>)
    requires
        forall|k: int| 0 <= k < new.len() ==> q.contains(#[trigger] new[k]),
    ensures
        merge_paths(q, new) == q,
    decreases new.len(),
{
    if new.len() > 0 {
        let n1 = new.drop_last();
        assert forall|k: int| 0 <= k < n1.len() implies q.contains(#[trigger] n1[k]) by {
            assert(n1[k] == new[k]);
        }
        lemma_merge_known(q, n1);
        assert(q.contains(new[new.len() - 1]));
    }
}

/// Adding the same attachments to notes a second time changes nothing: the
/// notes list each path once already. The paths are ones a block can hold, and
/// the text outside the block does not open a block itself.
pub proof fn law_adding_attachments_twice(notes: Seq<char>, new: Seq<Seq<char>>)
    requires
        forall|k: int| 0 <= k < new.len() ==> listable(#[trigger] new[k]),
        !contains_seq(split_notes_spec(notes).0, block_start()),
    ensures
        notes_with_attachments_spec(notes_with_attachments_spec(notes, new), new)
            == notes_with_attachments_spec(notes, new),
{
    law_listed_attachments_read_back(notes, new);
    let paths = split_notes_spec(notes).1;
    lemma_merge_holds_new(paths, new);
    lemma_merge_known(merge_paths(paths, new), new);
}

proof fn lemma_hex_digits(n: nat, k: nat)
    ensures
        hex_digits(n, k).len() == k,
        lacks(hex_digits(n, k), '/'),
    decreases k,
{
    if k > 0 {
        lemma_hex_digits(n / 16, (k - 1) as nat);
        let d = n % 16;
        assert(hex_char(d) != '/');
    }
}

proof fn lemma_strip_marks_shape_at(m: Seq<char>, lo: int, hi1: int)
    requires
        forall|k: int| 0 <= k < m.len() ==> m[k] != '/',
        0 <= lo <= hi1 < m.len(),
        !is_mark(m[lo]),
        !is_mark(m[hi1]),
        forall|j: int| 0 <= j < lo ==> is_mark(m[j]),
        forall|j: int| hi1 < j < m.len() ==> is_mark(m[j]),
    ensures
        strip_marks(m).len() > 0,
        !is_mark(strip_marks(m)[0]),
        lacks(strip_marks(m), '/'),
{
    lemma_strip_bounds(m, lo, hi1 + 1);
    let name = m.subrange(lo, hi1 + 1);
    assert(name[0] == m[lo]);
    assert forall|k: int| 0 <= k < name.len() implies name[k] != '/' by {
        assert(name[k] == m[lo + k]);
    }
}

proof fn first_unmarked_from(m: Seq<char>, i: int, i0: int) -> (k: int)
    requires
        0 <= i <= i0 < m.len(),
        !is_mark(m[i0]),
        forall|j: int| 0 <= j < i ==> is_mark(m[j]),
    ensures
        0 <= k <= i0,
        !is_mark(m[k]),
        forall|j: int| 0 <= j < k ==> is_mark(m[j]),
    decreases i0 - i,
{
    if !is_mark(m[i]) {
        i
    } else {
        first_unmarked_from(m, i + 1, i0)
    }
}

proof fn last_unmarked_from(m: Seq<char>, i: int, i0: int) -> (k: int)
    requires
        0 <= i0 <= i < m.len(),
        !is_mark(m[i0]),
        forall|j: int| i < j < m.len() ==> is_mark(m[j]),
    ensures
        i0 <= k < m.len(),
        !is_mark(m[k]),
        forall|j: int| k < j < m.len() ==> is_mark(m[j]),
    decreases i - i0,
{
    if !is_mark(m[i]) {
        i
    } else {
        last_unmarked_from(m, i - 1, i0)
    }
}

proof fn lemma_strip_marks_shape(m: Seq<char>)
    requires
        forall|k: int| 0 <= k < m.len() ==> m[k] != '/',
    ensures
        strip_marks(m).len() > 0 ==> !is_mark(strip_marks(m)[0]),
        lacks(strip_marks(m), '/'),
{
    if exists|i: int| 0 <= i < m.len() && !is_mark(m[i]) {
        let i0 = choose|i: int| 0 <= i < m.len() && !is_mark(m[i]);
        let lo = first_unmarked_from(m, 0, i0);
        let hi1 = last_unmarked_from(m, m.len() - 1, i0);
        lemma_strip_marks_shape_at(m, lo, hi1);
    } else {
        reveal(strip_marks);
        assert(strip_marks(m) =~= Seq::<char>::empty());
    }
}

/// The bounds of what `strip_marks` keeps of `m`, when it keeps anything.
proof fn strip_range(m: Seq<char>) -> (r: (int, int))
    ensures
        strip_marks(m).len() > 0 ==> {
            &&& 0 <= r.0 < r.1 <= m.len()
            &&& strip_marks(m) == m.subrange(r.0, r.1)
            &&& !is_mark(m[r.0])
            &&& !is_mark(m[r.1 - 1])
        },
{
    if exists|i: int| 0 <= i < m.len() && !is_mark(m[i]) {
        let i0 = choose|i: int| 0 <= i < m.len() && !is_mark(m[i]);
        let lo = first_unmarked_from(m, 0, i0);
        let hi1 = last_unmarked_from(m, m.len() - 1, i0);
        lemma_strip_bounds(m, lo, hi1 + 1);
        (lo, hi1 + 1)
    } else {
        reveal(strip_marks);
        assert(strip_marks(m) =~= Seq::<char>::empty());
        (0, 0)
    }
}

/// A safe attachment name is never empty, and making it safe again changes
/// nothing.
pub proof fn law_safe_name_stable(value: Seq<char>)
    ensures
        safe_attachment_name_spec(value).len() > 0,
        safe_attachment_name_spec(safe_attachment_name_spec(value)) == safe_attachment_name_spec(value),
{
    reveal_strlit("attachment");
    let mapped = value.map_values(|c: char| safe_char(c));
    let name = strip_marks(mapped);
    let x = safe_attachment_name_spec(value);
    let (lo, hi) = strip_range(mapped);
    assert(x.len() > 0);
    assert forall|k: int| 0 <= k < x.len() implies safe_char(#[trigger] x[k]) == x[k] by {
        if name.len() > 0 {
            assert(x[k] == mapped[lo + k]);
            assert(mapped[lo + k] == safe_char(value[lo + k]));
        }
    }
    assert(!is_mark(x[0]) && !is_mark(x[x.len() - 1])) by {
        if name.len() > 0 {
            assert(x[0] == mapped[lo]);
            assert(x[x.len() - 1] == mapped[hi - 1]);
        }
    }
    let mapped2 = x.map_values(|c: char| safe_char(c));
    assert(mapped2 =~= x);
    lemma_strip_bounds(x, 0, x.len() as int);
    assert(x.subrange(0, x.len() as int) =~= x);
}

proof fn lemma_safe_name_plain(value: Seq<char>)
    ensures
        plain_component(safe_attachment_name_spec(value)),
        lacks(safe_attachment_name_spec(value), '/'),
{
    let mapped = value.map_values(|c: char| safe_char(c));
    assert forall|k: int| 0 <= k < mapped.len() implies mapped[k] != '/' by {
        assert(mapped[k] == safe_char(value[k]));
    }
    lemma_strip_marks_shape(mapped);
    let name = strip_marks(mapped);
    if name.len() > 0 {
        lemma_not_dots(name);
    } else {
        reveal_strlit("attachment");
        lemma_not_dots("attachment"@);
    }
}

proof fn lemma_not_dots(name: Seq<char>)
    requires
        name.len() > 0,
        !is_mark(name[0]) || name.len() > 2,
    ensures
        name != "."@ && name != ".."@,
{
    reveal_strlit(".");
    reveal_strlit("..");
}

/// Where an attachment is stored: the attachment root, the sixteen-digit
/// directory of the event, and the safe name of the file.
pub open spec fn stored_path(h: u64, name: Seq<char>) -> Seq<char> {
    attachment_root() + "/"@ + hex_digits(h as nat, 16) + "/"@ + safe_attachment_name_spec(name)
}

/// The path where a copied attachment is first tried is one that the sandbox
/// manages (and so may list in the notes and remove again), whatever the
/// event's hash and the original file name.
proof fn lemma_managed_from_parts(a: Seq<char>, b: Seq<char>)
    requires
        plain_component(a),
        plain_component(b),
        lacks(a, '/'),
        lacks(b, '/'),
    ensures
        is_managed_path(attachment_root() + "/"@ + a + "/"@ + b),
{
    reveal_strlit("/home/herm/calendar-attachments");
    reveal_strlit("/");
    let prefix = attachment_root().push('/');
    let p = attachment_root() + "/"@ + a + "/"@ + b;
    let rest = a + seq!['/'] + b;
    assert(p =~= prefix + rest);
    assert(p.take(prefix.len() as int) =~= prefix);
    assert(p.skip(prefix.len() as int) =~= rest);
    lemma_split_concat(a, '/', b);
    lemma_split_without_sep(a, '/');
    lemma_split_without_sep(b, '/');
    assert(split_char(rest, '/') =~= seq![a, b]);
}

/// The path where a copied attachment is first tried is one that the sandbox
/// manages (and so may list in the notes and remove again), whatever the
/// event's hash and the original file name.
pub proof fn law_stored_path_is_managed(h: u64, name: Seq<char>)
    ensures
        is_managed_path(stored_path(h, name)),
{
    let scope = hex_digits(h as nat, 16);
    let file = safe_attachment_name_spec(name);
    lemma_hex_digits(h as nat, 16);
    lemma_not_dots(scope);
    lemma_safe_name_plain(name);
    lemma_managed_from_parts(scope, file);
}

} // verus!
