//! Decisions of the command-line tool: the language of a session, the network
//! policy needed for WebView PDF rendering, REPL input completeness and the
//! progress report of a sandbox build.

use vstd::prelude::*;
use crate::config::{join, push_joined};
use crate::text::{
    contains_chars, contains_seq, decimal, has_prefix, is_whitespace, is_ws, parse_unsigned,
    parse_unsigned_chars, push_all, push_decimal, push_str_chars, starts_with_chars, str_chars,
    str_contains, str_eq, string_of, trim, trim_chars,
};

verus! {

/// Resolved language mode.
#[derive(Debug, Clone, Copy, PartialEq, Eq, Structural)]
pub enum Language {
    Bash,
    Python,
    Lua,
}

/// Determine the effective language from flags. Default is Bash.
pub fn resolve_language(bash: bool, python: bool, lua: bool) -> (r: Language)
    ensures
        r == (if python {
            Language::Python
        } else if lua {
            Language::Lua
        } else {
            Language::Bash
        }),
{
    if python {
        Language::Python
    } else if lua {
        Language::Lua
    } else {
        Language::Bash
    }
}

/// WebView PDF rendering may reach the network, so it is allowed only under a
/// fully unrestricted policy: no denied domain and `*` among the allowed ones.
pub fn webview_pdf_rendering_allowed(allow_domains: &[String], deny_domains: &[String]) -> (r: bool)
    ensures
        r == (deny_domains@.len() == 0 && exists|i: int|
            0 <= i < allow_domains@.len() && #[trigger] allow_domains@[i]@ == "*"@),
{
    if deny_domains.len() != 0 {
        return false;
    }
    let mut i: usize = 0;
    while i < allow_domains.len()
        invariant
            i <= allow_domains@.len(),
            deny_domains@.len() == 0,
            forall|j: int| 0 <= j < i ==> #[trigger] allow_domains@[j]@ != "*"@,
        decreases allow_domains.len() - i,
    {
        if str_eq(allow_domains[i].as_str(), "*") {
            assert(allow_domains@[i as int]@ == "*"@);
            return true;
        }
        i += 1;
    }
    false
}

/// Heuristic: whether a Luau parse error says that the input is incomplete
/// (an `Expected ...` error about a block left open).
pub fn is_incomplete_error(err: &str) -> (r: bool)
    ensures
        r == (contains_seq(err@, "Expected"@) && (contains_seq(err@, "to close"@) || contains_seq(
            err@,
            "Expected 'end'"@,
        ))),
{
    str_contains(err, "Expected") && (str_contains(err, "to close") || str_contains(
        err,
        "Expected 'end'",
    ))
}

/// The name of the REPL history file of a language, in the home directory.
pub fn history_file_name(lang: Language) -> (r: &'static str)
    ensures
        r@ == match lang {
            Language::Python => ".cpsl_py_history"@,
            Language::Bash => ".cpsl_sh_history"@,
            Language::Lua => ".cpsl_history"@,
        },
{
    match lang {
        Language::Python => ".cpsl_py_history",
        Language::Bash => ".cpsl_sh_history",
        Language::Lua => ".cpsl_history",
    }
}


// ── Building a sandbox ───────────────────────────────────────────────

/// The config file a build reads: the one given with `-f/--file`, else the
/// positional one, else `cpsl.toml`; giving both is an error.
pub fn build_config_path(config: Option<&str>, file: Option<&str>) -> (r: Result<String, String>)
    ensures
        match (config, file) {
            (Some(_), Some(_)) => r matches Err(e)
                && e@ == "error: pass the config path either positionally or with -f/--file, not both"@,
            (_, Some(f)) => r matches Ok(p) && p@ == f@,
            (Some(c), None) => r matches Ok(p) && p@ == c@,
            (None, None) => r matches Ok(p) && p@ == "cpsl.toml"@,
        },
{
    match (config, file) {
        (Some(_), Some(_)) => Err(
            string_of(
                &str_chars(
                    "error: pass the config path either positionally or with -f/--file, not both",
                ),
            ),
        ),
        (_, Some(f)) => Ok(string_of(&str_chars(f))),
        (Some(c), None) => Ok(string_of(&str_chars(c))),
        (None, None) => Ok(string_of(&str_chars("cpsl.toml"))),
    }
}

/// The views of a vector of strings.
pub open spec fn string_views(v: Seq<String>) -> Seq<Seq<char>> {
    v.map_values(|s: String| s@)
}

/// The arguments of the `cargo` command that builds a sandbox: the library
/// package or the command-line one, no default features, and the module
/// features joined with commas when there are any.
pub open spec fn cargo_build_args_spec(lib_mode: bool, features: Seq<Seq<char>>) -> Seq<Seq<char>> {
    let package = if lib_mode {
        "cpsl-core"@
    } else {
        "cpsl-cli"@
    };
    let base = seq!["build"@, "--release"@, "-p"@, package, "--no-default-features"@];
    if features.len() == 0 {
        base
    } else {
        base + seq!["--features"@, join(features, ","@)]
    }
}

fn str_string(s: &str) -> (r: String)
    ensures
        r@ == s@,
{
    string_of(&str_chars(s))
}

/// The arguments of the `cargo` command that builds a sandbox.
pub fn cargo_build_args(lib_mode: bool, features: &Vec<String>) -> (r: Vec<String>)
    ensures
        string_views(r@) == cargo_build_args_spec(lib_mode, string_views(features@)),
{
    let mut args: Vec<String> = Vec::new();
    args.push(str_string("build"));
    args.push(str_string("--release"));
    args.push(str_string("-p"));
    args.push(if lib_mode {
        str_string("cpsl-core")
    } else {
        str_string("cpsl-cli")
    });
    args.push(str_string("--no-default-features"));
    if features.len() > 0 {
        let mut parts: Vec<Vec<char>> = Vec::new();
        let mut i: usize = 0;
        while i < features.len()
            invariant
                i <= features.len(),
                parts@.map_values(|p: Vec<char>| p@) == string_views(features@).take(i as int),
            decreases features.len() - i,
        {
            let ghost before = parts@;
            let piece = str_chars(features[i].as_str());
            assert(piece@ == string_views(features@)[i as int]);
            parts.push(piece);
            assert(parts@ == before.push(piece));
            assert(parts@.map_values(|p: Vec<char>| p@) =~= before.map_values(|p: Vec<char>| p@).push(
                piece@,
            ));
            assert(string_views(features@).take(i + 1) =~= string_views(features@).take(
                i as int,
            ).push(piece@));
            i += 1;
        }
        assert(string_views(features@).take(features@.len() as int) =~= string_views(features@));
        let mut joined: Vec<char> = Vec::new();
        push_joined(&mut joined, &parts, ",");
        args.push(str_string("--features"));
        args.push(string_of(&joined));
    }
    assert(string_views(args@) =~= cargo_build_args_spec(lib_mode, string_views(features@)));
    args
}

/// The white-space separated words of `s`, in order, as `str::split_whitespace`
/// yields them.
pub open spec fn words(s: Seq<char>) -> Seq<Seq<char>>
    decreases s.len(),
{
    if s.len() == 0 {
        seq![]
    } else {
        let w = words(s.drop_last());
        let c = s.last();
        if is_ws(c) {
            w
        } else if s.len() > 1 && !is_ws(s[s.len() - 2]) {
            w.update(w.len() - 1, w.last().push(c))
        } else {
            w.push(seq![c])
        }
    }
}

proof fn lemma_words_nonempty_when_word_ends(s: Seq<char>)
    requires
        s.len() > 0,
        !is_ws(s.last()),
    ensures
        words(s).len() > 0,
    decreases s.len(),
{
    if s.len() > 1 && !is_ws(s[s.len() - 2]) {
        lemma_words_nonempty_when_word_ends(s.drop_last());
    }
}

/// The word being read, as a list of at most one word.
spec fn pending(cur: Seq<char>) -> Seq<Seq<char>> {
    if cur.len() > 0 {
        seq![cur]
    } else {
        seq![]
    }
}

/// The words of `v`, as `str::split_whitespace` yields them.
pub fn split_words(v: &Vec<char>) -> (r: Vec<Vec<char>>)
    ensures
        r@.map_values(|w: Vec<char>| w@) == words(v@),
{
    let mut out: Vec<Vec<char>> = Vec::new();
    let mut cur: Vec<char> = Vec::new();
    let mut i: usize = 0;
    while i < v.len()
        invariant
            i <= v.len(),
            cur@.len() > 0 ==> i > 0 && !is_ws(v@[i - 1]),
            i > 0 && !is_ws(v@[i - 1]) ==> cur@.len() > 0,
            out@.map_values(|x: Vec<char>| x@) + pending(cur@) == words(v@.take(i as int)),
        decreases v.len() - i,
    {
        let c = v[i];
        let ghost prev = v@.take(i as int);
        let ghost s1 = v@.take(i + 1);
        let ghost w = words(prev);
        let ghost old_out = out@;
        let ghost old_cur = cur@;
        assert(s1.drop_last() =~= prev);
        assert(s1.last() == c);
        assert(s1.len() > 1 ==> s1[s1.len() - 2] == v@[i - 1]);
        if is_whitespace(c) {
            assert(words(s1) == w);
            if cur.len() > 0 {
                out.push(cur);
                cur = Vec::new();
                assert(out@.map_values(|x: Vec<char>| x@) =~= old_out.map_values(|x: Vec<char>| x@).push(
                    old_cur,
                ));
                assert(out@.map_values(|x: Vec<char>| x@) + pending(cur@) =~= words(s1));
            } else {
                assert(out@.map_values(|x: Vec<char>| x@) + pending(cur@) =~= words(s1));
            }
        } else {
            if cur.len() > 0 {
                proof {
                    lemma_words_nonempty_when_word_ends(prev);
                }
                assert(w =~= old_out.map_values(|x: Vec<char>| x@).push(old_cur));
                assert(words(s1) == w.update(w.len() - 1, old_cur.push(c)));
                cur.push(c);
                assert(words(s1) =~= old_out.map_values(|x: Vec<char>| x@).push(cur@));
            } else {
                assert(w =~= old_out.map_values(|x: Vec<char>| x@));
                assert(words(s1) == w.push(seq![c]));
                cur.push(c);
                assert(cur@ =~= seq![c]);
            }
            assert(out@.map_values(|x: Vec<char>| x@) + pending(cur@) =~= words(s1));
        }
        assert(out@.map_values(|x: Vec<char>| x@) + pending(cur@) =~= words(s1));
        i += 1;
    }
    if cur.len() > 0 {
        out.push(cur);
    }
    assert(v@.take(v@.len() as int) =~= v@);
    assert(out@.map_values(|w: Vec<char>| w@) =~= words(v@));
    out
}

/// The crate a `Compiling` line of cargo names: the first word after a
/// leading `Compiling ` of the trimmed line, or `...`.
pub open spec fn compiled_crate_name(line: Seq<char>) -> Seq<char> {
    let t = trim(line);
    if has_prefix(t, "Compiling "@) && words(t.skip(10)).len() > 0 {
        words(t.skip(10))[0]
    } else {
        "..."@
    }
}

/// The first word of `ws` that is a `usize` number, as `str::parse` reads it.
pub open spec fn first_count(ws: Seq<Seq<char>>) -> Option<nat>
    decreases ws.len(),
{
    if ws.len() == 0 {
        None
    } else {
        match parse_unsigned(ws[0], usize::MAX as nat) {
            Some(n) => Some(n),
            None => first_count(ws.drop_first()),
        }
    }
}

/// The progress text `[done/total]`, or `[done]` while the total is unknown.
pub open spec fn progress_text(done: nat, total: Option<usize>) -> Seq<char> {
    match total {
        Some(t) => "["@ + decimal(done) + "/"@ + decimal(t as nat) + "]"@,
        None => "["@ + decimal(done) + "]"@,
    }
}

/// Whether a line continues the error block before it.
pub open spec fn continues_error(line: Seq<char>) -> bool {
    has_prefix(line, " "@) || has_prefix(line, "  -->"@) || contains_seq(line, " | "@)
}

/// What a curated build shows of a crate being compiled.
pub struct CompileNotice {
    pub progress: String,
    pub crate_name: String,
}

/// What a curated build keeps of cargo's error output, line by line: the count
/// of compiled crates, the total announced by `Downloading N crates`, and the
/// error blocks.
pub struct BuildProgress {
    pub compiled_count: usize,
    pub total_crates: Option<usize>,
    pub error_lines: Vec<String>,
    pub in_error_block: bool,
}

impl BuildProgress {
    /// The state before the first line.
    pub fn new() -> (r: Self)
        ensures
            r.compiled_count == 0,
            r.total_crates is None,
            r.error_lines@.len() == 0,
            !r.in_error_block,
    {
        BuildProgress {
            compiled_count: 0,
            total_crates: None,
            error_lines: Vec::new(),
            in_error_block: false,
        }
    }

    /// Takes one line of cargo's error output; returns what to show for a
    /// crate that starts compiling.
    pub fn observe_line(&mut self, line: &str) -> (r: Option<CompileNotice>)
        requires
            old(self).compiled_count < usize::MAX,
        ensures
            ({
                let o = *old(self);
                let f = *final(self);
                let l = line@;
                if contains_seq(l, "Compiling"@) {
                    &&& f.compiled_count == o.compiled_count + 1
                    &&& f.total_crates == o.total_crates
                    &&& string_views(f.error_lines@) == string_views(o.error_lines@)
                    &&& f.in_error_block == o.in_error_block
                    &&& r matches Some(n) && n.crate_name@ == compiled_crate_name(l)
                        && n.progress@ == progress_text(f.compiled_count as nat, o.total_crates)
                } else {
                    &&& r is None
                    &&& f.compiled_count == o.compiled_count
                    &&& if contains_seq(l, "Downloading"@) && contains_seq(l, "crates"@) {
                        &&& f.total_crates == (if o.total_crates is None && first_count(
                            words(l),
                        ) is Some {
                            Some(first_count(words(l))->0 as usize)
                        } else {
                            o.total_crates
                        })
                        &&& string_views(f.error_lines@) == string_views(o.error_lines@)
                        &&& f.in_error_block == o.in_error_block
                    } else if has_prefix(l, "error"@) || has_prefix(l, "Error"@) {
                        &&& f.total_crates == o.total_crates
                        &&& f.in_error_block
                        &&& string_views(f.error_lines@) == string_views(o.error_lines@).push(l)
                    } else if o.in_error_block {
                        &&& f.total_crates == o.total_crates
                        &&& if continues_error(l) || l.len() == 0 {
                            &&& f.in_error_block
                            &&& string_views(f.error_lines@) == string_views(o.error_lines@).push(l)
                        } else {
                            &&& !f.in_error_block
                            &&& string_views(f.error_lines@) == string_views(o.error_lines@)
                        }
                    } else {
                        &&& f.total_crates == o.total_crates
                        &&& string_views(f.error_lines@) == string_views(o.error_lines@)
                        &&& f.in_error_block == o.in_error_block
                    }
                }
            }),
    {
        let v = str_chars(line);
        if contains_chars(&v, &str_chars("Compiling")) {
            self.compiled_count = self.compiled_count + 1;
            let t = trim_chars(&v);
            let prefix = str_chars("Compiling ");
            proof {
                reveal_strlit("Compiling ");
            }
            let mut name: Vec<char> = str_chars("...");
            if starts_with_chars(&t, &prefix) {
                let mut rest: Vec<char> = Vec::new();
                let mut k: usize = 10;
                while k < t.len()
                    invariant
                        10 <= k <= t.len(),
                        rest@ == t@.subrange(10, k as int),
                    decreases t.len() - k,
                {
                    rest.push(t[k]);
                    k += 1;
                    assert(rest@ =~= t@.subrange(10, k as int));
                }
                assert(rest@ =~= t@.skip(10));
                let ws = split_words(&rest);
                if ws.len() > 0 {
                    assert(ws@.map_values(|w: Vec<char>| w@)[0] == ws@[0]@);
                    name = Vec::new();
                    push_all(&mut name, &ws[0]);
                    assert(name@ == ws@[0]@);
                }
            }
            let mut progress: Vec<char> = str_chars("[");
            push_decimal(&mut progress, self.compiled_count as u64);
            match self.total_crates {
                Some(total) => {
                    push_str_chars(&mut progress, "/");
                    push_decimal(&mut progress, total as u64);
                },
                None => {},
            }
            push_str_chars(&mut progress, "]");
            return Some(CompileNotice { progress: string_of(&progress), crate_name: string_of(&name) });
        }
        if str_contains(line, "Downloading") && str_contains(line, "crates") {
            let ws = split_words(&v);
            let ghost wv = ws@.map_values(|w: Vec<char>| w@);
            let mut i: usize = 0;
            let mut found: Option<usize> = None;
            assert(wv.skip(0) =~= wv);
            while i < ws.len() && found.is_none()
                invariant
                    i <= ws.len(),
                    wv == ws@.map_values(|w: Vec<char>| w@),
                    found is None ==> first_count(wv) == first_count(wv.skip(i as int)),
                    found matches Some(n) ==> first_count(wv) == Some(n as nat),
                decreases ws.len() - i,
            {
                assert(wv.skip(i as int).drop_first() =~= wv.skip(i + 1));
                assert(wv.skip(i as int)[0] == ws@[i as int]@);
                match parse_unsigned_chars(&ws[i], usize::MAX as u64) {
                    Some(n) => {
                        found = Some(n as usize);
                    },
                    None => {},
                }
                i += 1;
            }
            if found.is_none() {
                assert(wv.skip(ws@.len() as int) =~= Seq::<Seq<char>>::empty());
            }
            if self.total_crates.is_none() {
                self.total_crates = found;
            }
            return None;
        }
        if starts_with_chars(&v, &str_chars("error")) || starts_with_chars(&v, &str_chars("Error")) {
            self.in_error_block = true;
            self.error_lines.push(string_of(&v));
            return None;
        }
        if self.in_error_block {
            if starts_with_chars(&v, &str_chars(" ")) || starts_with_chars(&v, &str_chars("  -->"))
                || contains_chars(&v, &str_chars(" | ")) || v.len() == 0 {
                self.error_lines.push(string_of(&v));
            } else {
                self.in_error_block = false;
            }
        }
        None
    }
}


// ── Running and listing sandboxes ────────────────────────────────────

/// `flag value` for each value, in order.
pub open spec fn flag_pairs(flag: Seq<char>, values: Seq<Seq<char>>) -> Seq<Seq<char>>
    decreases values.len(),
{
    if values.len() == 0 {
        seq![]
    } else {
        flag_pairs(flag, values.drop_last()) + seq![flag, values.last()]
    }
}

fn push_flag_pairs(out: &mut Vec<String>, flag: &str, values: &Vec<String>)
    ensures
        string_views(final(out)@) == string_views(old(out)@) + flag_pairs(flag@, string_views(values@)),
{
    let ghost start = string_views(out@);
    let mut i: usize = 0;
    while i < values.len()
        invariant
            i <= values.len(),
            string_views(out@) == start + flag_pairs(flag@, string_views(values@).take(i as int)),
        decreases values.len() - i,
    {
        let ghost before = out@;
        assert(string_views(values@).take(i + 1).drop_last() =~= string_views(values@).take(i as int));
        out.push(str_string(flag));
        out.push(string_of(&str_chars(values[i].as_str())));
        assert(string_views(out@) =~= string_views(before) + seq![flag@, values@[i as int]@]);
        i += 1;
    }
    assert(string_views(values@).take(values@.len() as int) =~= string_views(values@));
}

/// The arguments with which `cpsl run` starts a built sandbox: `-i` for an
/// interactive session, the language flag, the volumes of the saved config and
/// of the command line, the allowed and denied domains (saved config first),
/// the script, and the inline code after `--`.
pub open spec fn run_args_spec(
    interactive: bool,
    lang: Language,
    volumes: Seq<Seq<char>>,
    allow: Seq<Seq<char>>,
    deny: Seq<Seq<char>>,
    script: Option<Seq<char>>,
    inline: Seq<Seq<char>>,
) -> Seq<Seq<char>> {
    (if interactive {
        seq!["-i"@]
    } else {
        seq![]
    }) + seq![
        match lang {
            Language::Python => "--python"@,
            Language::Lua => "--lua"@,
            Language::Bash => "--bash"@,
        },
    ] + flag_pairs("-v"@, volumes) + flag_pairs("--allow-domain"@, allow) + flag_pairs(
        "--deny-domain"@,
        deny,
    ) + match script {
        Some(s) => seq![s],
        None => seq![],
    } + if inline.len() > 0 {
        seq!["--"@] + inline
    } else {
        seq![]
    }
}

/// The arguments with which `cpsl run` starts a built sandbox; `volumes`,
/// `allow` and `deny` hold the saved config's values before the command
/// line's.
pub fn run_args(
    interactive: bool,
    lang: Language,
    volumes: &Vec<String>,
    allow: &Vec<String>,
    deny: &Vec<String>,
    script: Option<&str>,
    inline: &Vec<String>,
) -> (r: Vec<String>)
    ensures
        string_views(r@) == run_args_spec(
            interactive,
            lang,
            string_views(volumes@),
            string_views(allow@),
            string_views(deny@),
            match script {
                Some(s) => Some(s@),
                None => None,
            },
            string_views(inline@),
        ),
{
    let mut out: Vec<String> = Vec::new();
    if interactive {
        out.push(str_string("-i"));
    }
    out.push(
        match lang {
            Language::Python => str_string("--python"),
            Language::Lua => str_string("--lua"),
            Language::Bash => str_string("--bash"),
        },
    );
    let ghost head = string_views(out@);
    assert(head =~= (if interactive {
        seq!["-i"@]
    } else {
        seq![]
    }) + seq![
        match lang {
            Language::Python => "--python"@,
            Language::Lua => "--lua"@,
            Language::Bash => "--bash"@,
        },
    ]);
    push_flag_pairs(&mut out, "-v", volumes);
    push_flag_pairs(&mut out, "--allow-domain", allow);
    push_flag_pairs(&mut out, "--deny-domain", deny);
    let ghost mid = string_views(out@);
    match script {
        Some(s) => {
            out.push(str_string(s));
        },
        None => {},
    }
    let ghost before_inline = string_views(out@);
    assert(before_inline =~= head + flag_pairs("-v"@, string_views(volumes@)) + flag_pairs(
        "--allow-domain"@,
        string_views(allow@),
    ) + flag_pairs("--deny-domain"@, string_views(deny@)) + match script {
        Some(s) => seq![s@],
        None => seq![],
    });
    if inline.len() > 0 {
        out.push(str_string("--"));
        let mut i: usize = 0;
        while i < inline.len()
            invariant
                i <= inline.len(),
                string_views(out@) == before_inline + seq!["--"@] + string_views(inline@).take(i as int),
            decreases inline.len() - i,
        {
            let ghost b = out@;
            out.push(string_of(&str_chars(inline[i].as_str())));
            assert(string_views(out@) =~= string_views(b).push(inline@[i as int]@));
            i += 1;
            assert(string_views(inline@).take(i as int) =~= string_views(inline@).take(i - 1).push(inline@[i - 1]@));
        }
        assert(string_views(inline@).take(inline@.len() as int) =~= string_views(inline@));
        assert(string_views(out@) =~= before_inline + (seq!["--"@] + string_views(inline@)));
    } else {
        assert(string_views(out@) =~= before_inline + Seq::<Seq<char>>::empty());
    }
    assert(string_views(out@) =~= run_args_spec(
        interactive,
        lang,
        string_views(volumes@),
        string_views(allow@),
        string_views(deny@),
        match script {
            Some(s) => Some(s@),
            None => None,
        },
        string_views(inline@),
    ));
    out
}

/// Whether an answer to a confirmation prompt says yes: `y` in either case,
/// around white space.
pub fn removal_confirmed(answer: &str) -> (r: bool)
    ensures
        r == (trim(answer@) == "y"@ || trim(answer@) == "Y"@),
{
    let t = trim_chars(&str_chars(answer));
    crate::text::chars_eq_str(&t, "y") || crate::text::chars_eq_str(&t, "Y")
}

/// The message that ends a successful build: a check mark, the kind and name
/// of what was built, and its modules.
pub open spec fn build_summary_spec(lib_mode: bool, name: Seq<char>, modules: Seq<Seq<char>>, python: bool) -> Seq<char> {
    "\u{1b}[32m✓\u{1b}[0m "@ + (if lib_mode {
        "Library '"@
    } else {
        "Sandbox '"@
    }) + name + "' ready ("@ + decimal(modules.len()) + " modules"@ + (if python {
        " + python"@
    } else {
        ""@
    }) + ": "@ + join(modules, ", "@) + ")"@
}

/// The message that ends a successful build.
pub fn build_summary(lib_mode: bool, name: &str, modules: &Vec<String>, python: bool) -> (r: String)
    ensures
        r@ == build_summary_spec(lib_mode, name@, string_views(modules@), python),
{
    let mut out = str_chars("\u{1b}[32m✓\u{1b}[0m ");
    if lib_mode {
        push_str_chars(&mut out, "Library '");
    } else {
        push_str_chars(&mut out, "Sandbox '");
    }
    push_str_chars(&mut out, name);
    push_str_chars(&mut out, "' ready (");
    push_decimal(&mut out, modules.len() as u64);
    push_str_chars(&mut out, " modules");
    if python {
        push_str_chars(&mut out, " + python");
    }
    proof {
        reveal_strlit("");
    }
    push_str_chars(&mut out, ": ");
    let mut parts: Vec<Vec<char>> = Vec::new();
    let mut i: usize = 0;
    while i < modules.len()
        invariant
            i <= modules.len(),
            parts@.map_values(|p: Vec<char>| p@) == string_views(modules@).take(i as int),
        decreases modules.len() - i,
    {
        let ghost before = parts@;
        let piece = str_chars(modules[i].as_str());
        parts.push(piece);
        assert(parts@.map_values(|p: Vec<char>| p@) =~= before.map_values(|p: Vec<char>| p@).push(
            piece@,
        ));
        assert(string_views(modules@).take(i + 1) =~= string_views(modules@).take(i as int).push(
            piece@,
        ));
        i += 1;
    }
    assert(string_views(modules@).take(modules@.len() as int) =~= string_views(modules@));
    push_joined(&mut out, &parts, ", ");
    push_str_chars(&mut out, ")");
    string_of(&out)
}

// ── The sandbox listing ─────────────────────────────────────────────

/// Whether a file of the sandbox directory names a sandbox: hidden files do
/// not.
pub fn is_listed_name(name: &str) -> (r: bool)
    ensures
        r == !(name@.len() > 0 && name@[0] == '.'),
{
    let v = str_chars(name);
    !(v.len() > 0 && v[0] == '.')
}

/// What the modules column of a sandbox shows: `(no config)` without
/// modules, else the names joined by `, `, cut to 35 bytes and `...` when
/// longer than 38 bytes; `None` when the cut would split a character (the
/// listing then stops).
pub open spec fn modules_column_spec(mods: Seq<Seq<char>>) -> Option<Seq<char>> {
    if mods.len() == 0 {
        Some("(no config)"@)
    } else {
        let j = join(mods, ", "@);
        let b = vstd::utf8::encode_utf8(j);
        if b.len() > 38 {
            if vstd::utf8::is_char_boundary(b, 35) {
                Some(vstd::utf8::decode_utf8(b.take(35)) + "..."@)
            } else {
                None
            }
        } else {
            Some(j)
        }
    }
}

/// The modules column of a sandbox in the listing.
pub fn modules_column(modules: &Vec<String>) -> (r: Option<String>)
    ensures
        match modules_column_spec(string_views(modules@)) {
            Some(c) => r matches Some(s) && s@ == c,
            None => r is None,
        },
{
    if modules.len() == 0 {
        return Some(str_string("(no config)"));
    }
    let mut parts: Vec<Vec<char>> = Vec::new();
    let mut i: usize = 0;
    while i < modules.len()
        invariant
            i <= modules@.len(),
            parts@.len() == i,
            forall|j: int| 0 <= j < i ==> #[trigger] parts@[j]@ == modules@[j]@,
        decreases modules.len() - i,
    {
        parts.push(str_chars(modules[i].as_str()));
        i += 1;
    }
    assert(parts@.map_values(|p: Vec<char>| p@) =~= string_views(modules@));
    let mut out: Vec<char> = Vec::new();
    push_joined(&mut out, &parts, ", ");
    let joined = string_of(&out);
    let text = joined.as_str();
    if text.as_bytes().len() > 38 {
        proof {
            vstd::utf8::encode_utf8_valid_utf8(text@);
        }
        if !text.is_char_boundary(35) {
            return None;
        }
        let (head, _) = text.split_at(35);
        proof {
            vstd::utf8::encode_utf8_decode_utf8(head@);
        }
        let mut cut = str_chars(head);
        push_str_chars(&mut cut, "...");
        return Some(string_of(&cut));
    }
    Some(joined)
}

/// The width of the name column: the longest name in bytes, and at least 4.
pub fn name_column_width(names: &Vec<String>) -> (r: usize)
    ensures
        r >= 4,
        forall|i: int| 0 <= i < names@.len() ==> r >= vstd::utf8::encode_utf8(#[trigger] names@[i]@).len(),
        r == 4 || exists|i: int| 0 <= i < names@.len() && r == vstd::utf8::encode_utf8(#[trigger] names@[i]@).len(),
{
    let mut w: usize = 4;
    let mut i: usize = 0;
    while i < names.len()
        invariant
            i <= names@.len(),
            w >= 4,
            forall|j: int| 0 <= j < i ==> w >= vstd::utf8::encode_utf8(#[trigger] names@[j]@).len(),
            w == 4 || exists|j: int| 0 <= j < i && w == vstd::utf8::encode_utf8(#[trigger] names@[j]@).len(),
        decreases names.len() - i,
    {
        let n = names[i].as_str().as_bytes().len();
        if n > w {
            w = n;
        }
        i += 1;
    }
    w
}

/// Whether `a` comes no later than `b` in byte-wise lexicographic order (the
/// order of `String`).
pub open spec fn bytes_le(a: Seq<u8>, b: Seq<u8>) -> bool
    decreases a.len(),
{
    if a.len() == 0 {
        true
    } else if b.len() == 0 {
        false
    } else if a[0] != b[0] {
        a[0] < b[0]
    } else {
        bytes_le(a.drop_first(), b.drop_first())
    }
}

proof fn lemma_bytes_le_total(a: Seq<u8>, b: Seq<u8>)
    ensures
        bytes_le(a, b) || bytes_le(b, a),
        bytes_le(a, b) && bytes_le(b, a) ==> a == b,
    decreases a.len(),
{
    if a.len() > 0 && b.len() > 0 && a[0] == b[0] {
        lemma_bytes_le_total(a.drop_first(), b.drop_first());
        if bytes_le(a, b) && bytes_le(b, a) {
            assert(a =~= seq![a[0]] + a.drop_first());
            assert(b =~= seq![b[0]] + b.drop_first());
        }
    } else if a.len() == 0 && b.len() == 0 {
        assert(a =~= b);
    }
}

proof fn lemma_bytes_le_trans(a: Seq<u8>, b: Seq<u8>, c: Seq<u8>)
    requires
        bytes_le(a, b),
        bytes_le(b, c),
    ensures
        bytes_le(a, c),
    decreases a.len(),
{
    if a.len() > 0 && b.len() > 0 && c.len() > 0 && a[0] == b[0] && b[0] == c[0] {
        lemma_bytes_le_trans(a.drop_first(), b.drop_first(), c.drop_first());
    }
}

fn bytes_le_exec(a: &[u8], b: &[u8]) -> (r: bool)
    ensures
        r == bytes_le(a@, b@),
{
    let mut i: usize = 0;
    assert(a@.skip(0) =~= a@);
    assert(b@.skip(0) =~= b@);
    while i < a.len() && i < b.len() && a[i] == b[i]
        invariant
            i <= a@.len(),
            i <= b@.len(),
            bytes_le(a@, b@) == bytes_le(a@.skip(i as int), b@.skip(i as int)),
        decreases a.len() - i,
    {
        assert(a@.skip(i as int).drop_first() =~= a@.skip(i + 1));
        assert(b@.skip(i as int).drop_first() =~= b@.skip(i + 1));
        i += 1;
    }
    if i == a.len() {
        true
    } else if i == b.len() {
        false
    } else {
        a[i] < b[i]
    }
}

/// The key a name is ordered by: its UTF-8 bytes.
pub open spec fn name_key(names: Seq<String>, i: int) -> Seq<u8> {
    vstd::utf8::encode_utf8(names[i]@)
}

/// Whether `order` lists the indices of `n` names in the order the listing
/// shows them: each index once, names in byte order, equal names in their
/// original order.
pub open spec fn is_listing_order(names: Seq<String>, order: Seq<usize>) -> bool {
    &&& order.len() == names.len()
    &&& forall|k: int| 0 <= k < order.len() ==> order[k] < names.len()
    &&& forall|a: int, b: int| 0 <= a < b < order.len() ==> order[a] != order[b]
    &&& forall|a: int, b: int|
        0 <= a < b < order.len() ==> bytes_le(name_key(names, order[a] as int), name_key(names, order[b] as int))
    &&& forall|a: int, b: int|
        0 <= a < b < order.len() && name_key(names, order[a] as int) == name_key(names, order[b] as int)
            ==> order[a] < order[b]
}

/// The order of the listing: the sandboxes sorted by name.
pub fn listing_order(names: &Vec<String>) -> (r: Vec<usize>)
    ensures
        is_listing_order(names@, r@),
{
    let mut order: Vec<usize> = Vec::new();
    let mut i: usize = 0;
    while i < names.len()
        invariant
            i <= names@.len(),
            order@.len() == i,
            forall|k: int| 0 <= k < order@.len() ==> order@[k] < i,
            forall|a: int, b: int| 0 <= a < b < order@.len() ==> order@[a] != order@[b],
            forall|a: int, b: int|
                0 <= a < b < order@.len() ==> bytes_le(name_key(names@, order@[a] as int), name_key(names@, order@[b] as int)),
            forall|a: int, b: int|
                0 <= a < b < order@.len() && name_key(names@, order@[a] as int) == name_key(names@, order@[b] as int)
                    ==> order@[a] < order@[b],
        decreases names.len() - i,
    {
        let key = names[i].as_str().as_bytes();
        let mut p: usize = 0;
        while p < order.len() && bytes_le_exec(names[order[p]].as_str().as_bytes(), key)
            invariant
                p <= order@.len(),
                i < names@.len(),
                key@ == name_key(names@, i as int),
                forall|k: int| 0 <= k < p ==> bytes_le(name_key(names@, order@[k] as int), name_key(names@, i as int)),
                forall|k: int| 0 <= k < order@.len() ==> order@[k] < i,
            decreases order.len() - p,
        {
            p += 1;
        }
        let ghost before = order@;
        proof {
            if p < before.len() {
                assert(!bytes_le(name_key(names@, before[p as int] as int), name_key(names@, i as int)));
                lemma_bytes_le_total(name_key(names@, before[p as int] as int), name_key(names@, i as int));
                assert forall|k: int| p <= k < before.len() implies !bytes_le(
                    name_key(names@, before[k] as int),
                    name_key(names@, i as int),
                ) by {
                    if k > p && bytes_le(name_key(names@, before[k] as int), name_key(names@, i as int)) {
                        lemma_bytes_le_trans(
                            name_key(names@, before[p as int] as int),
                            name_key(names@, before[k] as int),
                            name_key(names@, i as int),
                        );
                    }
                }
            }
        }
        order.insert(p, i);
        proof {
            assert(order@ =~= before.take(p as int).push(i).add(before.skip(p as int)));
            assert forall|a: int, b: int| 0 <= a < b < order@.len() implies bytes_le(
                name_key(names@, order@[a] as int),
                name_key(names@, order@[b] as int),
            ) by {
                if b == p as int {
                    assert(order@[a] == before[a]);
                } else if a == p as int {
                    assert(order@[b] == before[b - 1]);
                    lemma_bytes_le_total(name_key(names@, before[b - 1] as int), name_key(names@, i as int));
                } else {
                    let a0 = if a < p { a } else { a - 1 };
                    let b0 = if b < p { b } else { b - 1 };
                    assert(order@[a] == before[a0]);
                    assert(order@[b] == before[b0]);
                }
            }
            assert forall|a: int, b: int|
                0 <= a < b < order@.len() && name_key(names@, order@[a] as int) == name_key(names@, order@[b] as int)
                    implies order@[a] < order@[b] by {
                if b == p as int {
                    assert(order@[a] == before[a]);
                } else if a == p as int {
                    assert(order@[b] == before[b - 1]);
                    assert(!bytes_le(name_key(names@, before[b - 1] as int), name_key(names@, i as int)));
                } else {
                    let a0 = if a < p { a } else { a - 1 };
                    let b0 = if b < p { b } else { b - 1 };
                    assert(order@[a] == before[a0]);
                    assert(order@[b] == before[b0]);
                }
            }
            assert forall|a: int, b: int| 0 <= a < b < order@.len() implies order@[a] != order@[b] by {
                if b == p as int {
                    assert(order@[a] == before[a]);
                } else if a == p as int {
                    assert(order@[b] == before[b - 1]);
                } else {
                    let a0 = if a < p { a } else { a - 1 };
                    let b0 = if b < p { b } else { b - 1 };
                    assert(order@[a] == before[a0]);
                    assert(order@[b] == before[b0]);
                }
            }
            assert forall|k: int| 0 <= k < order@.len() implies order@[k] < i + 1 by {
                if k < p {
                    assert(order@[k] == before[k]);
                } else if k > p {
                    assert(order@[k] == before[k - 1]);
                }
            }
        }
        i += 1;
    }
    order
}

} // verus!
