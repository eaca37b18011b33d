//! Configuration model and module feature selection for the command-line tool.
//!
//! A `cpsl.toml` file is parsed into a `SandboxConfig` (the TOML parsing itself is
//! done by the caller); this module validates it and translates its module table
//! into Cargo feature names.

use vstd::prelude::*;
use crate::text::{chars_eq_str, push_all, push_str_chars, str_chars, str_eq, string_of};

verus! {

/// A self-describing module definition: name, description and Cargo feature.
#[derive(Debug, Clone, Copy)]
pub struct ModuleManifest {
    /// Short name used in `cpsl.toml` and CLI output (e.g., `"json"`).
    pub name: &'static str,
    /// Human-readable description shown in `cpsl modules`.
    pub description: &'static str,
    /// Cargo feature flag in `cpsl-core` (e.g., `"mod-json"`).
    pub cargo_feature: &'static str,
}

/// Names of the built-in boolean modules, in registry order.
pub open spec fn registry_names() -> Seq<Seq<char>> {
    seq![
        "fs"@,
        "json"@,
        "csv"@,
        "yaml"@,
        "xml"@,
        "http"@,
        "compress"@,
        "doc"@,
        "plot"@,
        "numx"@,
    ]
}

/// Cargo features of the built-in boolean modules, in registry order.
pub open spec fn registry_features() -> Seq<Seq<char>> {
    seq![
        "mod-fs"@,
        "mod-json"@,
        "mod-csv"@,
        "mod-yaml"@,
        "mod-xml"@,
        "mod-http"@,
        "mod-compress"@,
        "mod-doc"@,
        "mod-plot"@,
        "mod-numpy"@,
    ]
}

/// The name of the provider-backed grep capability.
pub open spec fn grep_name() -> Seq<char> {
    "grep"@
}

/// The Cargo feature of a grep provider, if the provider is known.
pub open spec fn provider_feature(provider: Seq<char>) -> Option<Seq<char>> {
    if provider == "fff"@ {
        Some("mod-fff"@)
    } else if provider == "ripgrep"@ {
        Some("mod-ripgrep"@)
    } else {
        None
    }
}

/// Whether `name` is the name of a grep provider used as a module.
pub open spec fn is_provider_name(name: Seq<char>) -> bool {
    name == "fff"@ || name == "ripgrep"@
}

/// Index of the first registry entry named `name`.
pub open spec fn registry_index(name: Seq<char>) -> Option<int> {
    if exists|i: int| 0 <= i < 10 && registry_names()[i] == name {
        Some(choose|i: int| 0 <= i < 10 && registry_names()[i] == name && forall|j: int| 0 <= j < i ==> registry_names()[j] != name)
    } else {
        None
    }
}

/// The canonical list of built-in boolean modules. Provider-backed
/// capabilities such as `grep` are validated and translated separately.
pub fn module_registry() -> (r: Vec<ModuleManifest>)
    ensures
        r.len() == 10,
        forall|i: int| 0 <= i < 10 ==> (#[trigger] r@[i]).name@ == registry_names()[i] && r@[i].cargo_feature@
            == registry_features()[i],
{
    let r = vec![
        ModuleManifest {
            name: "fs",
            description: "Filesystem operations (read, write, list, mkdir, etc.)",
            cargo_feature: "mod-fs",
        },
        ModuleManifest {
            name: "json",
            description: "JSON encoding and decoding",
            cargo_feature: "mod-json",
        },
        ModuleManifest {
            name: "csv",
            description: "CSV parsing and generation",
            cargo_feature: "mod-csv",
        },
        ModuleManifest {
            name: "yaml",
            description: "YAML parsing and generation",
            cargo_feature: "mod-yaml",
        },
        ModuleManifest {
            name: "xml",
            description: "XML parsing and generation",
            cargo_feature: "mod-xml",
        },
        ModuleManifest {
            name: "http",
            description: "HTTP client (GET, POST, etc.) via sandboxed gateway",
            cargo_feature: "mod-http",
        },
        ModuleManifest {
            name: "compress",
            description: "Archive and compression (zip, tar, gzip, bzip2, xz, 7z)",
            cargo_feature: "mod-compress",
        },
        ModuleManifest {
            name: "doc",
            description: "Document parsing (PDF, Excel, RTF, Markdown)",
            cargo_feature: "mod-doc",
        },
        ModuleManifest {
            name: "plot",
            description: "Chart and plot generation (line, bar, scatter, histogram)",
            cargo_feature: "mod-plot",
        },
        ModuleManifest {
            name: "numx",
            description: "Numerical computing (matrices, linear algebra, statistics)",
            cargo_feature: "mod-numpy",
        },
    ];
    r
}

/// Returns the valid public module/capability names accepted in `cpsl.toml`:
/// the registry names followed by `grep`.
pub fn valid_module_names() -> (r: Vec<&'static str>)
    ensures
        r.len() == 11,
        forall|i: int| 0 <= i < 10 ==> (#[trigger] r@[i])@ == registry_names()[i],
        r@[10]@ == grep_name(),
{
    let reg = module_registry();
    let mut names: Vec<&'static str> = Vec::new();
    let mut i: usize = 0;
    while i < reg.len()
        invariant
            i <= reg.len() == 10,
            names.len() == i,
            forall|k: int| 0 <= k < 10 ==> (#[trigger] reg@[k]).name@ == registry_names()[k],
            forall|k: int| 0 <= k < i ==> (#[trigger] names@[k])@ == registry_names()[k],
        decreases reg.len() - i,
    {
        names.push(reg[i].name);
        i += 1;
    }
    names.push("grep");
    names
}

/// Look up a module manifest by name: the first registry entry with that name.
pub fn find_module(name: &str) -> (r: Option<ModuleManifest>)
    ensures
        match registry_index(name@) {
            Some(i) => r matches Some(m) && m.name@ == registry_names()[i] && m.cargo_feature@
                == registry_features()[i],
            None => r is None,
        },
{
    let reg = module_registry();
    let mut i: usize = 0;
    while i < reg.len()
        invariant
            i <= reg.len() == 10,
            forall|k: int|
                0 <= k < 10 ==> (#[trigger] reg@[k]).name@ == registry_names()[k] && reg@[k].cargo_feature@
                    == registry_features()[k],
            forall|k: int| 0 <= k < i ==> registry_names()[k] != name@,
        decreases reg.len() - i,
    {
        if str_eq(reg[i].name, name) {
            assert(registry_names()[i as int] == name@);
            let ghost j = registry_index(name@)->0;
            assert(j == i);
            return Some(reg[i]);
        }
        i += 1;
    }
    None
}

fn grep_provider_feature(provider: &str) -> (r: Option<&'static str>)
    ensures
        match provider_feature(provider@) {
            Some(f) => r matches Some(s) && s@ == f,
            None => r is None,
        },
{
    if str_eq(provider, "fff") {
        Some("mod-fff")
    } else if str_eq(provider, "ripgrep") {
        Some("mod-ripgrep")
    } else {
        None
    }
}

fn is_grep_provider_module(name: &str) -> (r: bool)
    ensures
        r == is_provider_name(name@),
{
    str_eq(name, "fff") || str_eq(name, "ripgrep")
}

/// Extra configuration for module entries that use table syntax.
#[derive(Debug, Clone, PartialEq, Default)]
pub struct ModuleConfig {
    pub source: Option<String>,
    pub provider: Option<String>,
    /// The keys of any further fields of the table, in sorted order.
    pub extra: Vec<String>,
}

/// A module entry in `cpsl.toml`: `json = true` / `json = false`, or a table
/// such as `grep = { provider = "ripgrep" }` or `json = { source = "..." }`.
#[derive(Debug, Clone, PartialEq)]
pub enum ModuleEntry {
    /// Simple boolean: `json = true`
    Enabled(bool),
    /// Extended table form for grep providers and future external modules.
    Config(ModuleConfig),
}

/// Whether an entry is enabled; table configs are always enabled.
pub open spec fn entry_enabled(e: ModuleEntry) -> bool {
    match e {
        ModuleEntry::Enabled(b) => b,
        ModuleEntry::Config(_) => true,
    }
}

/// Whether an entry references an external source.
pub open spec fn entry_external(e: ModuleEntry) -> bool {
    match e {
        ModuleEntry::Config(c) => c.source is Some,
        ModuleEntry::Enabled(_) => false,
    }
}

/// The grep provider of a table entry.
pub open spec fn entry_provider(e: ModuleEntry) -> Option<Seq<char>> {
    match e {
        ModuleEntry::Config(c) => match c.provider {
            Some(p) => Some(p@),
            None => None,
        },
        ModuleEntry::Enabled(_) => None,
    }
}

/// `parts` joined with `sep` between consecutive parts.
pub open spec fn join(parts: Seq<Seq<char>>, sep: Seq<char>) -> Seq<char>
    decreases parts.len(),
{
    if parts.len() == 0 {
        seq![]
    } else if parts.len() == 1 {
        parts[0]
    } else {
        join(parts.drop_last(), sep) + sep + parts.last()
    }
}

/// Appends to `out` the strings of `parts` joined with `sep`.
pub fn push_joined(out: &mut Vec<char>, parts: &Vec<Vec<char>>, sep: &str)
    ensures
        final(out)@ == old(out)@ + join(parts@.map_values(|p: Vec<char>| p@), sep@),
{
    let ghost views = parts@.map_values(|p: Vec<char>| p@);
    let ghost start = out@;
    let mut i: usize = 0;
    while i < parts.len()
        invariant
            i <= parts.len(),
            views == parts@.map_values(|p: Vec<char>| p@),
            out@ == start + join(views.take(i as int), sep@),
        decreases parts.len() - i,
    {
        assert(views.take(i + 1).drop_last() =~= views.take(i as int));
        if i > 0 {
            push_str_chars(out, sep);
        }
        push_all(out, &parts[i]);
        i += 1;
        assert(out@ =~= start + join(views.take(i as int), sep@));
    }
    assert(views.take(parts.len() as int) =~= views);
}

impl ModuleEntry {
    /// Whether this module is enabled. Table configs are always considered enabled.
    pub fn is_enabled(&self) -> (r: bool)
        ensures
            r == entry_enabled(*self),
    {
        match self {
            ModuleEntry::Enabled(b) => *b,
            ModuleEntry::Config(_) => true,
        }
    }

    /// Whether this module references an external source.
    pub fn is_external(&self) -> (r: bool)
        ensures
            r == entry_external(*self),
    {
        match self {
            ModuleEntry::Config(config) => config.source.is_some(),
            ModuleEntry::Enabled(_) => false,
        }
    }

    fn grep_provider(&self) -> (r: Option<&str>)
        ensures
            match entry_provider(*self) {
                Some(p) => r matches Some(s) && s@ == p,
                None => r is None,
            },
    {
        match self {
            ModuleEntry::Config(config) => match &config.provider {
                Some(p) => Some(p.as_str()),
                None => None,
            },
            ModuleEntry::Enabled(_) => None,
        }
    }

    /// The entry as `cpsl.toml` shows it: `true` / `false`, or a table listing
    /// its source, its provider and the keys of its other fields.
    pub fn to_string(&self) -> (r: String)
        ensures
            r@ == entry_display(*self),
    {
        match self {
            ModuleEntry::Enabled(b) => {
                if *b {
                    string_of(&str_chars("true"))
                } else {
                    string_of(&str_chars("false"))
                }
            },
            ModuleEntry::Config(config) => {
                let mut fields: Vec<Vec<char>> = Vec::new();
                let ghost cfg = *config;
                if let Some(source) = &config.source {
                    let mut f = str_chars("source = \"");
                    push_str_chars(&mut f, source.as_str());
                    push_str_chars(&mut f, "\"");
                    fields.push(f);
                }
                if let Some(provider) = &config.provider {
                    let mut f = str_chars("provider = \"");
                    push_str_chars(&mut f, provider.as_str());
                    push_str_chars(&mut f, "\"");
                    fields.push(f);
                }
                let ghost head = fields@.map_values(|p: Vec<char>| p@);
                assert(head =~= display_head(cfg));
                let mut i: usize = 0;
                while i < config.extra.len()
                    invariant
                        i <= config.extra.len(),
                        cfg == *config,
                        fields@.map_values(|p: Vec<char>| p@) =~= display_head(cfg) + Seq::new(
                            i as nat,
                            |k: int| config.extra@[k]@ + " = ..."@,
                        ),
                    decreases config.extra.len() - i,
                {
                    let mut f = str_chars(config.extra[i].as_str());
                    push_str_chars(&mut f, " = ...");
                    let ghost before = fields@;
                    fields.push(f);
                    assert(fields@.map_values(|p: Vec<char>| p@) =~= before.map_values(
                        |p: Vec<char>| p@,
                    ).push(f@));
                    assert(Seq::new((i + 1) as nat, |k: int| config.extra@[k]@ + " = ..."@) =~= Seq::new(
                        i as nat,
                        |k: int| config.extra@[k]@ + " = ..."@,
                    ).push(f@));
                    i += 1;
                }
                let mut out = str_chars("{ ");
                push_joined(&mut out, &fields, ", ");
                push_str_chars(&mut out, " }");
                string_of(&out)
            },
        }
    }
}

/// The `source` and `provider` fields of a table entry as they are displayed.
pub open spec fn display_head(c: ModuleConfig) -> Seq<Seq<char>> {
    let s = match c.source {
        Some(s) => seq!["source = \""@ + s@ + "\""@],
        None => seq![],
    };
    match c.provider {
        Some(p) => s.push("provider = \""@ + p@ + "\""@),
        None => s,
    }
}

/// How an entry is displayed.
pub open spec fn entry_display(e: ModuleEntry) -> Seq<char> {
    match e {
        ModuleEntry::Enabled(b) => if b {
            "true"@
        } else {
            "false"@
        },
        ModuleEntry::Config(c) => "{ "@ + join(
            display_head(c) + Seq::new(c.extra.len() as nat, |k: int| c.extra@[k]@ + " = ..."@),
            ", "@,
        ) + " }"@,
    }
}

} // verus!

verus! {

/// The `[sandbox]` table.
#[derive(Debug)]
pub struct SandboxMeta {
    pub name: String,
}

/// The `[python]` table.
#[derive(Debug, Default)]
pub struct PythonConfig {
    pub enabled: bool,
}

/// The `[mounts]` table.
#[derive(Debug, Default)]
pub struct MountsConfig {
    pub volumes: Vec<String>,
}

/// The `[http]` table.
#[derive(Debug, Default)]
pub struct HttpConfig {
    pub allowed_domains: Vec<String>,
    pub denied_domains: Vec<String>,
}

/// A parsed `cpsl.toml`. `modules` lists the `[modules]` entries by name in
/// sorted key order, each name once (`modules_in_key_order`, which
/// `modules_well_ordered` checks).
#[derive(Debug)]
pub struct SandboxConfig {
    pub sandbox: SandboxMeta,
    pub modules: Vec<(String, ModuleEntry)>,
    pub python: PythonConfig,
    pub mounts: MountsConfig,
    pub http: HttpConfig,
}

/// The module table as pairs of name and entry.
pub open spec fn modules_view(c: &SandboxConfig) -> Seq<(Seq<char>, ModuleEntry)> {
    c.modules@.map_values(|p: (String, ModuleEntry)| (p.0@, p.1))
}

/// Whether name `a` sorts strictly before name `b`: compared character by
/// character by code point (the byte order of their UTF-8, which is how
/// `String` keys are ordered), a proper prefix first.
pub open spec fn name_before(a: Seq<char>, b: Seq<char>) -> bool
    decreases a.len(),
{
    if b.len() == 0 {
        false
    } else if a.len() == 0 {
        true
    } else if a[0] != b[0] {
        a[0] < b[0]
    } else {
        name_before(a.drop_first(), b.drop_first())
    }
}

/// Whether the module table lists its names in strictly increasing order, so
/// each name once: the order and uniqueness of the keys of a TOML table read
/// into a sorted map.
pub open spec fn modules_in_key_order(m: Seq<(Seq<char>, ModuleEntry)>) -> bool {
    forall|i: int, j: int| 0 <= i < j < m.len() ==> name_before(#[trigger] m[i].0, #[trigger] m[j].0)
}

/// Whether `a` sorts strictly before `b`; see `name_before`.
pub fn str_before(a: &str, b: &str) -> (r: bool)
    ensures
        r == name_before(a@, b@),
{
    let x = str_chars(a);
    let y = str_chars(b);
    let mut k: usize = 0;
    assert(x@.skip(0) =~= x@);
    assert(y@.skip(0) =~= y@);
    while k < x.len() && k < y.len() && x[k] == y[k]
        invariant
            x@ == a@,
            y@ == b@,
            k <= x.len(),
            k <= y.len(),
            name_before(a@, b@) == name_before(x@.skip(k as int), y@.skip(k as int)),
        decreases x.len() - k,
    {
        proof {
            assert(x@.skip(k as int).drop_first() =~= x@.skip(k + 1));
            assert(y@.skip(k as int).drop_first() =~= y@.skip(k + 1));
        }
        k += 1;
    }
    if k == y.len() {
        false
    } else if k == x.len() {
        true
    } else {
        x[k] < y[k]
    }
}

/// Whether `fs = true` stands in the module table (first entry named `fs`).
pub open spec fn fs_enabled(m: Seq<(Seq<char>, ModuleEntry)>) -> bool
    decreases m.len(),
{
    if m.len() == 0 {
        false
    } else if m[0].0 == "fs"@ {
        m[0].1 == ModuleEntry::Enabled(true)
    } else {
        fs_enabled(m.drop_first())
    }
}

/// The error for a `grep` entry, if it has one.
pub open spec fn grep_entry_error(e: ModuleEntry, fs_on: bool) -> Option<Seq<char>> {
    match e {
        ModuleEntry::Enabled(_) => Some(
            "module 'grep' must be configured as grep = { provider = \"fff\" } or grep = { provider = \"ripgrep\" }; boolean grep entries are not supported"@,
        ),
        ModuleEntry::Config(c) => match c.provider {
            None => Some("module 'grep' requires provider = \"fff\" or provider = \"ripgrep\""@),
            Some(p) => if c.source is Some || c.extra.len() > 0 {
                Some(
                    "module 'grep' only supports a provider field; supported providers: fff, ripgrep"@,
                )
            } else if provider_feature(p@) is None {
                Some(
                    "unknown grep provider '"@ + p@ + "' — supported providers: fff, ripgrep"@,
                )
            } else if !fs_on {
                Some("module 'grep' requires fs = true because the public API is fs.grep"@)
            } else {
                None
            },
        },
    }
}

/// The valid module names joined for error messages.
pub open spec fn valid_names_text() -> Seq<char> {
    join(registry_names().push(grep_name()), ", "@)
}

/// The error for one module entry, if it has one.
pub open spec fn entry_error(name: Seq<char>, e: ModuleEntry, fs_on: bool) -> Option<Seq<char>> {
    if name == grep_name() {
        grep_entry_error(e, fs_on)
    } else if is_provider_name(name) {
        Some(
            "standalone grep provider module '"@ + name
                + "' is not supported — use grep = { provider = \""@ + name
                + "\" } with fs = true"@,
        )
    } else if entry_external(e) {
        Some(
            "external modules not yet supported — use built-in modules (module '"@ + name
                + "' has source = \"...\")"@,
        )
    } else if registry_index(name) is None {
        Some("unknown module '"@ + name + "' — valid modules: "@ + valid_names_text())
    } else if e is Config {
        Some(
            "module '"@ + name + "' must be a boolean entry; only grep supports provider config"@,
        )
    } else {
        None
    }
}

/// The first error among the entries `m` (checked in order).
pub open spec fn first_error(m: Seq<(Seq<char>, ModuleEntry)>, fs_on: bool) -> Option<Seq<char>>
    decreases m.len(),
{
    if m.len() == 0 {
        None
    } else {
        match entry_error(m[0].0, m[0].1, fs_on) {
            Some(err) => Some(err),
            None => first_error(m.drop_first(), fs_on),
        }
    }
}

/// The Cargo feature that one enabled, non-external entry contributes.
pub open spec fn entry_feature(name: Seq<char>, e: ModuleEntry) -> Option<Seq<char>> {
    if !entry_enabled(e) || entry_external(e) {
        None
    } else if name == grep_name() {
        match entry_provider(e) {
            Some(p) => provider_feature(p),
            None => None,
        }
    } else {
        match registry_index(name) {
            Some(i) => Some(registry_features()[i]),
            None => None,
        }
    }
}

/// The features of the entries `m`, in order.
pub open spec fn features_of(m: Seq<(Seq<char>, ModuleEntry)>) -> Seq<Seq<char>>
    decreases m.len(),
{
    if m.len() == 0 {
        seq![]
    } else {
        let rest = features_of(m.drop_first());
        match entry_feature(m[0].0, m[0].1) {
            Some(f) => seq![f] + rest,
            None => rest,
        }
    }
}

/// The user-facing label of one entry, if it is shown.
pub open spec fn entry_label(name: Seq<char>, e: ModuleEntry) -> Option<Seq<char>> {
    match e {
        ModuleEntry::Enabled(b) => if b {
            Some(name)
        } else {
            None
        },
        ModuleEntry::Config(c) => if name == grep_name() {
            match c.provider {
                Some(p) => Some("grep("@ + p@ + ")"@),
                None => None,
            }
        } else {
            None
        },
    }
}

/// The labels of the entries `m`, in order.
pub open spec fn labels_of(m: Seq<(Seq<char>, ModuleEntry)>) -> Seq<Seq<char>>
    decreases m.len(),
{
    if m.len() == 0 {
        seq![]
    } else {
        let rest = labels_of(m.drop_first());
        match entry_label(m[0].0, m[0].1) {
            Some(f) => seq![f] + rest,
            None => rest,
        }
    }
}

fn strings_of(v: &Vec<Vec<char>>) -> (r: Vec<String>)
    ensures
        r@.map_values(|s: String| s@) == v@.map_values(|p: Vec<char>| p@),
{
    let mut r: Vec<String> = Vec::new();
    let mut i: usize = 0;
    while i < v.len()
        invariant
            i <= v.len(),
            r@.map_values(|s: String| s@) =~= v@.take(i as int).map_values(|p: Vec<char>| p@),
        decreases v.len() - i,
    {
        let ghost before = r@;
        let x = string_of(&v[i]);
        r.push(x);
        assert(r@ == before.push(x));
        assert(r@.map_values(|s: String| s@) =~= before.map_values(|s: String| s@).push(x@));
        assert(v@.take(i + 1).map_values(|p: Vec<char>| p@) =~= v@.take(i as int).map_values(
            |p: Vec<char>| p@,
        ).push(v@[i as int]@));
        i += 1;
    }
    assert(v@.take(v@.len() as int) =~= v@);
    r
}

proof fn lemma_suffix_step<A, B>(s: Seq<A>, i: int, f: spec_fn(Seq<A>) -> B)
    requires
        0 <= i < s.len(),
    ensures
        s.skip(i).drop_first() == s.skip(i + 1),
        s.skip(i)[0] == s[i],
{
    assert(s.skip(i).drop_first() =~= s.skip(i + 1));
}

impl SandboxConfig {
    fn module_enabled_fs(&self) -> (r: bool)
        ensures
            r == fs_enabled(modules_view(self)),
    {
        let ghost m = modules_view(self);
        let mut i: usize = 0;
        assert(m.skip(0) =~= m);
        while i < self.modules.len()
            invariant
                i <= self.modules.len(),
                m == modules_view(self),
                fs_enabled(m) == fs_enabled(m.skip(i as int)),
            decreases self.modules.len() - i,
        {
            proof {
                lemma_suffix_step(m, i as int, |x: Seq<(Seq<char>, ModuleEntry)>| 0int);
            }
            if str_eq(self.modules[i].0.as_str(), "fs") {
                return match &self.modules[i].1 {
                    ModuleEntry::Enabled(true) => true,
                    _ => false,
                };
            }
            i += 1;
        }
        false
    }

    fn validate_grep_entry(&self, entry: &ModuleEntry) -> (r: Result<(), String>)
        ensures
            match grep_entry_error(*entry, fs_enabled(modules_view(self))) {
                Some(e) => r matches Err(m) && m@ == e,
                None => r is Ok,
            },
    {
        let config = match entry {
            ModuleEntry::Enabled(_) => {
                return Err(
                    string_of(
                        &str_chars(
                            "module 'grep' must be configured as grep = { provider = \"fff\" } or grep = { provider = \"ripgrep\" }; boolean grep entries are not supported",
                        ),
                    ),
                );
            },
            ModuleEntry::Config(config) => config,
        };
        let provider = match &config.provider {
            Some(p) => p,
            None => {
                return Err(
                    string_of(
                        &str_chars(
                            "module 'grep' requires provider = \"fff\" or provider = \"ripgrep\"",
                        ),
                    ),
                );
            },
        };
        if config.source.is_some() || config.extra.len() > 0 {
            return Err(
                string_of(
                    &str_chars(
                        "module 'grep' only supports a provider field; supported providers: fff, ripgrep",
                    ),
                ),
            );
        }
        if grep_provider_feature(provider.as_str()).is_none() {
            let mut m = str_chars("unknown grep provider '");
            push_str_chars(&mut m, provider.as_str());
            push_str_chars(&mut m, "' — supported providers: fff, ripgrep");
            return Err(string_of(&m));
        }
        if !self.module_enabled_fs() {
            return Err(
                string_of(
                    &str_chars("module 'grep' requires fs = true because the public API is fs.grep"),
                ),
            );
        }
        Ok(())
    }

    fn entry_check(&self, name: &String, entry: &ModuleEntry) -> (r: Result<(), String>)
        ensures
            match entry_error(name@, *entry, fs_enabled(modules_view(self))) {
                Some(e) => r matches Err(m) && m@ == e,
                None => r is Ok,
            },
    {
        if str_eq(name.as_str(), "grep") {
            return self.validate_grep_entry(entry);
        }
        if is_grep_provider_module(name.as_str()) {
            let mut m = str_chars("standalone grep provider module '");
            push_str_chars(&mut m, name.as_str());
            push_str_chars(&mut m, "' is not supported — use grep = { provider = \"");
            push_str_chars(&mut m, name.as_str());
            push_str_chars(&mut m, "\" } with fs = true");
            return Err(string_of(&m));
        }
        if entry.is_external() {
            let mut m = str_chars(
                "external modules not yet supported — use built-in modules (module '",
            );
            push_str_chars(&mut m, name.as_str());
            push_str_chars(&mut m, "' has source = \"...\")");
            return Err(string_of(&m));
        }
        if find_module(name.as_str()).is_none() {
            let names = valid_module_names();
            let mut parts: Vec<Vec<char>> = Vec::new();
            let mut k: usize = 0;
            while k < names.len()
                invariant
                    k <= names.len() == 11,
                    forall|j: int| 0 <= j < 10 ==> (#[trigger] names@[j])@ == registry_names()[j],
                    names@[10]@ == grep_name(),
                    parts@.map_values(|p: Vec<char>| p@) =~= registry_names().push(
                        grep_name(),
                    ).take(k as int),
                decreases names.len() - k,
            {
                let ghost before = parts@;
                parts.push(str_chars(names[k]));
                assert(parts@.map_values(|p: Vec<char>| p@) =~= before.map_values(
                    |p: Vec<char>| p@,
                ).push(names@[k as int]@));
                k += 1;
            }
            assert(registry_names().push(grep_name()).take(11) =~= registry_names().push(
                grep_name(),
            ));
            let mut m = str_chars("unknown module '");
            push_str_chars(&mut m, name.as_str());
            push_str_chars(&mut m, "' — valid modules: ");
            push_joined(&mut m, &parts, ", ");
            return Err(string_of(&m));
        }
        if let ModuleEntry::Config(_) = entry {
            let mut m = str_chars("module '");
            push_str_chars(&mut m, name.as_str());
            push_str_chars(&mut m, "' must be a boolean entry; only grep supports provider config");
            return Err(string_of(&m));
        }
        Ok(())
    }

    /// Validates the module table: the first offending entry, in key order,
    /// decides the error.
    pub fn validate(&self) -> (r: Result<(), String>)
        ensures
            match first_error(modules_view(self), fs_enabled(modules_view(self))) {
                Some(e) => r matches Err(m) && m@ == e,
                None => r is Ok,
            },
    {
        let ghost m = modules_view(self);
        let ghost fs_on = fs_enabled(m);
        let mut i: usize = 0;
        assert(m.skip(0) =~= m);
        while i < self.modules.len()
            invariant
                i <= self.modules.len(),
                m == modules_view(self),
                fs_on == fs_enabled(m),
                first_error(m, fs_on) == first_error(m.skip(i as int), fs_on),
            decreases self.modules.len() - i,
        {
            proof {
                lemma_suffix_step(m, i as int, |x: Seq<(Seq<char>, ModuleEntry)>| 0int);
            }
            match self.entry_check(&self.modules[i].0, &self.modules[i].1) {
                Ok(()) => {},
                Err(e) => {
                    return Err(e);
                },
            }
            i += 1;
        }
        Ok(())
    }

    /// Translates the modules table into Cargo feature flag names, in key order:
    /// each enabled, non-external registry module gives its feature and an
    /// enabled `grep` table gives its provider's feature.
    pub fn to_cargo_features(&self) -> (r: Vec<String>)
        ensures
            r@.map_values(|s: String| s@) == features_of(modules_view(self)),
    {
        let ghost m = modules_view(self);
        let mut out: Vec<Vec<char>> = Vec::new();
        let mut i: usize = 0;
        assert(m.skip(0) =~= m);
        assert(out@.map_values(|p: Vec<char>| p@) + features_of(m) =~= features_of(m));
        while i < self.modules.len()
            invariant
                i <= self.modules.len(),
                m == modules_view(self),
                features_of(m) == out@.map_values(|p: Vec<char>| p@) + features_of(
                    m.skip(i as int),
                ),
            decreases self.modules.len() - i,
        {
            proof {
                lemma_suffix_step(m, i as int, |x: Seq<(Seq<char>, ModuleEntry)>| 0int);
            }
            let ghost before = out@.map_values(|p: Vec<char>| p@);
            let name = &self.modules[i].0;
            let entry = &self.modules[i].1;
            if entry.is_enabled() && !entry.is_external() {
                if str_eq(name.as_str(), "grep") {
                    match entry.grep_provider() {
                        Some(p) => match grep_provider_feature(p) {
                            Some(f) => {
                                out.push(str_chars(f));
                            },
                            None => {},
                        },
                        None => {},
                    }
                } else {
                    match find_module(name.as_str()) {
                        Some(md) => {
                            out.push(str_chars(md.cargo_feature));
                        },
                        None => {},
                    }
                }
            }
            assert(out@.map_values(|p: Vec<char>| p@) + features_of(m.skip(i + 1)) =~= before
                + features_of(m.skip(i as int)));
            i += 1;
        }
        assert(m.skip(m.len() as int) =~= Seq::<(Seq<char>, ModuleEntry)>::empty());
        assert(out@.map_values(|p: Vec<char>| p@) + Seq::<Seq<char>>::empty() =~= out@.map_values(
            |p: Vec<char>| p@,
        ));
        strings_of(&out)
    }

    /// Returns user-facing module/capability labels for CLI summaries:
    /// `name` for `name = true`, `grep(provider)` for the grep table.
    pub fn module_display_names(&self) -> (r: Vec<String>)
        ensures
            r@.map_values(|s: String| s@) == labels_of(modules_view(self)),
    {
        let ghost m = modules_view(self);
        let mut out: Vec<Vec<char>> = Vec::new();
        let mut i: usize = 0;
        assert(m.skip(0) =~= m);
        assert(out@.map_values(|p: Vec<char>| p@) + labels_of(m) =~= labels_of(m));
        while i < self.modules.len()
            invariant
                i <= self.modules.len(),
                m == modules_view(self),
                labels_of(m) == out@.map_values(|p: Vec<char>| p@) + labels_of(m.skip(i as int)),
            decreases self.modules.len() - i,
        {
            proof {
                lemma_suffix_step(m, i as int, |x: Seq<(Seq<char>, ModuleEntry)>| 0int);
            }
            let ghost before = out@.map_values(|p: Vec<char>| p@);
            let name = &self.modules[i].0;
            match &self.modules[i].1 {
                ModuleEntry::Enabled(true) => {
                    out.push(str_chars(name.as_str()));
                },
                ModuleEntry::Config(config) => {
                    if str_eq(name.as_str(), "grep") {
                        match &config.provider {
                            Some(p) => {
                                let mut l = str_chars("grep(");
                                push_str_chars(&mut l, p.as_str());
                                push_str_chars(&mut l, ")");
                                out.push(l);
                            },
                            None => {},
                        }
                    }
                },
                _ => {},
            }
            assert(out@.map_values(|p: Vec<char>| p@) + labels_of(m.skip(i + 1)) =~= before
                + labels_of(m.skip(i as int)));
            i += 1;
        }
        assert(m.skip(m.len() as int) =~= Seq::<(Seq<char>, ModuleEntry)>::empty());
        assert(out@.map_values(|p: Vec<char>| p@) + Seq::<Seq<char>>::empty() =~= out@.map_values(
            |p: Vec<char>| p@,
        ));
        strings_of(&out)
    }

    /// Whether the module table is in strictly increasing key order, each
    /// name once; see `modules_in_key_order`.
    pub fn modules_well_ordered(&self) -> (r: bool)
        ensures
            r == modules_in_key_order(modules_view(self)),
    {
        let ghost m = modules_view(self);
        let n = self.modules.len();
        let mut i: usize = 0;
        while i < n
            invariant
                n == self.modules.len(),
                m == modules_view(self),
                m.len() == n,
                i <= n,
                forall|p: int, q: int| 0 <= p < i && p < q < n ==> name_before(#[trigger] m[p].0, #[trigger] m[q].0),
            decreases n - i,
        {
            let mut j: usize = i + 1;
            while j < n
                invariant
                    n == self.modules.len(),
                    m == modules_view(self),
                    m.len() == n,
                    i < n,
                    i + 1 <= j <= n,
                    forall|p: int, q: int| 0 <= p < i && p < q < n ==> name_before(#[trigger] m[p].0, #[trigger] m[q].0),
                    forall|q: int| i < q < j ==> name_before(m[i as int].0, #[trigger] m[q].0),
                decreases n - j,
            {
                if !str_before(self.modules[i].0.as_str(), self.modules[j].0.as_str()) {
                    assert(!name_before(m[i as int].0, m[j as int].0));
                    return false;
                }
                j += 1;
            }
            i += 1;
        }
        true
    }

    /// Whether the Python runtime is enabled.
    pub fn python_enabled(&self) -> (r: bool)
        ensures
            r == self.python.enabled,
    {
        self.python.enabled
    }

    /// The configured mount specifications.
    pub fn mount_volumes(&self) -> (r: &[String])
        ensures
            r@ == self.mounts.volumes@,
    {
        self.mounts.volumes.as_slice()
    }

    /// Return (allowed_domains, denied_domains) for constructing an HTTP gateway.
    pub fn http_gateway_config(&self) -> (r: (Vec<String>, Vec<String>))
        ensures
            r.0@.map_values(|s: String| s@) == self.http.allowed_domains@.map_values(|s: String| s@),
            r.1@.map_values(|s: String| s@) == self.http.denied_domains@.map_values(|s: String| s@),
    {
        (clone_strings(&self.http.allowed_domains), clone_strings(&self.http.denied_domains))
    }
}

fn clone_strings(v: &Vec<String>) -> (r: Vec<String>)
    ensures
        r@.map_values(|s: String| s@) == v@.map_values(|s: String| s@),
{
    let mut r: Vec<String> = Vec::new();
    let mut i: usize = 0;
    while i < v.len()
        invariant
            i <= v.len(),
            r@.map_values(|s: String| s@) =~= v@.take(i as int).map_values(|s: String| s@),
        decreases v.len() - i,
    {
        let ghost before = r@;
        let x = v[i].clone();
        r.push(x);
        assert(r@ == before.push(x));
        assert(r@.map_values(|s: String| s@) =~= before.map_values(|s: String| s@).push(x@));
        assert(v@.take(i + 1).map_values(|s: String| s@) =~= v@.take(i as int).map_values(
            |s: String| s@,
        ).push(v@[i as int]@));
        i += 1;
    }
    assert(v@.take(v@.len() as int) =~= v@);
    r
}

} // verus!

verus! {

/// How many entries of `m` are enabled.
pub open spec fn count_enabled(m: Seq<(Seq<char>, ModuleEntry)>) -> nat
    decreases m.len(),
{
    if m.len() == 0 {
        0
    } else {
        (if entry_enabled(m[0].1) {
            1nat
        } else {
            0nat
        }) + count_enabled(m.drop_first())
    }
}

/// Whether `f` is the feature of a registry module or of a grep provider.
pub open spec fn is_known_feature(f: Seq<char>) -> bool {
    registry_features().contains(f) || f == "mod-fff"@ || f == "mod-ripgrep"@
}

proof fn lemma_validated_features(m: Seq<(Seq<char>, ModuleEntry)>, fs_on: bool)
    requires
        first_error(m, fs_on) is None,
    ensures
        features_of(m).len() == count_enabled(m),
        forall|k: int| 0 <= k < features_of(m).len() ==> is_known_feature(#[trigger] features_of(m)[k]),
        forall|k: int| 0 <= k < m.len() ==> (#[trigger] m[k]).0 == grep_name() || registry_index(m[k].0) is Some,
    decreases m.len(),
{
    if m.len() > 0 {
        let rest = m.drop_first();
        lemma_validated_features(rest, fs_on);
        let (name, e) = m[0];
        assert(entry_error(name, e, fs_on) is None);
        if name == grep_name() {
            assert(entry_feature(name, e) is Some);
        } else {
            let i = registry_index(name)->0;
            assert(registry_features().contains(registry_features()[i]));
        }
        assert forall|k: int| 0 <= k < m.len() implies (#[trigger] m[k]).0 == grep_name()
            || registry_index(m[k].0) is Some by {
            if k > 0 {
                assert(m[k] == rest[k - 1]);
            }
        }
        let fr = features_of(rest);
        assert forall|k: int| 0 <= k < features_of(m).len() implies is_known_feature(
            #[trigger] features_of(m)[k],
        ) by {
            match entry_feature(name, e) {
                Some(f) => {
                    if k > 0 {
                        assert(features_of(m)[k] == fr[k - 1]);
                    }
                },
                None => {},
            }
        }
    }
}

/// A configuration that passes validation names only `grep` and registry
/// modules, and `to_cargo_features` gives exactly one known feature for each
/// of its enabled entries.
pub proof fn law_validated_config_features(c: &SandboxConfig)
    requires
        first_error(modules_view(c), fs_enabled(modules_view(c))) is None,
    ensures
        features_of(modules_view(c)).len() == count_enabled(modules_view(c)),
        forall|k: int|
            0 <= k < features_of(modules_view(c)).len() ==> is_known_feature(
                #[trigger] features_of(modules_view(c))[k],
            ),
        forall|k: int|
            0 <= k < modules_view(c).len() ==> (#[trigger] modules_view(c)[k]).0 == grep_name()
                || registry_index(modules_view(c)[k].0) is Some,
{
    lemma_validated_features(modules_view(c), fs_enabled(modules_view(c)));
}

/// The accepted module names include `grep` but neither grep provider.
pub proof fn law_provider_names_not_modules()
    ensures
        registry_names().push(grep_name()).contains(grep_name()),
        forall|i: int|
            0 <= i < 11 ==> !is_provider_name(#[trigger] registry_names().push(grep_name())[i]),
{
    reveal_strlit("fff");
    reveal_strlit("ripgrep");
    reveal_strlit("grep");
    reveal_strlit("fs");
    reveal_strlit("json");
    reveal_strlit("csv");
    reveal_strlit("yaml");
    reveal_strlit("xml");
    reveal_strlit("http");
    reveal_strlit("compress");
    reveal_strlit("doc");
    reveal_strlit("plot");
    reveal_strlit("numx");
    let names = registry_names().push(grep_name());
    assert(names[10] == grep_name());
    assert forall|i: int| 0 <= i < 11 implies !is_provider_name(#[trigger] names[i]) by {
        assert(names[i].len() != 3 || names[i][0] != 'f' || names[i][1] != 'f');
        assert(names[i].len() != 7 || names[i][0] != 'r');
    }
}

} // verus!
