//! Pickers: the severity badge of a diagnostic entry, how a document or
//! a location is labelled, and the file filter of the workspace search.

use vstd::prelude::*;

use crate::commands::{path_strip_prefix, strip_path_prefix};
use crate::lsp_coordinator::Diagnostic;
use crate::text::{decimal, last_index_of, find_last_char, push_decimal, push_str, str_chars, str_eq, string_from_chars};

verus! {

/// Severity of an LSP diagnostic.
#[derive(Debug, Clone, Copy, PartialEq, Eq, Structural)]
pub enum Severity {
    Error,
    Warning,
    Info,
    Hint,
}

/// One-letter severity badge for the picker: `E` / `W` / `I` / `H`.
pub fn severity_tag(sev: Severity) -> (r: char)
    ensures
        r == match sev {
            Severity::Error => 'E',
            Severity::Warning => 'W',
            Severity::Info => 'I',
            Severity::Hint => 'H',
        },
{
    match sev {
        Severity::Error => 'E',
        Severity::Warning => 'W',
        Severity::Info => 'I',
        Severity::Hint => 'H',
    }
}

/// A path as the pickers show it: relative to the project root when it
/// lies under it, else as it is.
pub open spec fn spec_relative_label(path: Seq<char>, root: Seq<char>) -> Seq<char> {
    match path_strip_prefix(path, root) {
        Some(rest) => rest,
        None => path,
    }
}

/// Label a document's path (both it and `root` already canonical) for a
/// picker: relative to `root` when it lies under it.
pub fn relative_uri_label(path: &str, root: &str) -> (r: String)
    ensures
        r@ == spec_relative_label(path@, root@),
{
    match strip_path_prefix(path, root) {
        Some(rest) => rest,
        None => path.to_string(),
    }
}

/// Label a location for a picker: the path relative to `root`, then the
/// 1-based line and character, as `path:line:char`.
pub fn format_location_label(path: &str, root: &str, line: u32, character: u32) -> (r: String)
    requires
        line < u32::MAX,
        character < u32::MAX,
    ensures
        r@ == spec_relative_label(path@, root@) + ":"@ + decimal((line + 1) as nat) + ":"@ + decimal(
            (character + 1) as nat,
        ),
{
    let mut s = relative_uri_label(path, root);
    push_str(&mut s, ":");
    push_decimal(&mut s, line as u64 + 1);
    push_str(&mut s, ":");
    push_decimal(&mut s, character as u64 + 1);
    s
}

/// A diagnostics-picker entry: the severity badge, the document's label
/// (in the workspace-wide picker) and the 1-based line.
pub open spec fn diagnostic_entry(d: Diagnostic, label: Option<Seq<char>>) -> Seq<char> {
    let badge = seq!['[', severity_char(d.severity), ']', ' '];
    let place = match label {
        Some(l) => l + ":"@,
        None => Seq::empty(),
    };
    badge + place + decimal((d.range.start.line + 1) as nat)
}

/// The badge letter of a severity.
pub open spec fn severity_char(s: Severity) -> char {
    match s {
        Severity::Error => 'E',
        Severity::Warning => 'W',
        Severity::Info => 'I',
        Severity::Hint => 'H',
    }
}

/// The entries of the diagnostics picker for one document's
/// diagnostics, labelled with the document in the workspace-wide picker.
pub fn diagnostic_entries(diags: &[Diagnostic], label: Option<&str>) -> (r: Vec<String>)
    requires
        forall|k: int| 0 <= k < diags@.len() ==> (#[trigger] diags@[k]).range.start.line < u32::MAX,
    ensures
        r@.len() == diags@.len(),
        forall|k: int| 0 <= k < r@.len() ==> (#[trigger] r@[k])@ == diagnostic_entry(
            diags@[k],
            match label {
                Some(l) => Some(l@),
                None => None,
            },
        ),
{
    let mut out: Vec<String> = Vec::new();
    let mut k: usize = 0;
    while k < diags.len()
        invariant
            k <= diags@.len(),
            out@.len() == k,
            forall|m: int| 0 <= m < diags@.len() ==> (#[trigger] diags@[m]).range.start.line < u32::MAX,
            forall|m: int| 0 <= m < k ==> (#[trigger] out@[m])@ == diagnostic_entry(
                diags@[m],
                match label {
                    Some(l) => Some(l@),
                    None => None,
                },
            ),
        decreases diags@.len() - k,
    {
        let d = &diags[k];
        let mut s = String::new();
        crate::text::string_push(&mut s, '[');
        crate::text::string_push(&mut s, severity_tag(d.severity));
        crate::text::string_push(&mut s, ']');
        crate::text::string_push(&mut s, ' ');
        match label {
            Some(l) => {
                push_str(&mut s, l);
                push_str(&mut s, ":");
            },
            None => {},
        }
        push_decimal(&mut s, d.range.start.line as u64 + 1);
        proof {
            let lv = match label {
                Some(l) => Some(l@),
                None => None,
            };
            assert(s@ =~= diagnostic_entry(*d, lv));
        }
        out.push(s);
        k = k + 1;
    }
    out
}

/// File names searched whatever their extension.
pub open spec fn build_file_names() -> Seq<Seq<char>> {
    seq!["Makefile"@, "Dockerfile"@, "Justfile"@, "CMakeLists.txt"@, "Cargo.toml"@, "Cargo.lock"@]
}

/// Extensions of the source and text files the workspace search reads.
pub open spec fn searchable_exts() -> Seq<Seq<char>> {
    seq!["rs"@, "go"@, "c"@, "h"@, "cpp"@, "cc"@, "cxx"@, "hpp"@, "hh"@, "hxx"@, "zig"@, "v"@, "nim"@, "d"@, "java"@, "kt"@, "kts"@, "scala"@, "groovy"@, "clj"@, "cljs"@, "swift"@, "m"@, "mm"@, "py"@, "rb"@, "php"@, "pl"@, "lua"@, "tcl"@, "r"@, "sh"@, "bash"@, "zsh"@, "fish"@, "js"@, "mjs"@, "cjs"@, "jsx"@, "ts"@, "tsx"@, "vue"@, "svelte"@, "html"@, "htm"@, "xml"@, "css"@, "scss"@, "sass"@, "less"@, "styl"@, "hs"@, "ml"@, "mli"@, "ex"@, "exs"@, "erl"@, "elm"@, "fs"@, "fsx"@, "toml"@, "yaml"@, "yml"@, "json"@, "jsonc"@, "ron"@, "ini"@, "conf"@, "env"@, "properties"@, "md"@, "mdx"@, "rst"@, "adoc"@, "txt"@, "tex"@, "mk"@, "cmake"@, "ninja"@, "bazel"@, "bzl"@, "gradle"@, "sql"@, "graphql"@, "gql"@, "proto"@]
}

/// The views of a list of strings.
pub open spec fn strs_view(v: Seq<&str>) -> Seq<Seq<char>> {
    v.map_values(|s: &str| s@)
}

fn build_file_name_list() -> (r: Vec<&'static str>)
    ensures
        strs_view(r@) == build_file_names(),
{
    let mut v: Vec<&'static str> = Vec::new();
    v.push("Makefile");
    v.push("Dockerfile");
    v.push("Justfile");
    v.push("CMakeLists.txt");
    v.push("Cargo.toml");
    v.push("Cargo.lock");
    assert(strs_view(v@) =~= build_file_names());
    v
}

fn searchable_ext_list() -> (r: Vec<&'static str>)
    ensures
        strs_view(r@) == searchable_exts(),
{
    let mut v: Vec<&'static str> = Vec::new();
    v.push("rs");
    v.push("go");
    v.push("c");
    v.push("h");
    v.push("cpp");
    v.push("cc");
    v.push("cxx");
    v.push("hpp");
    v.push("hh");
    v.push("hxx");
    v.push("zig");
    v.push("v");
    v.push("nim");
    v.push("d");
    v.push("java");
    v.push("kt");
    v.push("kts");
    v.push("scala");
    v.push("groovy");
    v.push("clj");
    v.push("cljs");
    v.push("swift");
    v.push("m");
    v.push("mm");
    v.push("py");
    v.push("rb");
    v.push("php");
    v.push("pl");
    v.push("lua");
    v.push("tcl");
    v.push("r");
    v.push("sh");
    v.push("bash");
    v.push("zsh");
    v.push("fish");
    v.push("js");
    v.push("mjs");
    v.push("cjs");
    v.push("jsx");
    v.push("ts");
    v.push("tsx");
    v.push("vue");
    v.push("svelte");
    v.push("html");
    v.push("htm");
    v.push("xml");
    v.push("css");
    v.push("scss");
    v.push("sass");
    v.push("less");
    v.push("styl");
    v.push("hs");
    v.push("ml");
    v.push("mli");
    v.push("ex");
    v.push("exs");
    v.push("erl");
    v.push("elm");
    v.push("fs");
    v.push("fsx");
    v.push("toml");
    v.push("yaml");
    v.push("yml");
    v.push("json");
    v.push("jsonc");
    v.push("ron");
    v.push("ini");
    v.push("conf");
    v.push("env");
    v.push("properties");
    v.push("md");
    v.push("mdx");
    v.push("rst");
    v.push("adoc");
    v.push("txt");
    v.push("tex");
    v.push("mk");
    v.push("cmake");
    v.push("ninja");
    v.push("bazel");
    v.push("bzl");
    v.push("gradle");
    v.push("sql");
    v.push("graphql");
    v.push("gql");
    v.push("proto");
    assert(strs_view(v@) =~= searchable_exts());
    v
}

/// Whether `x` is one of `list`.
fn member(list: &Vec<&'static str>, x: &str) -> (r: bool)
    ensures
        r == strs_view(list@).contains(x@),
{
    let ghost v = strs_view(list@);
    let mut i: usize = 0;
    while i < list.len()
        invariant
            i <= list@.len(),
            v == strs_view(list@),
            forall|k: int| 0 <= k < i ==> v[k] != x@,
        decreases list@.len() - i,
    {
        if str_eq(list[i], x) {
            assert(v[i as int] == x@);
            return true;
        }
        i = i + 1;
    }
    false
}

/// The last `/`-separated component of a relative path.
pub open spec fn base_name(rel: Seq<char>) -> Seq<char> {
    rel.skip(last_index_of(rel, '/') + 1)
}

/// Whether a file is worth feeding to the workspace search: a known
/// build file name, or a name whose extension (after the last `.`) is a
/// known source or text extension.
pub open spec fn searchable(rel: Seq<char>) -> bool {
    let name = base_name(rel);
    ||| build_file_names().contains(name)
    ||| last_index_of(name, '.') >= 0 && searchable_exts().contains(name.skip(last_index_of(name, '.') + 1))
}

/// The chars of `s[from..]`.
fn chars_from(s: &[char], from: usize) -> (r: Vec<char>)
    requires
        from <= s@.len(),
    ensures
        r@ == s@.skip(from as int),
{
    let mut out: Vec<char> = Vec::new();
    let mut i = from;
    while i < s.len()
        invariant
            from <= i <= s@.len(),
            out@ == s@.subrange(from as int, i as int),
        decreases s@.len() - i,
    {
        out.push(s[i]);
        assert(out@ =~= s@.subrange(from as int, i + 1));
        i = i + 1;
    }
    assert(out@ =~= s@.skip(from as int));
    out
}

/// True if `rel` looks like a source or text file the user would want to
/// grep: an extension allowlist, plus common extension-less build files.
pub fn is_searchable_ext(rel: &str) -> (r: bool)
    ensures
        r == searchable(rel@),
{
    let cs = str_chars(rel);
    proof {
        vstd_last_index_bounds(cs@, '/');
    }
    let start = match find_last_char(cs.as_slice(), '/') {
        Some(i) => {
            assert(i < cs.len());
            i + 1
        },
        None => 0,
    };
    let name_chars = chars_from(cs.as_slice(), start);
    let name = string_from_chars(name_chars.as_slice());
    if member(&build_file_name_list(), name.as_str()) {
        return true;
    }
    proof {
        vstd_last_index_bounds(name_chars@, '.');
    }
    match find_last_char(name_chars.as_slice(), '.') {
        None => false,
        Some(d) => {
            assert(d < name_chars.len());
            let ext_chars = chars_from(name_chars.as_slice(), d + 1);
            let ext = string_from_chars(ext_chars.as_slice());
            member(&searchable_ext_list(), ext.as_str())
        },
    }
}

proof fn vstd_last_index_bounds(s: Seq<char>, c: char)
    ensures
        -1 <= last_index_of(s, c) < s.len(),
{
    crate::text::lemma_last_index_of_bounds(s, c);
}

/// The three marker columns of a buffer-picker row: whether the buffer
/// is the active one, whether it differs from `HEAD`, whether it has
/// unsaved edits. The active buffer's own state is live; another file's
/// change mark comes from `git status` or its unsaved edits; a scratch
/// buffer never has one.
pub open spec fn buffer_marks(
    is_file: bool,
    is_current: bool,
    active_dirty: bool,
    active_vcs_changed: bool,
    stored_dirty: bool,
    git_changed: bool,
) -> (bool, bool, bool) {
    let dirty = if is_current { active_dirty } else { stored_dirty };
    let vcs = if !is_file { false } else if is_current { active_vcs_changed } else { git_changed || dirty };
    (is_current, vcs, dirty)
}

/// One buffer-picker row: `%` / `~` / `+` (or blanks), a space, the label.
pub fn buffer_picker_row(
    label: &str,
    is_file: bool,
    is_current: bool,
    active_dirty: bool,
    active_vcs_changed: bool,
    stored_dirty: bool,
    git_changed: bool,
) -> (r: String)
    ensures
        ({
            let m = buffer_marks(is_file, is_current, active_dirty, active_vcs_changed, stored_dirty, git_changed);
            r@ == seq![if m.0 { '%' } else { ' ' }, if m.1 { '~' } else { ' ' }, if m.2 { '+' } else { ' ' }, ' ']
                + label@
        }),
{
    let dirty = if is_current { active_dirty } else { stored_dirty };
    let vcs = if !is_file { false } else if is_current { active_vcs_changed } else { git_changed || dirty };
    let mut s = String::new();
    crate::text::string_push(&mut s, if is_current { '%' } else { ' ' });
    crate::text::string_push(&mut s, if vcs { '~' } else { ' ' });
    crate::text::string_push(&mut s, if dirty { '+' } else { ' ' });
    crate::text::string_push(&mut s, ' ');
    push_str(&mut s, label);
    assert(s@ =~= seq![if is_current { '%' } else { ' ' }, if vcs { '~' } else { ' ' }, if dirty { '+' } else { ' ' }, ' ']
        + label@);
    s
}

} // verus!
