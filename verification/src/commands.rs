//! Arguments and labels of `:` commands: save paths, LSP client keys,
//! the dirty-buffer list of a refused `:q`, path remapping after a
//! rename, and the `:grammar` subcommands.

use std::path::Path;

use vstd::prelude::*;

use crate::buffer_ref::{BufferRef, RefView, scratch_text};
use crate::text::{decimal, push_decimal, push_str, is_ws, trim, str_chars, string_from_chars, trim_chars, str_eq};

verus! {

/// `:w <path>` argument: none when the rest of the line is empty.
pub fn parse_save_path(rest: &str) -> (r: Option<String>)
    ensures
        match r {
            Some(p) => rest@.len() > 0 && p@ == rest@,
            None => rest@.len() == 0,
        },
{
    if rest.is_empty() {
        None
    } else {
        Some(rest.to_string())
    }
}

/// The identifier of an LSP client: `"<lang>::<server>"`.
pub fn client_key(lang: &str, server: &str) -> (r: String)
    ensures
        r@ == lang@ + "::"@ + server@,
{
    let mut s = lang.to_string();
    push_str(&mut s, "::");
    push_str(&mut s, server);
    s
}

// ────────────────────────────────────────────────────────────────────────
// Paths
// ────────────────────────────────────────────────────────────────────────

/// What `Path::file_name` gives for the path `p`.
pub uninterp spec fn path_file_name(p: Seq<char>) -> Option<Seq<char>>;

/// What `Path == Path` answers (component-wise equality).
pub uninterp spec fn paths_equal(a: Seq<char>, b: Seq<char>) -> bool;

/// What `Path::strip_prefix(base)` leaves of `p` (`None` when `base` is
/// not a component-wise prefix of `p`).
pub uninterp spec fn path_strip_prefix(p: Seq<char>, base: Seq<char>) -> Option<Seq<char>>;

/// What `Path::join` makes of `base` and `rel`.
pub uninterp spec fn path_join(base: Seq<char>, rel: Seq<char>) -> Seq<char>;

/// `Path::file_name` of `p`: its last normal component, or `None` for a
/// path ending in `..` or for a root. Named [`path_file_name`].
#[verifier::external_body]
fn file_name_of(p: &str) -> (r: Option<String>)
    ensures
        match r {
            Some(n) => path_file_name(p@) == Some(n@),
            None => path_file_name(p@) is None,
        },
{
    match Path::new(p).file_name() {
        Some(n) => Some(n.to_string_lossy().into_owned()),
        None => None,
    }
}

/// `Path::new(a) == Path::new(b)`. Named [`paths_equal`].
#[verifier::external_body]
fn same_path(a: &str, b: &str) -> (r: bool)
    ensures
        r == paths_equal(a@, b@),
{
    Path::new(a) == Path::new(b)
}

/// `Path::strip_prefix`. Named [`path_strip_prefix`].
#[verifier::external_body]
pub(crate) fn strip_path_prefix(p: &str, base: &str) -> (r: Option<String>)
    ensures
        match r {
            Some(s) => path_strip_prefix(p@, base@) == Some(s@),
            None => path_strip_prefix(p@, base@) is None,
        },
{
    match Path::new(p).strip_prefix(base) {
        Ok(rest) => Some(rest.to_string_lossy().into_owned()),
        Err(_) => None,
    }
}

/// `Path::join`. Named [`path_join`].
#[verifier::external_body]
fn join_path(base: &str, rel: &str) -> (r: String)
    ensures
        r@ == path_join(base@, rel@),
{
    Path::new(base).join(rel).to_string_lossy().into_owned()
}

/// Where a path ends up after `old` is moved to `new`: `new` itself
/// when the path is `old` (a file rename), `new` joined with the rest
/// when it lies under `old` (a directory move); `None` when unaffected.
pub open spec fn spec_remap_path(p: Seq<char>, old: Seq<char>, new: Seq<char>) -> Option<Seq<char>> {
    if paths_equal(p, old) {
        Some(new)
    } else {
        match path_strip_prefix(p, old) {
            Some(rest) => Some(path_join(new, rest)),
            None => None,
        }
    }
}

/// Remap one path against an `old -> new` move.
pub fn remap_path(p: &str, old: &str, new: &str) -> (r: Option<String>)
    ensures
        match spec_remap_path(p@, old@, new@) {
            Some(q) => r matches Some(s) && s@ == q,
            None => r is None,
        },
{
    if same_path(p, old) {
        return Some(new.to_string());
    }
    match strip_path_prefix(p, old) {
        Some(rest) => Some(join_path(new, rest.as_str())),
        None => None,
    }
}

// ────────────────────────────────────────────────────────────────────────
// The dirty list of a refused `:q`
// ────────────────────────────────────────────────────────────────────────

/// How many names the dirty list spells out before `+N more`.
pub const DIRTY_SHOWN: usize = 3;

/// A buffer's label in the list: the scratch label, or a file's name
/// (its whole path when it has no file name).
pub open spec fn dirty_label(r: RefView) -> Seq<char> {
    match r {
        RefView::Scratch(id) => scratch_text(id),
        RefView::File(p) => match path_file_name(p) {
            Some(n) => n,
            None => p,
        },
    }
}

/// The labels joined with `", "`.
pub open spec fn join_comma(ls: Seq<Seq<char>>) -> Seq<char>
    decreases ls.len(),
{
    if ls.len() == 0 {
        Seq::empty()
    } else if ls.len() == 1 {
        ls[0]
    } else {
        join_comma(ls.drop_last()) + ", "@ + ls.last()
    }
}

/// The labels of the first [`DIRTY_SHOWN`] buffers.
pub open spec fn shown_labels(refs: Seq<RefView>) -> Seq<Seq<char>> {
    let n = if refs.len() < DIRTY_SHOWN { refs.len() as int } else { DIRTY_SHOWN as int };
    refs.take(n).map_values(|r: RefView| dirty_label(r))
}

/// The human-readable dirty list: up to three names joined with `", "`,
/// then `" +N more"` for the rest.
pub open spec fn spec_dirty_list(refs: Seq<RefView>) -> Seq<char> {
    let names = join_comma(shown_labels(refs));
    if refs.len() > DIRTY_SHOWN {
        names + " +"@ + decimal((refs.len() - DIRTY_SHOWN) as nat) + " more"@
    } else {
        names
    }
}

/// The views of a list of refs.
pub open spec fn ref_views(v: Seq<BufferRef>) -> Seq<RefView> {
    v.map_values(|r: BufferRef| r@)
}

fn dirty_label_of(r: &BufferRef) -> (s: String)
    ensures
        s@ == dirty_label(r@),
{
    match r {
        BufferRef::Scratch(id) => BufferRef::scratch_label(*id),
        BufferRef::File(p) => match file_name_of(p.as_str()) {
            Some(n) => n,
            None => p.clone(),
        },
    }
}

/// List the dirty buffers a `:q` refuses to drop.
pub fn format_dirty_list(refs: &[BufferRef]) -> (r: String)
    ensures
        r@ == spec_dirty_list(ref_views(refs@)),
{
    let ghost v = ref_views(refs@);
    let n = if refs.len() < DIRTY_SHOWN { refs.len() } else { DIRTY_SHOWN };
    let ghost labels = shown_labels(v);
    let mut s = String::new();
    let mut i: usize = 0;
    while i < n
        invariant
            n <= refs@.len(),
            n == (if refs@.len() < DIRTY_SHOWN { refs@.len() as int } else { DIRTY_SHOWN as int }),
            v == ref_views(refs@),
            labels == shown_labels(v),
            labels.len() == n,
            i <= n,
            s@ == join_comma(labels.take(i as int)),
        decreases n - i,
    {
        if i > 0 {
            push_str(&mut s, ", ");
        }
        let label = dirty_label_of(&refs[i]);
        push_str(&mut s, label.as_str());
        proof {
            let t = labels.take(i + 1);
            assert(t.drop_last() =~= labels.take(i as int));
            assert(t.last() == labels[i as int]);
            assert(labels[i as int] == dirty_label(refs@[i as int]@));
            if i == 0 {
                assert(Seq::<char>::empty() + t[0] =~= t[0]);
            }
        }
        i = i + 1;
    }
    assert(labels.take(n as int) =~= labels);
    if refs.len() > DIRTY_SHOWN {
        push_str(&mut s, " +");
        push_decimal(&mut s, (refs.len() - DIRTY_SHOWN) as u64);
        push_str(&mut s, " more");
    }
    s
}

// ────────────────────────────────────────────────────────────────────────
// `:grammar`
// ────────────────────────────────────────────────────────────────────────

/// One `:grammar` subcommand: canonical name, aliases, and the hint
/// shown in the command panel.
pub struct GrammarSubcommand {
    pub name: &'static str,
    pub aliases: Vec<&'static str>,
    pub description: &'static str,
}

/// The `:grammar` subcommands, in hint-panel order.
pub fn grammar_subcommands() -> (r: Vec<GrammarSubcommand>)
    ensures
        r@.len() == 3,
        r@[0].name@ == "list"@,
        r@[1].name@ == "install"@,
        r@[2].name@ == "remove"@,
{
    let mut v: Vec<GrammarSubcommand> = Vec::new();
    let mut a: Vec<&'static str> = Vec::new();
    a.push("ls");
    v.push(GrammarSubcommand { name: "list", aliases: a, description: "browse, install & remove (modal)" });
    let mut b: Vec<&'static str> = Vec::new();
    b.push("add");
    v.push(GrammarSubcommand { name: "install", aliases: b, description: "install <name>... | --all" });
    let mut c: Vec<&'static str> = Vec::new();
    c.push("rm");
    c.push("uninstall");
    v.push(GrammarSubcommand { name: "remove", aliases: c, description: "remove <name>..." });
    v
}

/// What a `:grammar` command line asks for.
#[derive(Debug, Clone)]
pub enum GrammarCommand {
    /// Open the browse / install / remove modal.
    List,
    /// Install the named grammars (the rest of the line).
    Install(String),
    /// Remove the named grammars (the rest of the line).
    Remove(String),
    /// Not a known subcommand; carries what was typed.
    Unknown(String),
}

/// Index of the first whitespace char, or `-1`.
pub open spec fn first_ws(s: Seq<char>) -> int
    decreases s.len(),
{
    if s.len() == 0 {
        -1
    } else if is_ws(s[0]) {
        0
    } else {
        let r = first_ws(s.drop_first());
        if r < 0 { -1 } else { r + 1 }
    }
}

proof fn lemma_first_ws(s: Seq<char>)
    ensures
        -1 <= first_ws(s) < s.len(),
        first_ws(s) >= 0 ==> is_ws(s[first_ws(s)]),
        forall|j: int| 0 <= j < (if first_ws(s) < 0 { s.len() as int } else { first_ws(s) }) ==> !is_ws(#[trigger] s[j]),
    decreases s.len(),
{
    if s.len() > 0 && !is_ws(s[0]) {
        let t = s.drop_first();
        lemma_first_ws(t);
        assert forall|j: int| 0 <= j < (if first_ws(s) < 0 { s.len() as int } else { first_ws(s) }) implies !is_ws(
            #[trigger] s[j],
        ) by {
            if j > 0 {
                assert(s[j] == t[j - 1]);
            }
        }
    }
}

/// The canonical subcommand a name or alias stands for.
pub open spec fn resolve_grammar(cmd: Seq<char>) -> Option<Seq<char>> {
    if cmd == "list"@ || cmd == "ls"@ {
        Some("list"@)
    } else if cmd == "install"@ || cmd == "add"@ {
        Some("install"@)
    } else if cmd == "remove"@ || cmd == "rm"@ || cmd == "uninstall"@ {
        Some("remove"@)
    } else {
        None
    }
}

/// The first word of a command line (after trimming, up to the first
/// whitespace) and the trimmed rest.
pub open spec fn word_split(sub: Seq<char>) -> (Seq<char>, Seq<char>) {
    let t = trim(sub);
    let k = first_ws(t);
    if k < 0 {
        (t, Seq::empty())
    } else {
        (t.take(k), trim(t.skip(k + 1)))
    }
}

/// Whether `c` is the command `spec_parse_grammar` gives for `sub`.
pub open spec fn is_grammar_command(c: GrammarCommand, sub: Seq<char>) -> bool {
    let (cmd, rest) = word_split(sub);
    if cmd.len() == 0 {
        c is List
    } else {
        match resolve_grammar(cmd) {
            None => c matches GrammarCommand::Unknown(u) && u@ == cmd,
            Some(name) => if name == "list"@ {
                c is List
            } else if name == "install"@ {
                c matches GrammarCommand::Install(a) && a@ == rest
            } else {
                c matches GrammarCommand::Remove(a) && a@ == rest
            },
        }
    }
}

/// Split a command line into its first word and the trimmed rest.
pub fn split_first_word(sub: &str) -> (r: (String, String))
    ensures
        r.0@ == word_split(sub@).0,
        r.1@ == word_split(sub@).1,
{
    let all = str_chars(sub);
    let t = trim_chars(all.as_slice(), 0, all.len());
    assert(all@.subrange(0, all@.len() as int) =~= all@);
    let ghost tv = t@;
    proof {
        lemma_first_ws(tv);
    }
    let mut k: usize = 0;
    while k < t.len() && !crate::text::char_is_whitespace(t[k])
        invariant
            k <= t@.len(),
            tv == t@,
            forall|j: int| 0 <= j < k ==> !is_ws(#[trigger] tv[j]),
        decreases t@.len() - k,
    {
        k = k + 1;
    }
    proof {
        if k < t@.len() {
            assert(first_ws(tv) == k) by {
                if first_ws(tv) >= 0 && first_ws(tv) < k {
                    assert(!is_ws(tv[first_ws(tv)]));
                }
                if first_ws(tv) < 0 || first_ws(tv) > k {
                    assert(!is_ws(tv[k as int]));
                }
            }
        } else {
            assert(first_ws(tv) < 0) by {
                if first_ws(tv) >= 0 {
                    assert(!is_ws(tv[first_ws(tv)]));
                }
            }
        }
    }
    let (cmd_chars, rest_chars) = if k < t.len() {
        let mut c: Vec<char> = Vec::new();
        let mut i: usize = 0;
        while i < k
            invariant
                i <= k < t@.len(),
                c@ == t@.take(i as int),
            decreases k - i,
        {
            c.push(t[i]);
            assert(c@ =~= t@.take(i + 1));
            i = i + 1;
        }
        let rest = trim_chars(t.as_slice(), k + 1, t.len());
        assert(t@.subrange(k + 1, t@.len() as int) =~= t@.skip(k + 1));
        (c, rest)
    } else {
        assert(t@.take(t@.len() as int) =~= t@);
        let mut c: Vec<char> = Vec::new();
        let mut i: usize = 0;
        while i < t.len()
            invariant
                i <= t@.len(),
                c@ == t@.take(i as int),
            decreases t@.len() - i,
        {
            c.push(t[i]);
            assert(c@ =~= t@.take(i + 1));
            i = i + 1;
        }
        (c, Vec::new())
    };
    assert(tv == trim(sub@));
    assert(cmd_chars@ == word_split(sub@).0);
    assert(rest_chars@ == word_split(sub@).1);
    (string_from_chars(cmd_chars.as_slice()), string_from_chars(rest_chars.as_slice()))
}

/// Read a `:grammar` command line. A bare `:grammar` opens the modal;
/// names and aliases resolve through [`grammar_subcommands`].
pub fn parse_grammar_command(sub: &str) -> (r: GrammarCommand)
    ensures
        is_grammar_command(r, sub@),
{
    let (cmd, rest) = split_first_word(sub);
    if cmd.as_str().is_empty() {
        return GrammarCommand::List;
    }
    let c = cmd.as_str();
    proof {
        reveal_strlit("list");
        reveal_strlit("install");
        reveal_strlit("remove");
        assert("install"@ != "list"@) by {
            assert("install"@.len() != "list"@.len());
        }
        assert("remove"@ != "list"@) by {
            assert("remove"@.len() != "list"@.len());
        }
        assert("remove"@ != "install"@) by {
            assert("remove"@.len() != "install"@.len());
        }
    }
    let ghost split = word_split(sub@);
    assert(c@ == split.0);
    if str_eq(c, "list") || str_eq(c, "ls") {
        assert(resolve_grammar(split.0) == Some("list"@));
        GrammarCommand::List
    } else if str_eq(c, "install") || str_eq(c, "add") {
        assert(resolve_grammar(split.0) == Some("install"@));
        let r = GrammarCommand::Install(rest);
        assert(is_grammar_command(r, sub@));
        r
    } else if str_eq(c, "remove") || str_eq(c, "rm") || str_eq(c, "uninstall") {
        assert(resolve_grammar(split.0) == Some("remove"@));
        let r = GrammarCommand::Remove(rest);
        assert(is_grammar_command(r, sub@));
        r
    } else {
        assert(resolve_grammar(split.0) is None);
        GrammarCommand::Unknown(cmd)
    }
}

} // verus!
