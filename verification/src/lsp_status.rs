//! The text of the `:lsp` status listing: every configured server of the
//! languages in scope (running or stopped), the running clients no
//! configuration names any more, and Copilot.

use vstd::prelude::*;

use crate::copilot::CopilotAuthState;
use crate::lsp_coordinator::{
    insert_by, law_sort_by_sorts, lemma_insert_by_at, lemma_lex_order, lex_le, lex_less, lex_order, sort_by, sorted_by,
    RunningLspInfo,
};
use crate::text::{decimal, push_decimal, push_str, string_push};

verus! {

/// One configured language server: its name and the command that starts
/// it.
#[derive(Debug)]
pub struct LspServerConfig {
    pub name: String,
    pub command: String,
}

/// A configured language and its servers.
#[derive(Debug)]
pub struct LanguageLsp {
    pub name: String,
    pub lsp: Vec<LspServerConfig>,
}

/// The running Copilot server, as the listing shows it.
#[derive(Debug, Clone, Copy)]
pub struct CopilotProcess {
    pub pid: u32,
    pub open_count: usize,
}

/// `n` spaces.
pub open spec fn spaces(n: nat) -> Seq<char> {
    Seq::new(n, |i: int| ' ')
}

/// `s` left-aligned in a field `w` chars wide (`{:<w}`).
pub open spec fn pad_right(s: Seq<char>, w: nat) -> Seq<char> {
    if s.len() >= w { s } else { s + spaces((w - s.len()) as nat) }
}

/// `"s"` unless there is exactly one.
pub open spec fn plural(n: nat) -> Seq<char> {
    if n == 1 { ""@ } else { "s"@ }
}

/// The width of the name column.
pub const NAME_WIDTH: usize = 28;

/// A running configured server.
pub open spec fn running_row(name: Seq<char>, info: RunningLspInfo) -> Seq<char> {
    "  ● "@ + pad_right(name, NAME_WIDTH as nat) + " running  pid "@ + decimal(info.pid as nat) + "  "@ + decimal(
        info.open_count as nat,
    ) + " file"@ + plural(info.open_count as nat) + "  ("@ + info.language_id@ + ")\n"@ + "      root: "@
        + info.root_uri@ + "\n"@
}

/// A configured server that is not running.
pub open spec fn stopped_row(name: Seq<char>, command: Seq<char>) -> Seq<char> {
    "  ○ "@ + pad_right(name, NAME_WIDTH as nat) + " stopped  ("@ + command + ")\n"@
}

/// A running client no configuration names.
pub open spec fn orphan_row(info: RunningLspInfo) -> Seq<char> {
    "  ● "@ + pad_right(info.client_key@, NAME_WIDTH as nat) + " pid "@ + decimal(info.pid as nat) + "  "@ + decimal(
        info.open_count as nat,
    ) + " file"@ + plural(info.open_count as nat) + "  ("@ + info.language_id@ + ")\n"@ + "      root: "@
        + info.root_uri@ + "\n"@
}

fn push_padded(s: &mut String, t: &str, w: usize)
    ensures
        final(s)@ == old(s)@ + pad_right(t@, w as nat),
{
    push_str(s, t);
    let n = crate::text::str_chars(t).len();
    let mut k = n;
    let ghost base = old(s)@ + t@;
    while k < w
        invariant
            n == t@.len(),
            n <= k <= w || n >= w,
            n >= w ==> k == n,
            k >= n,
            s@ == base + spaces((k - n) as nat),
        decreases w - k,
    {
        string_push(s, ' ');
        assert(spaces((k - n) as nat).push(' ') =~= spaces((k + 1 - n) as nat));
        assert(base + spaces((k + 1 - n) as nat) =~= (base + spaces((k - n) as nat)).push(' '));
        k = k + 1;
    }
    proof {
        if n >= w {
            assert(k == n);
            assert(spaces(0) =~= Seq::<char>::empty());
            assert(s@ =~= base);
        } else {
            assert(k == w);
        }
        assert(s@ =~= old(s)@ + pad_right(t@, w as nat));
    }
}

pub(crate) fn push_plural(s: &mut String, n: usize)
    ensures
        final(s)@ == old(s)@ + plural(n as nat),
{
    if n == 1 {
        proof {
            reveal_strlit("");
        }
        assert(old(s)@ + ""@ =~= old(s)@);
    } else {
        push_str(s, "s");
    }
}

fn push_running_row(s: &mut String, name: &str, info: &RunningLspInfo)
    ensures
        final(s)@ == old(s)@ + running_row(name@, *info),
{
    push_str(s, "  ● ");
    push_padded(s, name, NAME_WIDTH);
    push_str(s, " running  pid ");
    push_decimal(s, info.pid as u64);
    push_str(s, "  ");
    push_decimal(s, info.open_count as u64);
    push_str(s, " file");
    push_plural(s, info.open_count);
    push_str(s, "  (");
    push_str(s, info.language_id.as_str());
    push_str(s, ")\n");
    push_str(s, "      root: ");
    push_str(s, info.root_uri.as_str());
    push_str(s, "\n");
    assert(final(s)@ =~= old(s)@ + running_row(name@, *info));
}

fn push_stopped_row(s: &mut String, name: &str, command: &str)
    ensures
        final(s)@ == old(s)@ + stopped_row(name@, command@),
{
    push_str(s, "  ○ ");
    push_padded(s, name, NAME_WIDTH);
    push_str(s, " stopped  (");
    push_str(s, command);
    push_str(s, ")\n");
    assert(final(s)@ =~= old(s)@ + stopped_row(name@, command@));
}

fn push_orphan_row(s: &mut String, info: &RunningLspInfo)
    ensures
        final(s)@ == old(s)@ + orphan_row(*info),
{
    push_str(s, "  ● ");
    push_padded(s, info.client_key.as_str(), NAME_WIDTH);
    push_str(s, " pid ");
    push_decimal(s, info.pid as u64);
    push_str(s, "  ");
    push_decimal(s, info.open_count as u64);
    push_str(s, " file");
    push_plural(s, info.open_count);
    push_str(s, "  (");
    push_str(s, info.language_id.as_str());
    push_str(s, ")\n");
    push_str(s, "      root: ");
    push_str(s, info.root_uri.as_str());
    push_str(s, "\n");
    assert(final(s)@ =~= old(s)@ + orphan_row(*info));
}

// ────────────────────────────────────────────────────────────────────────
// Configured servers
// ────────────────────────────────────────────────────────────────────────

/// The running client keyed `key` (the first such).
pub open spec fn running_for(running: Seq<RunningLspInfo>, key: Seq<char>) -> Option<RunningLspInfo>
    decreases running.len(),
{
    if running.len() == 0 {
        None
    } else if running[0].client_key@ == key {
        Some(running[0])
    } else {
        running_for(running.drop_first(), key)
    }
}

fn find_running(running: &[RunningLspInfo], key: &String) -> (r: Option<usize>)
    ensures
        match r {
            Some(i) => i < running@.len() && running_for(running@, key@) == Some(running@[i as int]),
            None => running_for(running@, key@) is None,
        },
{
    let mut i: usize = 0;
    assert(running@.skip(0) =~= running@);
    while i < running.len()
        invariant
            i <= running@.len(),
            running_for(running@, key@) == running_for(running@.skip(i as int), key@),
        decreases running@.len() - i,
    {
        let ghost rest = running@.skip(i as int);
        assert(rest[0] == running@[i as int]);
        assert(rest.drop_first() =~= running@.skip(i + 1));
        if running[i].client_key == *key {
            return Some(i);
        }
        i = i + 1;
    }
    None
}

/// The row of configured server `cfg` of language `lang`.
pub open spec fn config_row(lang: Seq<char>, cfg: LspServerConfig, running: Seq<RunningLspInfo>) -> Seq<char> {
    match running_for(running, lang + "::"@ + cfg.name@) {
        Some(info) => running_row(cfg.name@, info),
        None => stopped_row(cfg.name@, cfg.command@),
    }
}

/// The rows of a language's servers, in configuration order.
pub open spec fn config_rows(lang: Seq<char>, cfgs: Seq<LspServerConfig>, running: Seq<RunningLspInfo>) -> Seq<char>
    decreases cfgs.len(),
{
    if cfgs.len() == 0 {
        Seq::empty()
    } else {
        config_rows(lang, cfgs.drop_last(), running) + config_row(lang, cfgs.last(), running)
    }
}

/// A language's section: a blank line, its name, its servers.
pub open spec fn lang_section(l: LanguageLsp, running: Seq<RunningLspInfo>) -> Seq<char> {
    "\n"@ + l.name@ + "\n"@ + config_rows(l.name@, l.lsp@, running)
}

fn push_lang_section(s: &mut String, l: &LanguageLsp, running: &[RunningLspInfo])
    ensures
        final(s)@ == old(s)@ + lang_section(*l, running@),
{
    push_str(s, "\n");
    push_str(s, l.name.as_str());
    push_str(s, "\n");
    let ghost base = s@;
    let ghost cfgs = l.lsp@;
    let mut i: usize = 0;
    while i < l.lsp.len()
        invariant
            i <= cfgs.len(),
            cfgs == l.lsp@,
            s@ == base + config_rows(l.name@, cfgs.take(i as int), running@),
        decreases cfgs.len() - i,
    {
        let cfg = &l.lsp[i];
        assert(cfgs.take(i + 1).drop_last() =~= cfgs.take(i as int));
        assert(cfgs.take(i + 1).last() == *cfg);
        let mut key = l.name.clone();
        push_str(&mut key, "::");
        push_str(&mut key, cfg.name.as_str());
        let ghost before = s@;
        match find_running(running, &key) {
            Some(j) => push_running_row(s, cfg.name.as_str(), &running[j]),
            None => push_stopped_row(s, cfg.name.as_str(), cfg.command.as_str()),
        }
        assert(s@ =~= before + config_row(l.name@, *cfg, running@));
        assert(s@ =~= base + config_rows(l.name@, cfgs.take(i + 1), running@));
        i = i + 1;
    }
    assert(cfgs.take(cfgs.len() as int) =~= cfgs);
    assert(s@ =~= old(s)@ + lang_section(*l, running@));
}

/// The indices below `n` of the languages that configure a server.
pub open spec fn with_lsp(langs: Seq<LanguageLsp>, n: int) -> Seq<usize>
    decreases n,
{
    if n <= 0 {
        Seq::empty()
    } else {
        with_lsp(langs, n - 1) + if langs[n - 1].lsp@.len() > 0 { seq![(n - 1) as usize] } else { Seq::empty() }
    }
}

/// The languages the listing covers: every language with a server
/// (`all`), else the buffer's language when it has one.
pub open spec fn in_scope(langs: Seq<LanguageLsp>, all: bool, buffer_lang: Option<usize>) -> Seq<usize> {
    if all {
        with_lsp(langs, langs.len() as int)
    } else {
        match buffer_lang {
            Some(i) => if langs[i as int].lsp@.len() > 0 { seq![i] } else { Seq::empty() },
            None => Seq::empty(),
        }
    }
}

/// Languages ordered by name.
pub open spec fn by_name(langs: Seq<LanguageLsp>) -> spec_fn(usize, usize) -> bool {
    |a: usize, b: usize| lex_le(langs[a as int].name@, langs[b as int].name@)
}

/// The languages listed, by name.
pub open spec fn language_order(langs: Seq<LanguageLsp>, all: bool, buffer_lang: Option<usize>) -> Seq<usize> {
    sort_by(in_scope(langs, all, buffer_lang), by_name(langs))
}

fn languages_in_scope(langs: &[LanguageLsp], all: bool, buffer_lang: Option<usize>) -> (r: Vec<usize>)
    requires
        buffer_lang matches Some(i) ==> i < langs@.len(),
    ensures
        r@ == in_scope(langs@, all, buffer_lang),
        forall|k: int| 0 <= k < r@.len() ==> r@[k] < langs@.len(),
{
    let mut out: Vec<usize> = Vec::new();
    if all {
        let mut i: usize = 0;
        while i < langs.len()
            invariant
                i <= langs@.len(),
                out@ == with_lsp(langs@, i as int),
                forall|k: int| 0 <= k < out@.len() ==> out@[k] < langs@.len(),
            decreases langs@.len() - i,
        {
            if langs[i].lsp.len() > 0 {
                out.push(i);
            } else {
                assert(out@ =~= with_lsp(langs@, i as int) + Seq::<usize>::empty());
            }
            i = i + 1;
        }
    } else {
        match buffer_lang {
            Some(i) => {
                if langs[i].lsp.len() > 0 {
                    out.push(i);
                    assert(out@ =~= seq![i]);
                }
            },
            None => {},
        }
    }
    out
}

fn order_languages(langs: &[LanguageLsp], idx: Vec<usize>) -> (r: Vec<usize>)
    requires
        forall|k: int| 0 <= k < idx@.len() ==> idx@[k] < langs@.len(),
    ensures
        r@ == sort_by(idx@, by_name(langs@)),
{
    let ghost le = by_name(langs@);
    let mut out: Vec<usize> = Vec::new();
    let mut i: usize = 0;
    while i < idx.len()
        invariant
            i <= idx@.len(),
            le == by_name(langs@),
            forall|k: int| 0 <= k < idx@.len() ==> idx@[k] < langs@.len(),
            forall|k: int| 0 <= k < out@.len() ==> out@[k] < langs@.len(),
            out@ == sort_by(idx@.take(i as int), le),
        decreases idx@.len() - i,
    {
        let x = idx[i];
        let mut j: usize = out.len();
        while j > 0 && lex_less(&langs[x].name, &langs[out[j - 1]].name)
            invariant
                j <= out@.len(),
                x < langs@.len(),
                le == by_name(langs@),
                forall|k: int| 0 <= k < out@.len() ==> out@[k] < langs@.len(),
                forall|m: int| j <= m < out@.len() ==> !le(#[trigger] out@[m], x),
            decreases j,
        {
            j = j - 1;
        }
        proof {
            lemma_insert_by_at(out@, x, le, j as int);
            assert(idx@.take(i + 1).drop_last() =~= idx@.take(i as int));
            assert(idx@.take(i + 1).last() == x);
        }
        out.insert(j, x);
        i = i + 1;
    }
    assert(idx@.take(idx@.len() as int) =~= idx@);
    out
}

/// The sections of the listed languages, in order.
pub open spec fn sections(langs: Seq<LanguageLsp>, order: Seq<usize>, running: Seq<RunningLspInfo>) -> Seq<char>
    decreases order.len(),
{
    if order.len() == 0 {
        Seq::empty()
    } else {
        sections(langs, order.drop_last(), running) + lang_section(langs[order.last() as int], running)
    }
}

/// The note shown when no language is listed.
pub open spec fn empty_note(langs: Seq<LanguageLsp>, all: bool, buffer_lang: Option<usize>) -> Seq<char> {
    if all {
        "(no languages have an LSP configured)\n"@
    } else {
        match buffer_lang {
            None => "(no language detected for this buffer — try :lsp all)\n"@,
            Some(i) => "("@ + langs[i as int].name@ + ": no LSP configured — try :lsp all)\n"@,
        }
    }
}

// ────────────────────────────────────────────────────────────────────────
// Orphans
// ────────────────────────────────────────────────────────────────────────

/// Where the first `::` at or after `i` starts.
pub open spec fn sep_from(k: Seq<char>, i: int) -> Option<int>
    decreases k.len() - i,
{
    if i < 0 || i + 1 >= k.len() {
        None
    } else if k[i] == ':' && k[i + 1] == ':' {
        Some(i)
    } else {
        sep_from(k, i + 1)
    }
}

/// Whether some configured language named `lang` has a server named
/// `server`.
pub open spec fn configured(langs: Seq<LanguageLsp>, lang: Seq<char>, server: Seq<char>) -> bool {
    exists|l: int, c: int|
        0 <= l < langs.len() && langs[l].name@ == lang && 0 <= c < langs[l].lsp@.len() && (
        #[trigger] langs[l].lsp@[c]).name@ == server
}

/// A running client whose key names no configured server: the key has no
/// `::`, or what precedes its first `::` and what follows it name no
/// configured language and server.
pub open spec fn is_orphan(langs: Seq<LanguageLsp>, key: Seq<char>) -> bool {
    match sep_from(key, 0) {
        None => true,
        Some(i) => !configured(langs, key.take(i), key.skip(i + 2)),
    }
}

/// The indices below `n` of the orphaned running clients.
pub open spec fn orphans_in(langs: Seq<LanguageLsp>, running: Seq<RunningLspInfo>, n: int) -> Seq<usize>
    decreases n,
{
    if n <= 0 {
        Seq::empty()
    } else {
        orphans_in(langs, running, n - 1) + if is_orphan(langs, running[n - 1].client_key@) {
            seq![(n - 1) as usize]
        } else {
            Seq::empty()
        }
    }
}

/// Running clients ordered by key.
pub open spec fn by_key(running: Seq<RunningLspInfo>) -> spec_fn(usize, usize) -> bool {
    |a: usize, b: usize| lex_le(running[a as int].client_key@, running[b as int].client_key@)
}

/// The orphaned running clients, by key.
pub open spec fn orphan_order(langs: Seq<LanguageLsp>, running: Seq<RunningLspInfo>) -> Seq<usize> {
    sort_by(orphans_in(langs, running, running.len() as int), by_key(running))
}

/// The rows of the given running clients.
pub open spec fn orphan_rows(running: Seq<RunningLspInfo>, order: Seq<usize>) -> Seq<char>
    decreases order.len(),
{
    if order.len() == 0 {
        Seq::empty()
    } else {
        orphan_rows(running, order.drop_last()) + orphan_row(running[order.last() as int])
    }
}

/// The orphan section: only in the full listing, and only when there are
/// orphans.
pub open spec fn orphan_section(langs: Seq<LanguageLsp>, running: Seq<RunningLspInfo>, all: bool) -> Seq<char> {
    let o = orphan_order(langs, running);
    if all && o.len() > 0 {
        "\norphan (running, not in current config)\n"@ + orphan_rows(running, o)
    } else {
        Seq::empty()
    }
}

fn sep_index(k: &String) -> (r: Option<usize>)
    ensures
        match r {
            Some(i) => sep_from(k@, 0) == Some(i as int) && i + 1 < k@.len(),
            None => sep_from(k@, 0) is None,
        },
{
    let cs = crate::text::str_chars(k.as_str());
    let mut i: usize = 0;
    while i < cs.len() && cs.len() - i > 1
        invariant
            cs@ == k@,
            i <= cs@.len(),
            sep_from(k@, 0) == sep_from(k@, i as int),
        decreases cs@.len() - i,
    {
        if cs[i] == ':' && cs[i + 1] == ':' {
            return Some(i);
        }
        i = i + 1;
    }
    None
}

fn configured_exec(langs: &[LanguageLsp], lang: &String, server: &String) -> (r: bool)
    ensures
        r == configured(langs@, lang@, server@),
{
    let mut l: usize = 0;
    while l < langs.len()
        invariant
            l <= langs@.len(),
            forall|a: int, c: int|
                0 <= a < l && langs@[a].name@ == lang@ && 0 <= c < langs@[a].lsp@.len() ==> (
                #[trigger] langs@[a].lsp@[c]).name@ != server@,
        decreases langs@.len() - l,
    {
        if langs[l].name == *lang {
            let mut c: usize = 0;
            while c < langs[l].lsp.len()
                invariant
                    l < langs@.len(),
                    langs@[l as int].name@ == lang@,
                    c <= langs@[l as int].lsp@.len(),
                    forall|b: int| 0 <= b < c ==> (#[trigger] langs@[l as int].lsp@[b]).name@ != server@,
                decreases langs@[l as int].lsp@.len() - c,
            {
                if langs[l].lsp[c].name == *server {
                    assert(langs@[l as int].lsp@[c as int].name@ == server@);
                    return true;
                }
                c = c + 1;
            }
        }
        l = l + 1;
    }
    false
}

#[verifier::spinoff_prover]
fn orphan_indices(langs: &[LanguageLsp], running: &[RunningLspInfo]) -> (r: Vec<usize>)
    ensures
        r@ == orphans_in(langs@, running@, running@.len() as int),
        forall|k: int| 0 <= k < r@.len() ==> r@[k] < running@.len(),
{
    let mut out: Vec<usize> = Vec::new();
    let mut i: usize = 0;
    while i < running.len()
        invariant
            i <= running@.len(),
            out@ == orphans_in(langs@, running@, i as int),
            forall|k: int| 0 <= k < out@.len() ==> out@[k] < running@.len(),
        decreases running@.len() - i,
    {
        let key = &running[i].client_key;
        let orphan = match sep_index(key) {
            None => true,
            Some(p) => {
                let cs = crate::text::str_chars(key.as_str());
                assert(cs@.len() == key@.len());
                let n: usize = cs.len();
                assert(p + 2 <= n);
                let q: usize = p + 2;
                let lang = crate::text::string_from_chars(&cs.as_slice()[0..p]);
                let server = crate::text::string_from_chars(&cs.as_slice()[q..cs.len()]);
                proof {
                    assert(lang@ =~= key@.take(p as int));
                    assert(server@ =~= key@.skip(q as int));
                }
                !configured_exec(langs, &lang, &server)
            },
        };
        if orphan {
            out.push(i);
        } else {
            assert(out@ =~= orphans_in(langs@, running@, i as int) + Seq::<usize>::empty());
        }
        i = i + 1;
    }
    out
}

fn order_by_key(running: &[RunningLspInfo], idx: Vec<usize>) -> (r: Vec<usize>)
    requires
        forall|k: int| 0 <= k < idx@.len() ==> idx@[k] < running@.len(),
    ensures
        r@ == sort_by(idx@, by_key(running@)),
{
    let ghost le = by_key(running@);
    let mut out: Vec<usize> = Vec::new();
    let mut i: usize = 0;
    while i < idx.len()
        invariant
            i <= idx@.len(),
            le == by_key(running@),
            forall|k: int| 0 <= k < idx@.len() ==> idx@[k] < running@.len(),
            forall|k: int| 0 <= k < out@.len() ==> out@[k] < running@.len(),
            out@ == sort_by(idx@.take(i as int), le),
        decreases idx@.len() - i,
    {
        let x = idx[i];
        let mut j: usize = out.len();
        while j > 0 && lex_less(&running[x].client_key, &running[out[j - 1]].client_key)
            invariant
                j <= out@.len(),
                x < running@.len(),
                le == by_key(running@),
                forall|k: int| 0 <= k < out@.len() ==> out@[k] < running@.len(),
                forall|m: int| j <= m < out@.len() ==> !le(#[trigger] out@[m], x),
            decreases j,
        {
            j = j - 1;
        }
        proof {
            lemma_insert_by_at(out@, x, le, j as int);
            assert(idx@.take(i + 1).drop_last() =~= idx@.take(i as int));
            assert(idx@.take(i + 1).last() == x);
        }
        out.insert(j, x);
        i = i + 1;
    }
    assert(idx@.take(idx@.len() as int) =~= idx@);
    out
}

// ────────────────────────────────────────────────────────────────────────
// Copilot and the whole listing
// ────────────────────────────────────────────────────────────────────────

/// How Copilot's sign-in state reads.
pub open spec fn auth_text(a: CopilotAuthState) -> Seq<char> {
    match a {
        CopilotAuthState::Unknown => "checking…"@,
        CopilotAuthState::SignedIn { user } => "signed in as "@ + match user {
            Some(u) => u@,
            None => "(unknown user)"@,
        },
        CopilotAuthState::NotSignedIn => "not signed in (:copilot signin)"@,
        CopilotAuthState::NotAuthorized { reason } => "not authorized ("@ + match reason {
            Some(r) => r@,
            None => "no entitlement"@,
        } + ")"@,
    }
}

/// The Copilot section.
pub open spec fn copilot_section(c: Option<CopilotProcess>, a: CopilotAuthState) -> Seq<char> {
    "\ncopilot\n"@ + match c {
        Some(p) => "  ● "@ + pad_right("copilot-language-server"@, NAME_WIDTH as nat) + " running  pid "@ + decimal(
            p.pid as nat,
        ) + "  "@ + decimal(p.open_count as nat) + " file"@ + plural(p.open_count as nat) + "  ("@ + auth_text(a)
            + ")\n"@,
        None => "  ○ "@ + pad_right("copilot-language-server"@, NAME_WIDTH as nat)
            + " stopped  (copilot-language-server)\n"@,
    }
}

/// The whole listing: a note when no language is listed, each listed
/// language's section by name, the orphans (full listing only), then
/// Copilot.
pub open spec fn lsp_status(
    langs: Seq<LanguageLsp>,
    buffer_lang: Option<usize>,
    all: bool,
    running: Seq<RunningLspInfo>,
    copilot: Option<CopilotProcess>,
    auth: CopilotAuthState,
) -> Seq<char> {
    let order = language_order(langs, all, buffer_lang);
    (if order.len() == 0 { empty_note(langs, all, buffer_lang) } else { Seq::empty() }) + sections(langs, order, running)
        + orphan_section(langs, running, all) + copilot_section(copilot, auth)
}

fn push_auth_text(s: &mut String, a: &CopilotAuthState)
    ensures
        final(s)@ == old(s)@ + auth_text(*a),
{
    match a {
        CopilotAuthState::Unknown => push_str(s, "checking…"),
        CopilotAuthState::SignedIn { user } => {
            push_str(s, "signed in as ");
            match user {
                Some(u) => push_str(s, u.as_str()),
                None => push_str(s, "(unknown user)"),
            }
            assert(final(s)@ =~= old(s)@ + auth_text(*a));
        },
        CopilotAuthState::NotSignedIn => push_str(s, "not signed in (:copilot signin)"),
        CopilotAuthState::NotAuthorized { reason } => {
            push_str(s, "not authorized (");
            match reason {
                Some(r) => push_str(s, r.as_str()),
                None => push_str(s, "no entitlement"),
            }
            push_str(s, ")");
            assert(final(s)@ =~= old(s)@ + auth_text(*a));
        },
    }
}

fn push_note(s: &mut String, languages: &[LanguageLsp], all: bool, buffer_lang: Option<usize>)
    requires
        buffer_lang matches Some(i) ==> i < languages@.len(),
    ensures
        final(s)@ == old(s)@ + empty_note(languages@, all, buffer_lang),
{
    if all {
        push_str(s, "(no languages have an LSP configured)\n");
    } else {
        match buffer_lang {
            None => push_str(s, "(no language detected for this buffer — try :lsp all)\n"),
            Some(i) => {
                push_str(s, "(");
                push_str(s, languages[i].name.as_str());
                push_str(s, ": no LSP configured — try :lsp all)\n");
                assert(final(s)@ =~= old(s)@ + empty_note(languages@, all, buffer_lang));
            },
        }
    }
}

fn push_sections(s: &mut String, languages: &[LanguageLsp], order: &Vec<usize>, running: &[RunningLspInfo])
    requires
        forall|m: int| 0 <= m < order@.len() ==> order@[m] < languages@.len(),
    ensures
        final(s)@ == old(s)@ + sections(languages@, order@, running@),
{
    let ghost head = s@;
    let mut k: usize = 0;
    while k < order.len()
        invariant
            k <= order@.len(),
            forall|m: int| 0 <= m < order@.len() ==> order@[m] < languages@.len(),
            s@ == head + sections(languages@, order@.take(k as int), running@),
        decreases order@.len() - k,
    {
        push_lang_section(s, &languages[order[k]], running);
        assert(order@.take(k + 1).drop_last() =~= order@.take(k as int));
        assert(order@.take(k + 1).last() == order@[k as int]);
        assert(s@ =~= head + sections(languages@, order@.take(k + 1), running@));
        k = k + 1;
    }
    assert(order@.take(order@.len() as int) =~= order@);
}

fn push_orphan_section(s: &mut String, languages: &[LanguageLsp], running: &[RunningLspInfo], all: bool)
    ensures
        final(s)@ == old(s)@ + orphan_section(languages@, running@, all),
{
    let orphans = order_by_key(running, orphan_indices(languages, running));
    assert(forall|m: int| 0 <= m < orphans@.len() ==> orphans@[m] < running@.len()) by {
        lemma_sort_by_elems(orphans_in(languages@, running@, running@.len() as int), by_key(running@), running@.len());
    }
    if all && orphans.len() > 0 {
        push_str(s, "\norphan (running, not in current config)\n");
        let ghost start = s@;
        let mut j: usize = 0;
        while j < orphans.len()
            invariant
                j <= orphans@.len(),
                forall|m: int| 0 <= m < orphans@.len() ==> orphans@[m] < running@.len(),
                s@ == start + orphan_rows(running@, orphans@.take(j as int)),
            decreases orphans@.len() - j,
        {
            push_orphan_row(s, &running[orphans[j]]);
            assert(orphans@.take(j + 1).drop_last() =~= orphans@.take(j as int));
            assert(orphans@.take(j + 1).last() == orphans@[j as int]);
            assert(s@ =~= start + orphan_rows(running@, orphans@.take(j + 1)));
            j = j + 1;
        }
        assert(orphans@.take(orphans@.len() as int) =~= orphans@);
        assert(final(s)@ =~= old(s)@ + orphan_section(languages@, running@, all));
    } else {
        assert(old(s)@ + orphan_section(languages@, running@, all) =~= old(s)@);
    }
}

fn push_copilot_section(s: &mut String, copilot: Option<CopilotProcess>, auth: &CopilotAuthState)
    ensures
        final(s)@ == old(s)@ + copilot_section(copilot, *auth),
{
    push_str(s, "\ncopilot\n");
    match copilot {
        Some(p) => {
            push_str(s, "  ● ");
            push_padded(s, "copilot-language-server", NAME_WIDTH);
            push_str(s, " running  pid ");
            push_decimal(s, p.pid as u64);
            push_str(s, "  ");
            push_decimal(s, p.open_count as u64);
            push_str(s, " file");
            push_plural(s, p.open_count);
            push_str(s, "  (");
            push_auth_text(s, auth);
            push_str(s, ")\n");
        },
        None => {
            push_str(s, "  ○ ");
            push_padded(s, "copilot-language-server", NAME_WIDTH);
            push_str(s, " stopped  (copilot-language-server)\n");
        },
    }
    assert(final(s)@ =~= old(s)@ + copilot_section(copilot, *auth));
}

/// Render the `:lsp` listing for the configured `languages` (the
/// buffer's language, when known, by its index), the running clients,
/// and Copilot's process and sign-in state.
pub fn lsp_status_text(
    languages: &[LanguageLsp],
    buffer_lang: Option<usize>,
    all: bool,
    running: &[RunningLspInfo],
    copilot: Option<CopilotProcess>,
    auth: &CopilotAuthState,
) -> (r: String)
    requires
        buffer_lang matches Some(i) ==> i < languages@.len(),
    ensures
        r@ == lsp_status(languages@, buffer_lang, all, running@, copilot, *auth),
{
    let scope = languages_in_scope(languages, all, buffer_lang);
    let order = order_languages(languages, scope);
    assert(forall|k: int| 0 <= k < order@.len() ==> order@[k] < languages@.len()) by {
        lemma_sort_by_elems(in_scope(languages@, all, buffer_lang), by_name(languages@), languages@.len());
    }
    let mut s = String::new();
    if order.len() == 0 {
        push_note(&mut s, languages, all, buffer_lang);
    }
    let ghost head = s@;
    push_sections(&mut s, languages, &order, running);
    push_orphan_section(&mut s, languages, running, all);
    push_copilot_section(&mut s, copilot, auth);
    proof {
        let note = if order@.len() == 0 { empty_note(languages@, all, buffer_lang) } else { Seq::<char>::empty() };
        assert(head =~= note);
        assert(s@ =~= lsp_status(languages@, buffer_lang, all, running@, copilot, *auth));
    }
    s
}

/// Sorting keeps every element within a bound every input element is
/// within.
proof fn lemma_sort_by_elems(s: Seq<usize>, le: spec_fn(usize, usize) -> bool, bound: nat)
    requires
        forall|k: int| 0 <= k < s.len() ==> s[k] < bound,
    ensures
        forall|k: int| 0 <= k < sort_by(s, le).len() ==> sort_by(s, le)[k] < bound,
    decreases s.len(),
{
    if s.len() > 0 {
        let init = s.drop_last();
        assert forall|k: int| 0 <= k < init.len() implies init[k] < bound by {
            assert(init[k] == s[k]);
        }
        lemma_sort_by_elems(init, le, bound);
        lemma_insert_by_bound(sort_by(init, le), s.last(), le, bound);
    }
}

proof fn lemma_insert_by_bound(s: Seq<usize>, x: usize, le: spec_fn(usize, usize) -> bool, bound: nat)
    requires
        forall|k: int| 0 <= k < s.len() ==> s[k] < bound,
        x < bound,
    ensures
        forall|k: int| 0 <= k < insert_by(s, x, le).len() ==> insert_by(s, x, le)[k] < bound,
    decreases s.len(),
{
    if s.len() > 0 && !le(s.last(), x) {
        let init = s.drop_last();
        assert forall|k: int| 0 <= k < init.len() implies init[k] < bound by {
            assert(init[k] == s[k]);
        }
        lemma_insert_by_bound(init, x, le, bound);
        let r = insert_by(s, x, le);
        let ri = insert_by(init, x, le);
        assert(r == ri.push(s.last()));
        assert forall|k: int| 0 <= k < r.len() implies r[k] < bound by {
            if k < ri.len() {
                assert(r[k] == ri[k]);
            } else {
                assert(r[k] == s[s.len() - 1]);
            }
        }
    } else if s.len() > 0 {
        assert(s.push(x) == insert_by(s, x, le));
    }
}

/// The listed languages come in name order, and the orphans in key
/// order, none lost or repeated.
pub proof fn law_status_in_name_order(langs: Seq<LanguageLsp>, all: bool, buffer_lang: Option<usize>, running: Seq<RunningLspInfo>)
    ensures
        sorted_by(language_order(langs, all, buffer_lang), by_name(langs)),
        language_order(langs, all, buffer_lang).to_multiset() == in_scope(langs, all, buffer_lang).to_multiset(),
        sorted_by(orphan_order(langs, running), by_key(running)),
        orphan_order(langs, running).to_multiset() == orphans_in(langs, running, running.len() as int).to_multiset(),
{
    lemma_lex_order();
    let lo = lex_order();
    let bn = by_name(langs);
    assert forall|a: usize, b: usize| #[trigger] bn(a, b) || bn(b, a) by {
        assert(lo(langs[a as int].name@, langs[b as int].name@) || lo(langs[b as int].name@, langs[a as int].name@));
    }
    assert forall|a: usize, b: usize, c: usize| #[trigger] bn(a, b) && #[trigger] bn(b, c) implies bn(a, c) by {
        assert(lo(langs[a as int].name@, langs[b as int].name@));
        assert(lo(langs[b as int].name@, langs[c as int].name@));
    }
    law_sort_by_sorts(in_scope(langs, all, buffer_lang), bn);
    let bk = by_key(running);
    assert forall|a: usize, b: usize| #[trigger] bk(a, b) || bk(b, a) by {
        assert(lo(running[a as int].client_key@, running[b as int].client_key@) || lo(
            running[b as int].client_key@,
            running[a as int].client_key@,
        ));
    }
    assert forall|a: usize, b: usize, c: usize| #[trigger] bk(a, b) && #[trigger] bk(b, c) implies bk(a, c) by {
        assert(lo(running[a as int].client_key@, running[b as int].client_key@));
        assert(lo(running[b as int].client_key@, running[c as int].client_key@));
    }
    law_sort_by_sorts(orphans_in(langs, running, running.len() as int), bk);
}

} // verus!
