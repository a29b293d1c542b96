//! Bookkeeping for the language-server clients attached to the editor.
//!
//! The coordinator records which clients are running (by `client_key`,
//! see [`crate::commands::client_key`]), which documents each of them
//! holds open, the diagnostics every client published per document, and
//! which document (with which clients) is current. It never talks to a
//! server itself: every method that the protocol would follow with a
//! notification or a request says in its result which clients to address,
//! and the caller does the wire work.

use vstd::prelude::*;

use crate::cursor::Cursor;
use crate::mux::{json_view, JsonValue, JsonView};
use crate::picker::Severity;
use crate::text::str_views;

verus! {

/// What an outstanding request was for.
#[derive(Debug, Clone, Copy, PartialEq, Eq, Structural)]
pub enum LspRequestKind {
    Jump,
    References,
    Rename,
    CodeAction,
    CodeActionResolve,
    Hover,
    Completion,
    CompletionResolve,
    SignatureHelp,
}

/// A position in a document: 0-based line and character.
#[derive(Debug, Clone, Copy, PartialEq, Eq, Structural)]
pub struct Position {
    pub line: u32,
    pub character: u32,
}

/// A span in a document.
#[derive(Debug, Clone, Copy, PartialEq, Eq, Structural)]
pub struct Range {
    pub start: Position,
    pub end: Position,
}

/// One diagnostic a server published for a document.
#[derive(Debug)]
pub struct Diagnostic {
    pub range: Range,
    pub severity: Severity,
    pub message: String,
    pub source: Option<String>,
}

impl Clone for Diagnostic {
    fn clone(&self) -> (r: Diagnostic)
        ensures
            r == *self,
    {
        let source = match &self.source {
            Some(s) => Some(s.clone()),
            None => None,
        };
        Diagnostic { range: self.range, severity: self.severity, message: self.message.clone(), source }
    }
}

/// What the coordinator knows of a running client: what it reported
/// when it was started.
#[derive(Debug)]
pub struct LspClientInfo {
    pub pid: u32,
    pub root_uri: String,
    pub language_id: String,
    /// Characters that make the server want a completion request.
    pub completion_triggers: Vec<String>,
    /// Characters that make the server want a signature-help request.
    pub signature_help_triggers: Vec<String>,
}

/// One row of the `:lsp` status listing.
#[derive(Debug)]
pub struct RunningLspInfo {
    pub client_key: String,
    pub pid: u32,
    pub root_uri: String,
    pub language_id: String,
    /// How many documents the client currently holds open.
    pub open_count: usize,
}

/// Diagnostics one client published for one document (never empty).
struct DiagEntry {
    uri: String,
    client: String,
    items: Vec<Diagnostic>,
}

/// The value of a stored diagnostics slice.
pub struct DiagSlice {
    pub uri: Seq<char>,
    pub client: Seq<char>,
    pub items: Seq<Diagnostic>,
}

/// The state of the coordinator.
pub struct LspView {
    /// Running clients by key, in the order they were attached.
    pub clients: Seq<(Seq<char>, LspClientInfo)>,
    /// Every document some client holds open, with those clients' keys.
    pub open_uris: Seq<(Seq<char>, Seq<Seq<char>>)>,
    /// Diagnostics per (document, client).
    pub diagnostics: Seq<DiagSlice>,
    pub current_uri: Option<Seq<char>>,
    pub current_language: Option<Seq<char>>,
    /// Clients attached to the current document.
    pub current_clients: Seq<Seq<char>>,
    pub last_synced_version: u64,
    pub startup_cwd: Seq<char>,
    /// Outstanding requests.
    pub pending: Seq<PendingView>,
    /// Requests fanned out to several clients: group id and how many
    /// answers are still outstanding.
    pub groups: Seq<(u64, usize)>,
    /// The id the next group gets.
    pub next_group_id: u64,
}

/// An outstanding request: the client it went to, the id that client
/// gave it, the group it belongs to and what it was for.
pub struct PendingView {
    pub client: Seq<char>,
    pub id: u64,
    pub group: u64,
    pub kind: LspRequestKind,
}

struct PendingEntry {
    client: String,
    id: u64,
    group: u64,
    kind: LspRequestKind,
}

/// Whether some entry of `s` is keyed `k`.
pub open spec fn has_key<V>(s: Seq<(Seq<char>, V)>, k: Seq<char>) -> bool {
    exists|i: int| 0 <= i < s.len() && s[i].0 == k
}

/// The value keyed `k` (meaningful where [`has_key`] holds).
pub open spec fn value_of<V>(s: Seq<(Seq<char>, V)>, k: Seq<char>) -> V {
    s[choose|i: int| 0 <= i < s.len() && s[i].0 == k].1
}

/// No two entries share a key.
pub open spec fn keys_distinct<V>(s: Seq<(Seq<char>, V)>) -> bool {
    forall|i: int, j: int| 0 <= i < j < s.len() ==> s[i].0 != s[j].0
}

/// No value occurs twice.
pub open spec fn all_distinct<T>(s: Seq<T>) -> bool {
    forall|i: int, j: int| 0 <= i < j < s.len() ==> s[i] != s[j]
}

/// The invariant of the coordinator's state.
pub open spec fn lsp_wf(v: LspView) -> bool {
    &&& keys_distinct(v.clients)
    &&& keys_distinct(v.open_uris)
    &&& forall|i: int| 0 <= i < v.open_uris.len() ==> #[trigger] v.open_uris[i].1.len() > 0
        && all_distinct(v.open_uris[i].1)
    &&& forall|i: int, j: int| 0 <= i < j < v.diagnostics.len() ==>
        !(v.diagnostics[i].uri == v.diagnostics[j].uri && v.diagnostics[i].client == v.diagnostics[j].client)
    &&& forall|i: int| 0 <= i < v.diagnostics.len() ==> #[trigger] v.diagnostics[i].items.len() > 0
    &&& all_distinct(v.current_clients)
    &&& forall|i: int, j: int| 0 <= i < j < v.pending.len() ==>
        !(v.pending[i].client == v.pending[j].client && v.pending[i].id == v.pending[j].id)
    &&& forall|i: int, j: int| 0 <= i < j < v.groups.len() ==> v.groups[i].0 != v.groups[j].0
    &&& forall|i: int| 0 <= i < v.groups.len() ==> #[trigger] v.groups[i].1 > 0
}

/// The state once client `k` is among the current document's clients.
pub open spec fn with_current(v: LspView, k: Seq<char>) -> LspView {
    LspView {
        current_clients: if v.current_clients.contains(k) { v.current_clients } else { v.current_clients.push(k) },
        ..v
    }
}

/// Whether `c` is one of the trigger strings `ts` (each a one-char string).
pub open spec fn triggers_contain(ts: Seq<Seq<char>>, c: char) -> bool {
    exists|j: int| 0 <= j < ts.len() && ts[j] == seq![c]
}

/// How many open documents list client `k`.
pub open spec fn open_count(uris: Seq<(Seq<char>, Seq<Seq<char>>)>, k: Seq<char>) -> nat
    decreases uris.len(),
{
    if uris.len() == 0 {
        0
    } else {
        open_count(uris.drop_last(), k) + if uris.last().1.contains(k) { 1nat } else { 0nat }
    }
}

/// Whether a client attached to the current document declared `c` as a
/// completion trigger (`completion`) or a signature-help trigger.
pub open spec fn current_trigger(v: LspView, c: char, completion: bool) -> bool {
    exists|i: int|
        0 <= i < v.current_clients.len() && has_key(v.clients, #[trigger] v.current_clients[i])
            && triggers_contain(
            str_views(
                if completion {
                    value_of(v.clients, v.current_clients[i]).completion_triggers@
                } else {
                    value_of(v.clients, v.current_clients[i]).signature_help_triggers@
                },
            ),
            c,
        )
}

/// With distinct keys, the value keyed `s[i].0` is `s[i].1`.
pub proof fn lemma_value_of<V>(s: Seq<(Seq<char>, V)>, i: int)
    requires
        keys_distinct(s),
        0 <= i < s.len(),
    ensures
        has_key(s, s[i].0),
        value_of(s, s[i].0) == s[i].1,
{
    let j = choose|j: int| 0 <= j < s.len() && s[j].0 == s[i].0;
    if j < i {
        assert(s[j].0 != s[i].0);
    } else if j > i {
        assert(s[i].0 != s[j].0);
    }
}

/// Owns the language-server bookkeeping.
pub struct LspCoordinator {
    clients: Vec<(String, LspClientInfo)>,
    open_uris: Vec<(String, Vec<String>)>,
    diagnostics: Vec<DiagEntry>,
    current_uri: Option<String>,
    current_language: Option<String>,
    current_clients: Vec<String>,
    last_synced_version: u64,
    startup_cwd: String,
    pending: Vec<PendingEntry>,
    groups: Vec<(u64, usize)>,
    next_group_id: u64,
}

spec fn pending_entries(v: Seq<PendingEntry>) -> Seq<PendingView> {
    v.map_values(|e: PendingEntry| PendingView { client: e.client@, id: e.id, group: e.group, kind: e.kind })
}

spec fn opt_view(o: Option<String>) -> Option<Seq<char>> {
    match o {
        Some(s) => Some(s@),
        None => None,
    }
}

spec fn client_entries(v: Seq<(String, LspClientInfo)>) -> Seq<(Seq<char>, LspClientInfo)> {
    v.map_values(|e: (String, LspClientInfo)| (e.0@, e.1))
}

spec fn uri_entries(v: Seq<(String, Vec<String>)>) -> Seq<(Seq<char>, Seq<Seq<char>>)> {
    v.map_values(|e: (String, Vec<String>)| (e.0@, str_views(e.1@)))
}

spec fn diag_entries(v: Seq<DiagEntry>) -> Seq<DiagSlice> {
    v.map_values(|e: DiagEntry| DiagSlice { uri: e.uri@, client: e.client@, items: e.items@ })
}

impl View for LspCoordinator {
    type V = LspView;

    closed spec fn view(&self) -> LspView {
        LspView {
            clients: client_entries(self.clients@),
            open_uris: uri_entries(self.open_uris@),
            diagnostics: diag_entries(self.diagnostics@),
            current_uri: opt_view(self.current_uri),
            current_language: opt_view(self.current_language),
            current_clients: str_views(self.current_clients@),
            last_synced_version: self.last_synced_version,
            startup_cwd: self.startup_cwd@,
            pending: pending_entries(self.pending@),
            groups: self.groups@,
            next_group_id: self.next_group_id,
        }
    }
}

/// Index of the first entry keyed `k`.
fn find_key<V>(s: &Vec<(String, V)>, k: &String) -> (r: Option<usize>)
    ensures
        match r {
            Some(i) => i < s@.len() && s@[i as int].0@ == k@,
            None => forall|j: int| 0 <= j < s@.len() ==> s@[j].0@ != k@,
        },
{
    let mut i: usize = 0;
    while i < s.len()
        invariant
            i <= s@.len(),
            forall|j: int| 0 <= j < i ==> s@[j].0@ != k@,
        decreases s@.len() - i,
    {
        if s[i].0 == *k {
            return Some(i);
        }
        i = i + 1;
    }
    None
}

/// Whether `k` is among `v`.
fn contains_string(v: &Vec<String>, k: &String) -> (r: bool)
    ensures
        r == str_views(v@).contains(k@),
{
    let mut i: usize = 0;
    while i < v.len()
        invariant
            i <= v@.len(),
            forall|j: int| 0 <= j < i ==> v@[j]@ != k@,
        decreases v@.len() - i,
    {
        if v[i] == *k {
            assert(str_views(v@)[i as int] == k@);
            return true;
        }
        i = i + 1;
    }
    proof {
        if str_views(v@).contains(k@) {
            let j = choose|j: int| 0 <= j < str_views(v@).len() && str_views(v@)[j] == k@;
            assert(v@[j]@ == k@);
        }
    }
    false
}

/// Whether one of the trigger strings `ts` is exactly `c`.
fn trigger_listed(ts: &Vec<String>, c: char) -> (r: bool)
    ensures
        r == triggers_contain(str_views(ts@), c),
{
    let mut needle = String::new();
    crate::text::string_push(&mut needle, c);
    assert(needle@ =~= seq![c]);
    let r = contains_string(ts, &needle);
    proof {
        if r {
            let j = choose|j: int| 0 <= j < str_views(ts@).len() && str_views(ts@)[j] == needle@;
            assert(str_views(ts@)[j] == seq![c]);
        }
        if triggers_contain(str_views(ts@), c) {
            let j = choose|j: int| 0 <= j < str_views(ts@).len() && str_views(ts@)[j] == seq![c];
            assert(str_views(ts@)[j] == needle@);
        }
    }
    r
}

impl LspCoordinator {
    /// The invariant every coordinator keeps.
    pub open spec fn wf(&self) -> bool {
        lsp_wf(self@)
    }

    /// A coordinator with no clients and no current document.
    pub fn new(startup_cwd: String) -> (r: LspCoordinator)
        ensures
            r.wf(),
            r@.clients.len() == 0,
            r@.open_uris.len() == 0,
            r@.diagnostics.len() == 0,
            r@.current_uri is None,
            r@.current_language is None,
            r@.current_clients.len() == 0,
            r@.last_synced_version == 0,
            r@.startup_cwd == startup_cwd@,
            r@.pending.len() == 0,
            r@.groups.len() == 0,
            r@.next_group_id == 0,
            groups_consistent(r@),
    {
        let r = LspCoordinator {
            clients: Vec::new(),
            open_uris: Vec::new(),
            diagnostics: Vec::new(),
            current_uri: None,
            current_language: None,
            current_clients: Vec::new(),
            last_synced_version: 0,
            startup_cwd,
            pending: Vec::new(),
            groups: Vec::new(),
            next_group_id: 0,
        };
        assert(r@.pending =~= Seq::empty());
        assert(r@.clients =~= Seq::empty());
        assert(r@.open_uris =~= Seq::empty());
        assert(r@.diagnostics =~= Seq::empty());
        assert(r@.current_clients =~= Seq::empty());
        r
    }

    /// The buffer version last sent to the servers.
    pub fn last_synced_version(&self) -> (r: u64)
        ensures
            r == self@.last_synced_version,
    {
        self.last_synced_version
    }

    /// Record the buffer version last sent to the servers.
    pub fn set_last_synced_version(&mut self, v: u64)
        ensures
            final(self)@ == (LspView { last_synced_version: v, ..old(self)@ }),
    {
        self.last_synced_version = v;
    }

    /// Whether some client is attached to the current document.
    pub fn has_lsp(&self) -> (r: bool)
        ensures
            r == (self@.current_uri is Some && self@.current_clients.len() > 0),
    {
        self.current_uri.is_some() && self.current_clients.len() > 0
    }

    /// The directory the editor was started in.
    pub fn startup_cwd(&self) -> (r: &str)
        ensures
            r@ == self@.startup_cwd,
    {
        self.startup_cwd.as_str()
    }

    /// The current document, if any.
    pub fn current_uri(&self) -> (r: Option<&str>)
        ensures
            match r {
                Some(u) => self@.current_uri == Some(u@),
                None => self@.current_uri is None,
            },
    {
        match &self.current_uri {
            Some(u) => Some(u.as_str()),
            None => None,
        }
    }

    /// Whether a client with this key is running.
    pub fn has_client(&self, client_key: &str) -> (r: bool)
        ensures
            r == has_key(self@.clients, client_key@),
    {
        let k = client_key.to_owned();
        let r = find_key(&self.clients, &k);
        proof {
            match r {
                Some(i) => {
                    assert(self@.clients[i as int].0 == client_key@);
                }
                None => {
                    assert forall|j: int| 0 <= j < self@.clients.len() implies self@.clients[j].0 != client_key@ by {
                        assert(self@.clients[j].0 == self.clients@[j].0@);
                    }
                }
            }
        }
        r.is_some()
    }

    fn any_current_trigger(&self, c: char, completion: bool) -> (r: bool)
        requires
            self.wf(),
        ensures
            r == current_trigger(self@, c, completion),
    {
        let mut i: usize = 0;
        while i < self.current_clients.len()
            invariant
                self.wf(),
                i <= self@.current_clients.len(),
                forall|m: int| 0 <= m < i ==> !(has_key(self@.clients, #[trigger] self@.current_clients[m])
                    && triggers_contain(
                    str_views(
                        if completion {
                            value_of(self@.clients, self@.current_clients[m]).completion_triggers@
                        } else {
                            value_of(self@.clients, self@.current_clients[m]).signature_help_triggers@
                        },
                    ),
                    c,
                )),
            decreases self@.current_clients.len() - i,
        {
            let key = &self.current_clients[i];
            assert(self@.current_clients[i as int] == key@);
            match find_key(&self.clients, key) {
                Some(p) => {
                    proof {
                        assert(self@.clients[p as int].0 == key@);
                        assert(self@.clients[p as int].1 == self.clients@[p as int].1);
                        lemma_value_of(self@.clients, p as int);
                    }
                    let info = &self.clients[p].1;
                    let hit = if completion {
                        trigger_listed(&info.completion_triggers, c)
                    } else {
                        trigger_listed(&info.signature_help_triggers, c)
                    };
                    if hit {
                        return true;
                    }
                }
                None => {
                    proof {
                        if has_key(self@.clients, key@) {
                            let j = choose|j: int| 0 <= j < self@.clients.len() && self@.clients[j].0 == key@;
                            assert(self.clients@[j].0@ == key@);
                        }
                    }
                }
            }
            i = i + 1;
        }
        false
    }

    /// Whether a client attached to the current document declared `c` as
    /// a completion trigger character.
    pub fn is_completion_trigger_char(&self, c: char) -> (r: bool)
        requires
            self.wf(),
        ensures
            r == current_trigger(self@, c, true),
    {
        self.any_current_trigger(c, true)
    }

    /// Whether a client attached to the current document declared `c` as
    /// a signature-help trigger character.
    pub fn is_signature_help_trigger_char(&self, c: char) -> (r: bool)
        requires
            self.wf(),
        ensures
            r == current_trigger(self@, c, false),
    {
        self.any_current_trigger(c, false)
    }

    /// Forget the current document without telling the servers: its
    /// clients keep it open (and keep publishing diagnostics for it).
    pub fn detach_current(&mut self)
        requires
            old(self).wf(),
        ensures
            final(self).wf(),
            final(self)@ == (LspView {
                current_uri: None,
                current_language: None,
                current_clients: Seq::empty(),
                ..old(self)@
            }),
    {
        self.current_uri = None;
        self.current_clients.clear();
        self.current_language = None;
        assert(self@.current_clients =~= Seq::empty());
    }

    /// Adopt a started client under `client_key`. Refused (`false`, and
    /// nothing changes) when a client with that key is already running.
    pub fn attach_client(&mut self, client_key: &str, client: LspClientInfo) -> (r: bool)
        requires
            old(self).wf(),
        ensures
            final(self).wf(),
            r == !has_key(old(self)@.clients, client_key@),
            final(self)@ == (LspView {
                clients: if r { old(self)@.clients.push((client_key@, client)) } else { old(self)@.clients },
                ..old(self)@
            }),
    {
        let k = client_key.to_owned();
        match find_key(&self.clients, &k) {
            Some(i) => {
                assert(self@.clients[i as int].0 == client_key@);
                false
            },
            None => {
                let ghost before = self@;
                proof {
                    assert forall|j: int| 0 <= j < before.clients.len() implies before.clients[j].0 != client_key@ by {
                        assert(before.clients[j].0 == self.clients@[j].0@);
                    }
                }
                self.clients.push((k, client));
                assert(self@.clients =~= before.clients.push((client_key@, client)));
                true
            },
        }
    }

    /// Count `client_key` among the clients of the current document
    /// (once: a key already there is not added again).
    pub fn add_current_client(&mut self, client_key: &str)
        requires
            old(self).wf(),
        ensures
            final(self).wf(),
            final(self)@ == with_current(old(self)@, client_key@),
    {
        let k = client_key.to_owned();
        if !contains_string(&self.current_clients, &k) {
            let ghost before = self@;
            self.current_clients.push(k);
            assert(self@.current_clients =~= before.current_clients.push(client_key@));
        }
    }

    /// One status row per running client, in the order they were attached.
    pub fn running_clients(&self) -> (r: Vec<RunningLspInfo>)
        requires
            self.wf(),
        ensures
            r@.len() == self@.clients.len(),
            forall|i: int| 0 <= i < r@.len() ==> {
                &&& (#[trigger] r@[i]).client_key@ == self@.clients[i].0
                &&& r@[i].pid == self@.clients[i].1.pid
                &&& r@[i].root_uri@ == self@.clients[i].1.root_uri@
                &&& r@[i].language_id@ == self@.clients[i].1.language_id@
                &&& r@[i].open_count == open_count(self@.open_uris, self@.clients[i].0)
            },
    {
        let mut out: Vec<RunningLspInfo> = Vec::new();
        let mut i: usize = 0;
        while i < self.clients.len()
            invariant
                i <= self@.clients.len(),
                out@.len() == i,
                forall|m: int| 0 <= m < i ==> {
                    &&& (#[trigger] out@[m]).client_key@ == self@.clients[m].0
                    &&& out@[m].pid == self@.clients[m].1.pid
                    &&& out@[m].root_uri@ == self@.clients[m].1.root_uri@
                    &&& out@[m].language_id@ == self@.clients[m].1.language_id@
                    &&& out@[m].open_count == open_count(self@.open_uris, self@.clients[m].0)
                },
            decreases self@.clients.len() - i,
        {
            let key = &self.clients[i].0;
            let info = &self.clients[i].1;
            let count = self.open_count_of(key);
            out.push(RunningLspInfo {
                client_key: key.clone(),
                pid: info.pid,
                root_uri: info.root_uri.clone(),
                language_id: info.language_id.clone(),
                open_count: count,
            });
            i = i + 1;
        }
        out
    }

    fn open_count_of(&self, key: &String) -> (r: usize)
        ensures
            r == open_count(self@.open_uris, key@),
    {
        let mut n: usize = 0;
        let mut i: usize = 0;
        while i < self.open_uris.len()
            invariant
                i <= self@.open_uris.len(),
                n == open_count(self@.open_uris.take(i as int), key@),
                n <= i,
            decreases self@.open_uris.len() - i,
        {
            let ghost pre = self@.open_uris.take(i as int);
            assert(self@.open_uris.take(i + 1).drop_last() =~= pre);
            assert(self@.open_uris[i as int].1 == str_views(self.open_uris@[i as int].1@));
            if contains_string(&self.open_uris[i].1, key) {
                n = n + 1;
            }
            i = i + 1;
        }
        assert(self@.open_uris.take(i as int) =~= self@.open_uris);
        n
    }
}

// ────────────────────────────────────────────────────────────────────────
// Ordering
// ────────────────────────────────────────────────────────────────────────

/// `x` placed into `s` after every element `le` puts at or before it
/// (one step of a stable insertion sort).
pub open spec fn insert_by<T>(s: Seq<T>, x: T, le: spec_fn(T, T) -> bool) -> Seq<T>
    decreases s.len(),
{
    if s.len() == 0 {
        seq![x]
    } else if le(s.last(), x) {
        s.push(x)
    } else {
        insert_by(s.drop_last(), x, le).push(s.last())
    }
}

/// `s` stably sorted by `le`: elements `le` cannot tell apart keep their
/// order.
pub open spec fn sort_by<T>(s: Seq<T>, le: spec_fn(T, T) -> bool) -> Seq<T>
    decreases s.len(),
{
    if s.len() == 0 {
        s
    } else {
        insert_by(sort_by(s.drop_last(), le), s.last(), le)
    }
}

/// Inserting at the slot found by scanning back from the end is
/// [`insert_by`].
pub proof fn lemma_insert_by_at<T>(s: Seq<T>, x: T, le: spec_fn(T, T) -> bool, p: int)
    requires
        0 <= p <= s.len(),
        forall|j: int| p <= j < s.len() ==> !le(#[trigger] s[j], x),
        p == 0 || le(s[p - 1], x),
    ensures
        insert_by(s, x, le) == s.insert(p, x),
    decreases s.len(),
{
    if s.len() == 0 {
        assert(s.insert(p, x) =~= seq![x]);
    } else if le(s.last(), x) {
        if p < s.len() {
            assert(!le(s[s.len() - 1], x));
        }
        assert(s.insert(p, x) =~= s.push(x));
    } else {
        let init = s.drop_last();
        assert(p < s.len());
        assert forall|j: int| p <= j < init.len() implies !le(#[trigger] init[j], x) by {
            assert(init[j] == s[j]);
        }
        if p > 0 {
            assert(init[p - 1] == s[p - 1]);
        }
        lemma_insert_by_at(init, x, le, p);
        assert(init.insert(p, x).push(s.last()) =~= s.insert(p, x));
    }
}

/// Where a diagnostic starts, as the `(line, character)` it is sorted by.
pub open spec fn diag_le(a: Diagnostic, b: Diagnostic) -> bool {
    a.range.start.line < b.range.start.line || (a.range.start.line == b.range.start.line
        && a.range.start.character <= b.range.start.character)
}

/// [`diag_le`] as a function value.
pub open spec fn diag_order() -> spec_fn(Diagnostic, Diagnostic) -> bool {
    |a: Diagnostic, b: Diagnostic| diag_le(a, b)
}

/// Diagnostics stably sorted by where they start.
pub open spec fn sort_diags(s: Seq<Diagnostic>) -> Seq<Diagnostic> {
    sort_by(s, diag_order())
}

fn diag_starts_no_later(a: &Diagnostic, b: &Diagnostic) -> (r: bool)
    ensures
        r == diag_le(*a, *b),
{
    a.range.start.line < b.range.start.line || (a.range.start.line == b.range.start.line
        && a.range.start.character <= b.range.start.character)
}

/// Copies of `v`'s diagnostics, stably sorted by where they start.
fn sorted_diags(v: &Vec<Diagnostic>) -> (r: Vec<Diagnostic>)
    ensures
        r@ == sort_diags(v@),
{
    let ghost le = diag_order();
    let mut out: Vec<Diagnostic> = Vec::new();
    let mut i: usize = 0;
    while i < v.len()
        invariant
            i <= v@.len(),
            le == diag_order(),
            out@ == sort_by(v@.take(i as int), le),
        decreases v@.len() - i,
    {
        let d = v[i].clone();
        let mut j: usize = out.len();
        while j > 0 && !diag_starts_no_later(&out[j - 1], &d)
            invariant
                j <= out@.len(),
                le == diag_order(),
                forall|m: int| j <= m < out@.len() ==> !le(#[trigger] out@[m], d),
            decreases j,
        {
            j = j - 1;
        }
        proof {
            lemma_insert_by_at(out@, d, le, j as int);
            assert(v@.take(i + 1).drop_last() =~= v@.take(i as int));
            assert(v@.take(i + 1).last() == d);
        }
        out.insert(j, d);
        i = i + 1;
    }
    assert(v@.take(v@.len() as int) =~= v@);
    out
}

/// Strict lexicographic order on char sequences (for strings, the order
/// of `str`'s `Ord`: UTF-8 keeps code-point order).
pub open spec fn lex_lt(a: Seq<char>, b: Seq<char>) -> bool
    decreases a.len(),
{
    if a.len() == 0 {
        b.len() > 0
    } else if b.len() == 0 {
        false
    } else if a[0] != b[0] {
        a[0] < b[0]
    } else {
        lex_lt(a.skip(1), b.skip(1))
    }
}

/// `a` sorts at or before `b`.
pub open spec fn lex_le(a: Seq<char>, b: Seq<char>) -> bool {
    !lex_lt(b, a)
}

pub(crate) fn lex_less(a: &String, b: &String) -> (r: bool)
    ensures
        r == lex_lt(a@, b@),
{
    let ca = crate::text::str_chars(a.as_str());
    let cb = crate::text::str_chars(b.as_str());
    let mut i: usize = 0;
    assert(a@.skip(0) =~= a@);
    assert(b@.skip(0) =~= b@);
    while i < ca.len() && i < cb.len()
        invariant
            i <= ca@.len(),
            i <= cb@.len(),
            ca@ == a@,
            cb@ == b@,
            lex_lt(a@, b@) == lex_lt(a@.skip(i as int), b@.skip(i as int)),
        decreases ca@.len() - i,
    {
        let x = ca[i];
        let y = cb[i];
        assert(a@.skip(i as int)[0] == x);
        assert(b@.skip(i as int)[0] == y);
        if x != y {
            return x < y;
        }
        assert(a@.skip(i as int).skip(1) =~= a@.skip(i + 1));
        assert(b@.skip(i as int).skip(1) =~= b@.skip(i + 1));
        i = i + 1;
    }
    i < cb.len()
}

// ────────────────────────────────────────────────────────────────────────
// Diagnostics
// ────────────────────────────────────────────────────────────────────────

/// Whether `client` published diagnostics for `uri`.
pub open spec fn has_slice(d: Seq<DiagSlice>, uri: Seq<char>, client: Seq<char>) -> bool {
    exists|i: int| 0 <= i < d.len() && d[i].uri == uri && d[i].client == client
}

/// Where the slice of `client` for `uri` is stored.
pub open spec fn slice_at(d: Seq<DiagSlice>, uri: Seq<char>, client: Seq<char>) -> int {
    choose|i: int| 0 <= i < d.len() && d[i].uri == uri && d[i].client == client
}

/// The stored diagnostics once `client` published `items` for `uri`: the
/// new list replaces that client's old one for the document, and an empty
/// list clears it.
pub open spec fn publish(d: Seq<DiagSlice>, uri: Seq<char>, client: Seq<char>, items: Seq<Diagnostic>) -> Seq<DiagSlice> {
    if has_slice(d, uri, client) {
        if items.len() == 0 {
            d.remove(slice_at(d, uri, client))
        } else {
            d.update(slice_at(d, uri, client), DiagSlice { uri, client, items })
        }
    } else if items.len() == 0 {
        d
    } else {
        d.push(DiagSlice { uri, client, items })
    }
}

/// Every client's diagnostics for `uri`, one client after another.
pub open spec fn merged(d: Seq<DiagSlice>, uri: Seq<char>) -> Seq<Diagnostic>
    decreases d.len(),
{
    if d.len() == 0 {
        Seq::empty()
    } else {
        merged(d.drop_last(), uri) + if d.last().uri == uri { d.last().items } else { Seq::empty() }
    }
}

/// The documents that have diagnostics, each once.
pub open spec fn uris_of(d: Seq<DiagSlice>) -> Seq<Seq<char>>
    decreases d.len(),
{
    if d.len() == 0 {
        Seq::empty()
    } else {
        let u = uris_of(d.drop_last());
        if u.contains(d.last().uri) { u } else { u.push(d.last().uri) }
    }
}

/// [`lex_le`] as a function value.
pub open spec fn lex_order() -> spec_fn(Seq<char>, Seq<char>) -> bool {
    |a: Seq<char>, b: Seq<char>| lex_le(a, b)
}

/// Every document with diagnostics, in name order, each with its merged
/// diagnostics sorted by position.
pub open spec fn all_diags(d: Seq<DiagSlice>) -> Seq<(Seq<char>, Seq<Diagnostic>)> {
    sort_by(uris_of(d), lex_order()).map_values(|u: Seq<char>| (u, sort_diags(merged(d, u))))
}

/// The merged, sorted diagnostics of the current document (`None` when
/// there is no current document or it has none).
pub open spec fn current_diags(v: LspView) -> Option<Seq<Diagnostic>> {
    match v.current_uri {
        None => None,
        Some(u) => if merged(v.diagnostics, u).len() == 0 {
            None
        } else {
            Some(sort_diags(merged(v.diagnostics, u)))
        },
    }
}

/// With distinct (document, client) pairs, a matching index is the one
/// [`slice_at`] names.
proof fn lemma_slice_at(d: Seq<DiagSlice>, i: int)
    requires
        forall|a: int, b: int| 0 <= a < b < d.len() ==> !(d[a].uri == d[b].uri && d[a].client == d[b].client),
        0 <= i < d.len(),
    ensures
        has_slice(d, d[i].uri, d[i].client),
        slice_at(d, d[i].uri, d[i].client) == i,
{
    let j = slice_at(d, d[i].uri, d[i].client);
    assert(0 <= j < d.len() && d[j].uri == d[i].uri && d[j].client == d[i].client);
    if j < i {
    } else if j > i {
    }
}

fn push_clones(out: &mut Vec<Diagnostic>, items: &Vec<Diagnostic>)
    ensures
        final(out)@ == old(out)@ + items@,
{
    let ghost start = out@;
    let mut k: usize = 0;
    while k < items.len()
        invariant
            k <= items@.len(),
            out@ == start + items@.take(k as int),
        decreases items@.len() - k,
    {
        out.push(items[k].clone());
        assert(start + items@.take(k + 1) =~= (start + items@.take(k as int)).push(items@[k as int]));
        k = k + 1;
    }
    assert(items@.take(items@.len() as int) =~= items@);
}

impl LspCoordinator {
    /// Every client's diagnostics for `uri`, unsorted.
    fn merged_for(&self, uri: &String) -> (r: Vec<Diagnostic>)
        ensures
            r@ == merged(self@.diagnostics, uri@),
    {
        let ghost d = self@.diagnostics;
        let mut out: Vec<Diagnostic> = Vec::new();
        let mut i: usize = 0;
        while i < self.diagnostics.len()
            invariant
                i <= d.len(),
                d == self@.diagnostics,
                out@ == merged(d.take(i as int), uri@),
            decreases d.len() - i,
        {
            let e = &self.diagnostics[i];
            assert(d.take(i + 1).drop_last() =~= d.take(i as int));
            assert(d.take(i + 1).last() == d[i as int]);
            assert(d[i as int].uri == e.uri@ && d[i as int].items == e.items@);
            if e.uri == *uri {
                push_clones(&mut out, &e.items);
            } else {
                assert(out@ =~= merged(d.take(i as int), uri@) + Seq::<Diagnostic>::empty());
            }
            i = i + 1;
        }
        assert(d.take(d.len() as int) =~= d);
        out
    }

    /// Merged diagnostics of the current document, sorted by where they
    /// start (stable: one client's diagnostics at the same position keep
    /// their order, and come before those of clients that published
    /// later). `None` when there is no current document or it has none.
    pub fn current_diagnostics(&self) -> (r: Option<Vec<Diagnostic>>)
        ensures
            match r {
                Some(v) => current_diags(self@) == Some(v@),
                None => current_diags(self@) is None,
            },
    {
        match &self.current_uri {
            None => None,
            Some(uri) => {
                let m = self.merged_for(uri);
                if m.len() == 0 {
                    None
                } else {
                    Some(sorted_diags(&m))
                }
            },
        }
    }

    /// Every document that has diagnostics, in name order, each with its
    /// merged diagnostics sorted by where they start.
    pub fn all_diagnostics(&self) -> (r: Vec<(String, Vec<Diagnostic>)>)
        ensures
            r@.map_values(|e: (String, Vec<Diagnostic>)| (e.0@, e.1@)) == all_diags(self@.diagnostics),
    {
        let ghost d = self@.diagnostics;
        // The documents, each once, in first-published order.
        let mut uris: Vec<String> = Vec::new();
        let mut i: usize = 0;
        while i < self.diagnostics.len()
            invariant
                i <= d.len(),
                d == self@.diagnostics,
                str_views(uris@) == uris_of(d.take(i as int)),
            decreases d.len() - i,
        {
            let e = &self.diagnostics[i];
            assert(d.take(i + 1).drop_last() =~= d.take(i as int));
            assert(d.take(i + 1).last() == d[i as int]);
            assert(d[i as int].uri == e.uri@);
            if !contains_string(&uris, &e.uri) {
                let ghost before = uris@;
                uris.push(e.uri.clone());
                assert(str_views(uris@) =~= str_views(before).push(e.uri@));
            }
            i = i + 1;
        }
        assert(d.take(d.len() as int) =~= d);
        // Insertion sort by name.
        let ghost le = lex_order();
        let ghost all = str_views(uris@);
        let mut sorted: Vec<String> = Vec::new();
        let mut k: usize = 0;
        while k < uris.len()
            invariant
                k <= uris@.len(),
                le == lex_order(),
                all == str_views(uris@),
                str_views(sorted@) == sort_by(all.take(k as int), le),
            decreases uris@.len() - k,
        {
            let u = uris[k].clone();
            let mut j: usize = sorted.len();
            while j > 0 && lex_less(&u, &sorted[j - 1])
                invariant
                    j <= sorted@.len(),
                    le == lex_order(),
                    forall|m: int| j <= m < sorted@.len() ==> !le(#[trigger] str_views(sorted@)[m], u@),
                decreases j,
            {
                assert(str_views(sorted@)[j - 1] == sorted@[j - 1]@);
                j = j - 1;
            }
            proof {
                if j > 0 {
                    assert(str_views(sorted@)[j - 1] == sorted@[j - 1]@);
                }
                lemma_insert_by_at(str_views(sorted@), u@, le, j as int);
                assert(all.take(k + 1).drop_last() =~= all.take(k as int));
                assert(all.take(k + 1).last() == u@);
            }
            let ghost before = sorted@;
            sorted.insert(j, u);
            assert(str_views(sorted@) =~= str_views(before).insert(j as int, u@));
            k = k + 1;
        }
        assert(all.take(all.len() as int) =~= all);
        // One entry per document.
        let ghost order = str_views(sorted@);
        let mut out: Vec<(String, Vec<Diagnostic>)> = Vec::new();
        let mut n: usize = 0;
        while n < sorted.len()
            invariant
                n <= sorted@.len(),
                out@.len() == n,
                order == str_views(sorted@),
                order == sort_by(uris_of(d), lex_order()),
                d == self@.diagnostics,
                out@.map_values(|e: (String, Vec<Diagnostic>)| (e.0@, e.1@))
                    == order.take(n as int).map_values(|u: Seq<char>| (u, sort_diags(merged(d, u)))),
            decreases sorted@.len() - n,
        {
            let u = &sorted[n];
            let m = self.merged_for(u);
            let items = sorted_diags(&m);
            let ghost before = out@;
            let entry = (u.clone(), items);
            out.push(entry);
            assert(order[n as int] == u@);
            proof {
                let lhs = out@.map_values(|e: (String, Vec<Diagnostic>)| (e.0@, e.1@));
                let prev = before.map_values(|e: (String, Vec<Diagnostic>)| (e.0@, e.1@));
                let rhs = order.take(n + 1).map_values(|u: Seq<char>| (u, sort_diags(merged(d, u))));
                let rprev = order.take(n as int).map_values(|u: Seq<char>| (u, sort_diags(merged(d, u))));
                assert(lhs.len() == rhs.len());
                assert forall|x: int| 0 <= x < lhs.len() implies lhs[x] == rhs[x] by {
                    if x < n {
                        assert(lhs[x] == prev[x]);
                        assert(rhs[x] == rprev[x]);
                    } else {
                        assert(out@[x] == entry);
                        assert(entry.0@ == u@ && entry.1@ == sort_diags(merged(d, u@)));
                    }
                }
                assert(lhs =~= rhs);
            }
            n = n + 1;
        }
        assert(order.take(order.len() as int) =~= order);
        out
    }
}

/// One step of a filter.
pub proof fn lemma_filter_push<T>(s: Seq<T>, x: T, p: spec_fn(T) -> bool)
    ensures
        s.push(x).filter(p) == (if p(x) { s.filter(p).push(x) } else { s.filter(p) }),
{
    reveal(Seq::filter);
    assert(s.push(x).drop_last() =~= s);
}


/// Every element of a filter comes from the filtered sequence.
pub proof fn lemma_filter_from<T>(s: Seq<T>, p: spec_fn(T) -> bool, i: int)
    requires
        0 <= i < s.filter(p).len(),
    ensures
        exists|j: int| 0 <= j < s.len() && s[j] == s.filter(p)[i],
        p(s.filter(p)[i]),
{
    broadcast use vstd::seq_lib::group_filter_ensures;
    assert(s.filter(p).contains(s.filter(p)[i]));
    s.lemma_filter_contains_rev(p, s.filter(p)[i]);
}

/// Filtering keeps a property every element has.
pub proof fn lemma_filter_all<T>(s: Seq<T>, p: spec_fn(T) -> bool, q: spec_fn(T) -> bool)
    requires
        forall|i: int| 0 <= i < s.len() ==> q(#[trigger] s[i]),
    ensures
        forall|i: int| 0 <= i < s.filter(p).len() ==> q(#[trigger] s.filter(p)[i]),
{
    assert forall|i: int| 0 <= i < s.filter(p).len() implies q(#[trigger] s.filter(p)[i]) by {
        lemma_filter_from(s, p, i);
    }
}

/// Filtering keeps keys apart.
pub proof fn lemma_filter_distinct<T, K>(s: Seq<T>, p: spec_fn(T) -> bool, key: spec_fn(T) -> K)
    requires
        forall|i: int, j: int| 0 <= i < j < s.len() ==> key(s[i]) != key(s[j]),
    ensures
        forall|i: int, j: int| 0 <= i < j < s.filter(p).len() ==> key(s.filter(p)[i]) != key(s.filter(p)[j]),
    decreases s.len(),
{
    if s.len() > 0 {
        let init = s.drop_last();
        let x = s.last();
        assert(init.push(x) =~= s);
        assert forall|i: int, j: int| 0 <= i < j < init.len() implies key(init[i]) != key(init[j]) by {
            assert(init[i] == s[i] && init[j] == s[j]);
        }
        lemma_filter_distinct(init, p, key);
        lemma_filter_push(init, x, p);
        let fi = init.filter(p);
        if p(x) {
            assert forall|i: int| 0 <= i < fi.len() implies key(#[trigger] fi[i]) != key(x) by {
                lemma_filter_from(init, p, i);
                let w = choose|w: int| 0 <= w < init.len() && init[w] == fi[i];
                assert(s[w] == init[w]);
                assert(s[s.len() - 1] == x);
            }
            let f = s.filter(p);
            assert forall|i: int, j: int| 0 <= i < j < f.len() implies key(f[i]) != key(f[j]) by {
                if j == fi.len() {
                    assert(f[j] == x);
                    assert(f[i] == fi[i]);
                } else {
                    assert(f[i] == fi[i] && f[j] == fi[j]);
                }
            }
        }
    }
}

/// Mapping commutes with a filter whose predicate only reads the mapped
/// value.
pub proof fn lemma_map_filter<A, B>(s: Seq<A>, f: spec_fn(A) -> B, p: spec_fn(A) -> bool, q: spec_fn(B) -> bool)
    requires
        forall|a: A| #[trigger] p(a) == q(f(a)),
    ensures
        s.filter(p).map_values(f) == s.map_values(f).filter(q),
    decreases s.len(),
{
    if s.len() == 0 {
        reveal(Seq::filter);
        assert(s.filter(p).map_values(f) =~= s.map_values(f).filter(q));
    } else {
        let init = s.drop_last();
        let x = s.last();
        assert(init.push(x) =~= s);
        lemma_map_filter(init, f, p, q);
        lemma_filter_push(init, x, p);
        assert(s.map_values(f) =~= init.map_values(f).push(f(x)));
        lemma_filter_push(init.map_values(f), f(x), q);
        assert(p(x) == q(f(x)));
        if p(x) {
            assert(init.filter(p).push(x).map_values(f) =~= init.filter(p).map_values(f).push(f(x)));
        }
    }
}

// ────────────────────────────────────────────────────────────────────────
// Dropping a client
// ────────────────────────────────────────────────────────────────────────

/// Every string but `k`.
pub open spec fn not_key(k: Seq<char>) -> spec_fn(Seq<char>) -> bool {
    |x: Seq<char>| x != k
}

/// Every client entry but `k`'s.
pub open spec fn other_client(k: Seq<char>) -> spec_fn((Seq<char>, LspClientInfo)) -> bool {
    |e: (Seq<char>, LspClientInfo)| e.0 != k
}

/// Every diagnostics slice but `k`'s.
pub open spec fn not_from(k: Seq<char>) -> spec_fn(DiagSlice) -> bool {
    |e: DiagSlice| e.client != k
}

/// `s` without `k`.
pub open spec fn without(s: Seq<Seq<char>>, k: Seq<char>) -> Seq<Seq<char>> {
    s.filter(not_key(k))
}

/// The open documents once client `k` is gone: `k` leaves every list,
/// and a document no client holds any more is forgotten.
pub open spec fn prune_uris(u: Seq<(Seq<char>, Seq<Seq<char>>)>, k: Seq<char>) -> Seq<(Seq<char>, Seq<Seq<char>>)>
    decreases u.len(),
{
    if u.len() == 0 {
        Seq::empty()
    } else {
        let rest = prune_uris(u.drop_last(), k);
        let keys = without(u.last().1, k);
        if keys.len() == 0 { rest } else { rest.push((u.last().0, keys)) }
    }
}

/// How many of the requests `p` sent to client `k` belong to group `g`.
pub open spec fn dead_count(p: Seq<PendingView>, k: Seq<char>, g: u64) -> nat
    decreases p.len(),
{
    if p.len() == 0 {
        0
    } else {
        dead_count(p.drop_last(), k, g) + if p.last().client == k && p.last().group == g { 1nat } else { 0nat }
    }
}

/// The groups once every request to client `k` counts as answered: a
/// group waits for that many fewer answers, and one left waiting for
/// none is forgotten.
pub open spec fn settle(gs: Seq<(u64, usize)>, p: Seq<PendingView>, k: Seq<char>) -> Seq<(u64, usize)>
    decreases gs.len(),
{
    if gs.len() == 0 {
        Seq::empty()
    } else {
        let r = settle(gs.drop_last(), p, k);
        let e = gs.last();
        let c = dead_count(p, k, e.0);
        if c == 0 {
            r.push(e)
        } else if e.1 > c {
            r.push((e.0, (e.1 - c) as usize))
        } else {
            r
        }
    }
}

/// Every request but those sent to `k`.
pub open spec fn not_sent_to(k: Seq<char>) -> spec_fn(PendingView) -> bool {
    |e: PendingView| e.client != k
}

/// The state once client `k` is gone: it leaves the running clients and
/// the current document's clients, its diagnostics are dropped, it no
/// longer holds any document open, and its outstanding requests count as
/// answered (with nothing).
pub open spec fn dropped(v: LspView, k: Seq<char>) -> LspView {
    LspView {
        clients: v.clients.filter(other_client(k)),
        open_uris: prune_uris(v.open_uris, k),
        diagnostics: v.diagnostics.filter(not_from(k)),
        current_clients: without(v.current_clients, k),
        pending: v.pending.filter(not_sent_to(k)),
        groups: settle(v.groups, v.pending, k),
        ..v
    }
}

/// Settled groups are groups that were there, still waiting.
proof fn lemma_settle(gs: Seq<(u64, usize)>, p: Seq<PendingView>, k: Seq<char>)
    requires
        forall|i: int, j: int| 0 <= i < j < gs.len() ==> gs[i].0 != gs[j].0,
        forall|i: int| 0 <= i < gs.len() ==> #[trigger] gs[i].1 > 0,
    ensures
        forall|i: int, j: int| 0 <= i < j < settle(gs, p, k).len() ==> settle(gs, p, k)[i].0 != settle(gs, p, k)[j].0,
        forall|i: int| 0 <= i < settle(gs, p, k).len() ==> #[trigger] settle(gs, p, k)[i].1 > 0,
        forall|i: int| 0 <= i < settle(gs, p, k).len() ==> exists|j: int| 0 <= j < gs.len() && gs[j].0 == (#[trigger] settle(gs, p, k)[i]).0,
    decreases gs.len(),
{
    if gs.len() > 0 {
        let init = gs.drop_last();
        let e = gs.last();
        assert forall|i: int, j: int| 0 <= i < j < init.len() implies init[i].0 != init[j].0 by {
            assert(init[i] == gs[i] && init[j] == gs[j]);
        }
        assert forall|i: int| 0 <= i < init.len() implies #[trigger] init[i].1 > 0 by {
            assert(init[i] == gs[i]);
        }
        lemma_settle(init, p, k);
        let r = settle(init, p, k);
        let out = settle(gs, p, k);
        assert(gs.drop_last() == init);
        assert forall|i: int| 0 <= i < r.len() implies exists|j: int| 0 <= j < gs.len() && gs[j].0 == (#[trigger] r[i]).0 by {
            let j = choose|j: int| 0 <= j < init.len() && init[j].0 == r[i].0;
            assert(gs[j] == init[j]);
        }
        assert forall|i: int| 0 <= i < r.len() implies (#[trigger] r[i]).0 != e.0 by {
            let j = choose|j: int| 0 <= j < init.len() && init[j].0 == r[i].0;
            assert(gs[j] == init[j]);
            assert(gs[gs.len() - 1] == e);
        }
        assert(e == gs[gs.len() - 1]);
        if out.len() > r.len() {
            assert forall|i: int, j: int| 0 <= i < j < out.len() implies out[i].0 != out[j].0 by {
                if j == r.len() {
                    assert(out[i] == r[i]);
                } else {
                    assert(out[i] == r[i] && out[j] == r[j]);
                }
            }
            assert forall|i: int| 0 <= i < out.len() implies #[trigger] out[i].1 > 0 by {
                if i < r.len() {
                    assert(out[i] == r[i]);
                }
            }
            assert forall|i: int| 0 <= i < out.len() implies exists|j: int| 0 <= j < gs.len() && gs[j].0 == (#[trigger] out[i]).0 by {
                if i < r.len() {
                    assert(out[i] == r[i]);
                } else {
                    assert(gs[gs.len() - 1].0 == out[i].0);
                }
            }
        }
    }
}

/// Every pruned entry keeps the key of an entry it came from, and its
/// list is a non-empty, duplicate-free part of that entry's list.
proof fn lemma_prune_uris(u: Seq<(Seq<char>, Seq<Seq<char>>)>, k: Seq<char>)
    requires
        keys_distinct(u),
        forall|i: int| 0 <= i < u.len() ==> all_distinct(#[trigger] u[i].1),
    ensures
        keys_distinct(prune_uris(u, k)),
        forall|i: int| 0 <= i < prune_uris(u, k).len() ==> (#[trigger] prune_uris(u, k)[i]).1.len() > 0
            && all_distinct(prune_uris(u, k)[i].1) && !prune_uris(u, k)[i].1.contains(k),
        forall|i: int| 0 <= i < prune_uris(u, k).len() ==> has_key(u, (#[trigger] prune_uris(u, k)[i]).0),
    decreases u.len(),
{
    if u.len() > 0 {
        let init = u.drop_last();
        let x = u.last();
        assert forall|i: int, j: int| 0 <= i < j < init.len() implies init[i].0 != init[j].0 by {
            assert(init[i] == u[i] && init[j] == u[j]);
        }
        assert forall|i: int| 0 <= i < init.len() implies all_distinct(#[trigger] init[i].1) by {
            assert(init[i] == u[i]);
        }
        lemma_prune_uris(init, k);
        let rest = prune_uris(init, k);
        let keys = without(x.1, k);
        let pr = prune_uris(u, k);
        assert(u.drop_last() == init);
        assert forall|i: int| 0 <= i < rest.len() implies has_key(u, (#[trigger] rest[i]).0) by {
            assert(has_key(init, rest[i].0));
            let w = choose|w: int| 0 <= w < init.len() && init[w].0 == rest[i].0;
            assert(u[w] == init[w]);
        }
        if keys.len() > 0 {
            assert(pr == rest.push((x.0, keys)));
            assert forall|i: int| 0 <= i < rest.len() implies (#[trigger] rest[i]).0 != x.0 by {
                assert(has_key(init, rest[i].0));
                let w = choose|w: int| 0 <= w < init.len() && init[w].0 == rest[i].0;
                assert(u[w] == init[w]);
                assert(u[u.len() - 1] == x);
            }
            assert forall|i: int, j: int| 0 <= i < j < pr.len() implies pr[i].0 != pr[j].0 by {
                if j == rest.len() {
                    assert(pr[i] == rest[i]);
                } else {
                    assert(pr[i] == rest[i] && pr[j] == rest[j]);
                }
            }
            let p = not_key(k);
            assert(all_distinct(x.1)) by {
                assert(x == u[u.len() - 1]);
            }
            lemma_filter_distinct(x.1, p, |y: Seq<char>| y);
            assert forall|i: int, j: int| 0 <= i < j < keys.len() implies keys[i] != keys[j] by {
                let id = |y: Seq<char>| y;
                assert(id(keys[i]) != id(keys[j]));
            }
            assert(!keys.contains(k)) by {
                if keys.contains(k) {
                    let w = choose|w: int| 0 <= w < keys.len() && keys[w] == k;
                    lemma_filter_from(x.1, p, w);
                }
            }
            assert(has_key(u, x.0)) by {
                assert(u[u.len() - 1].0 == x.0);
            }
            assert forall|i: int| 0 <= i < pr.len() implies (#[trigger] pr[i]).1.len() > 0
                && all_distinct(pr[i].1) && !pr[i].1.contains(k) && has_key(u, pr[i].0) by {
                if i < rest.len() {
                    assert(pr[i] == rest[i]);
                }
            }
        } else {
            assert(pr == rest);
        }
    }
}

impl LspCoordinator {
    /// How many outstanding requests to client `k` belong to group `g`.
    fn dead_count_of(&self, k: &String, g: u64) -> (r: usize)
        ensures
            r == dead_count(self@.pending, k@, g),
    {
        let ghost p = self@.pending;
        let mut n: usize = 0;
        let mut i: usize = 0;
        while i < self.pending.len()
            invariant
                i <= p.len(),
                p == self@.pending,
                n == dead_count(p.take(i as int), k@, g),
                n <= i,
            decreases p.len() - i,
        {
            let e = &self.pending[i];
            assert(p.take(i + 1).drop_last() =~= p.take(i as int));
            assert(p.take(i + 1).last() == p[i as int]);
            if e.client == *k && e.group == g {
                n = n + 1;
            }
            i = i + 1;
        }
        assert(p.take(p.len() as int) =~= p);
        n
    }

    /// Forget client `k` (see [`dropped`]). Returns whether such a client
    /// was running.
    fn drop_client(&mut self, k: &String) -> (r: bool)
        requires
            old(self).wf(),
        ensures
            final(self).wf(),
            final(self)@ == dropped(old(self)@, k@),
            r == has_key(old(self)@.clients, k@),
    {
        let ghost v0 = self@;
        let found = find_key(&self.clients, k);
        let r = found.is_some();
        proof {
            match found {
                Some(i) => {
                    assert(v0.clients[i as int].0 == k@);
                }
                None => {
                    if has_key(v0.clients, k@) {
                        let w = choose|w: int| 0 <= w < v0.clients.len() && v0.clients[w].0 == k@;
                        assert(self.clients@[w].0@ == k@);
                    }
                }
            }
        }
        // Running clients.
        let mut clients: Vec<(String, LspClientInfo)> = Vec::new();
        std::mem::swap(&mut clients, &mut self.clients);
        let ghost pc = other_client(k@);
        let ghost call = clients@;
        let mut kept_clients: Vec<(String, LspClientInfo)> = Vec::new();
        for e in it: clients.into_iter()
            invariant
                it.seq() == call,
                pc == other_client(k@),
                client_entries(kept_clients@) == client_entries(call.take(it.index() as int)).filter(pc),
        {
            proof {
                assert(call.take(it.index() + 1) =~= call.take(it.index() as int).push(e));
                assert(client_entries(call.take(it.index() + 1)) =~= client_entries(call.take(it.index() as int)).push(
                    (e.0@, e.1),
                ));
                lemma_filter_push(client_entries(call.take(it.index() as int)), (e.0@, e.1), pc);
            }
            if e.0 != *k {
                let ghost before = kept_clients@;
                kept_clients.push(e);
                assert(client_entries(kept_clients@) =~= client_entries(before).push((e.0@, e.1)));
            }
        }
        assert(call.take(call.len() as int) =~= call);
        self.clients = kept_clients;
        // Clients of the current document.
        let mut current: Vec<String> = Vec::new();
        std::mem::swap(&mut current, &mut self.current_clients);
        let ghost ps = not_key(k@);
        let ghost cur = current@;
        let mut kept_current: Vec<String> = Vec::new();
        for e in it: current.into_iter()
            invariant
                it.seq() == cur,
                ps == not_key(k@),
                str_views(kept_current@) == str_views(cur.take(it.index() as int)).filter(ps),
        {
            proof {
                assert(cur.take(it.index() + 1) =~= cur.take(it.index() as int).push(e));
                assert(str_views(cur.take(it.index() + 1)) =~= str_views(cur.take(it.index() as int)).push(e@));
                lemma_filter_push(str_views(cur.take(it.index() as int)), e@, ps);
            }
            if e != *k {
                let ghost before = kept_current@;
                kept_current.push(e);
                assert(str_views(kept_current@) =~= str_views(before).push(e@));
            }
        }
        assert(cur.take(cur.len() as int) =~= cur);
        self.current_clients = kept_current;
        // Its diagnostics.
        let mut diags: Vec<DiagEntry> = Vec::new();
        std::mem::swap(&mut diags, &mut self.diagnostics);
        let ghost pd = not_from(k@);
        let ghost dall = diags@;
        let mut kept_diags: Vec<DiagEntry> = Vec::new();
        for e in it: diags.into_iter()
            invariant
                it.seq() == dall,
                pd == not_from(k@),
                diag_entries(kept_diags@) == diag_entries(dall.take(it.index() as int)).filter(pd),
        {
            let ghost ev = DiagSlice { uri: e.uri@, client: e.client@, items: e.items@ };
            proof {
                assert(dall.take(it.index() + 1) =~= dall.take(it.index() as int).push(e));
                assert(diag_entries(dall.take(it.index() + 1)) =~= diag_entries(dall.take(it.index() as int)).push(ev));
                lemma_filter_push(diag_entries(dall.take(it.index() as int)), ev, pd);
            }
            if e.client != *k {
                let ghost before = kept_diags@;
                kept_diags.push(e);
                assert(diag_entries(kept_diags@) =~= diag_entries(before).push(ev));
            }
        }
        assert(dall.take(dall.len() as int) =~= dall);
        self.diagnostics = kept_diags;
        // The documents it held open.
        let mut uris: Vec<(String, Vec<String>)> = Vec::new();
        std::mem::swap(&mut uris, &mut self.open_uris);
        let ghost uall = uris@;
        let mut kept_uris: Vec<(String, Vec<String>)> = Vec::new();
        for e in it: uris.into_iter()
            invariant
                it.seq() == uall,
                ps == not_key(k@),
                uri_entries(kept_uris@) == prune_uris(uri_entries(uall.take(it.index() as int)), k@),
        {
            let ghost ev = (e.0@, str_views(e.1@));
            proof {
                assert(uall.take(it.index() + 1) =~= uall.take(it.index() as int).push(e));
                assert(uri_entries(uall.take(it.index() + 1)) =~= uri_entries(uall.take(it.index() as int)).push(ev));
                assert(uri_entries(uall.take(it.index() + 1)).drop_last() =~= uri_entries(uall.take(it.index() as int)));
            }
            let (uri, keys) = e;
            let ghost kall = keys@;
            let mut left: Vec<String> = Vec::new();
            for x in kt: keys.into_iter()
                invariant
                    kt.seq() == kall,
                    ps == not_key(k@),
                    str_views(left@) == str_views(kall.take(kt.index() as int)).filter(ps),
            {
                proof {
                    assert(kall.take(kt.index() + 1) =~= kall.take(kt.index() as int).push(x));
                    assert(str_views(kall.take(kt.index() + 1)) =~= str_views(kall.take(kt.index() as int)).push(x@));
                    lemma_filter_push(str_views(kall.take(kt.index() as int)), x@, ps);
                }
                if x != *k {
                    let ghost before = left@;
                    left.push(x);
                    assert(str_views(left@) =~= str_views(before).push(x@));
                }
            }
            assert(kall.take(kall.len() as int) =~= kall);
            assert(str_views(left@) == without(ev.1, k@));
            if left.len() > 0 {
                let ghost before = kept_uris@;
                kept_uris.push((uri, left));
                assert(uri_entries(kept_uris@) =~= uri_entries(before).push((ev.0, str_views(left@))));
            }
        }
        assert(uall.take(uall.len() as int) =~= uall);
        self.open_uris = kept_uris;
        // Its outstanding requests.
        let ghost pall = self@.pending;
        let mut settled: Vec<(u64, usize)> = Vec::new();
        let mut g: usize = 0;
        while g < self.groups.len()
            invariant
                g <= self@.groups.len(),
                pall == self@.pending,
                self@.groups == v0.groups,
                pall == v0.pending,
                settled@ == settle(v0.groups.take(g as int), pall, k@),
            decreases self@.groups.len() - g,
        {
            let e = self.groups[g];
            let c = self.dead_count_of(k, e.0);
            assert(v0.groups.take(g + 1).drop_last() =~= v0.groups.take(g as int));
            assert(v0.groups.take(g + 1).last() == e);
            if c == 0 {
                settled.push(e);
            } else if e.1 > c {
                settled.push((e.0, e.1 - c));
            }
            g = g + 1;
        }
        assert(v0.groups.take(v0.groups.len() as int) =~= v0.groups);
        self.groups = settled;
        let mut pend: Vec<PendingEntry> = Vec::new();
        std::mem::swap(&mut pend, &mut self.pending);
        let ghost pp = not_sent_to(k@);
        let ghost praw = pend@;
        let mut kept_pend: Vec<PendingEntry> = Vec::new();
        for e in it: pend.into_iter()
            invariant
                it.seq() == praw,
                pp == not_sent_to(k@),
                pending_entries(kept_pend@) == pending_entries(praw.take(it.index() as int)).filter(pp),
        {
            let ghost ev = PendingView { client: e.client@, id: e.id, group: e.group, kind: e.kind };
            proof {
                assert(praw.take(it.index() + 1) =~= praw.take(it.index() as int).push(e));
                assert(pending_entries(praw.take(it.index() + 1)) =~= pending_entries(praw.take(it.index() as int)).push(ev));
                lemma_filter_push(pending_entries(praw.take(it.index() as int)), ev, pp);
            }
            if e.client != *k {
                let ghost before = kept_pend@;
                kept_pend.push(e);
                assert(pending_entries(kept_pend@) =~= pending_entries(before).push(ev));
            }
        }
        assert(praw.take(praw.len() as int) =~= praw);
        self.pending = kept_pend;
        proof {
            let v1 = self@;
            lemma_settle(v0.groups, v0.pending, k@);
            lemma_filter_distinct(v0.pending, pp, |e: PendingView| (e.client, e.id));
            assert forall|i: int, j: int| 0 <= i < j < v1.pending.len() implies
                !(v1.pending[i].client == v1.pending[j].client && v1.pending[i].id == v1.pending[j].id) by {
                assert((v1.pending[i].client, v1.pending[i].id) != (v1.pending[j].client, v1.pending[j].id));
            }
            assert(v1.clients == v0.clients.filter(pc));
            assert(v1.current_clients == without(v0.current_clients, k@));
            assert(v1.diagnostics == v0.diagnostics.filter(pd));
            assert(v1.open_uris == prune_uris(v0.open_uris, k@));
            // The invariant survives.
            lemma_filter_distinct(v0.clients, pc, |e: (Seq<char>, LspClientInfo)| e.0);
            lemma_filter_distinct(v0.current_clients, ps, |x: Seq<char>| x);
            assert forall|i: int, j: int| 0 <= i < j < v1.current_clients.len() implies
                v1.current_clients[i] != v1.current_clients[j] by {
                let id = |y: Seq<char>| y;
                assert(id(v1.current_clients[i]) != id(v1.current_clients[j]));
            }
            lemma_filter_distinct(v0.diagnostics, pd, |e: DiagSlice| (e.uri, e.client));
            lemma_filter_all(v0.diagnostics, pd, |e: DiagSlice| e.items.len() > 0);
            lemma_prune_uris(v0.open_uris, k@);
            assert forall|i: int, j: int| 0 <= i < j < v1.diagnostics.len() implies
                !(v1.diagnostics[i].uri == v1.diagnostics[j].uri && v1.diagnostics[i].client == v1.diagnostics[j].client) by {
                assert((v1.diagnostics[i].uri, v1.diagnostics[i].client) != (v1.diagnostics[j].uri, v1.diagnostics[j].client));
            }
            assert(v1 == dropped(v0, k@));
        }
        r
    }
}

// ────────────────────────────────────────────────────────────────────────
// Documents
// ────────────────────────────────────────────────────────────────────────

/// Where the entry keyed `k` is (meaningful where [`has_key`] holds).
pub open spec fn key_at<V>(s: Seq<(Seq<char>, V)>, k: Seq<char>) -> int {
    choose|i: int| 0 <= i < s.len() && s[i].0 == k
}

/// The clients holding `uri` open (none when nobody does).
pub open spec fn holders(u: Seq<(Seq<char>, Seq<Seq<char>>)>, uri: Seq<char>) -> Seq<Seq<char>> {
    if has_key(u, uri) { value_of(u, uri) } else { Seq::empty() }
}

/// Whether client `key` must be sent `didOpen` for `uri`: it is running
/// and does not hold the document open yet.
pub open spec fn opens(v: LspView, key: Seq<char>, uri: Seq<char>) -> bool {
    has_key(v.clients, key) && !holders(v.open_uris, uri).contains(key)
}

/// The open documents once `key` opened `uri`.
pub open spec fn record_open(u: Seq<(Seq<char>, Seq<Seq<char>>)>, uri: Seq<char>, key: Seq<char>) -> Seq<(Seq<char>, Seq<Seq<char>>)> {
    if has_key(u, uri) {
        u.update(key_at(u, uri), (uri, value_of(u, uri).push(key)))
    } else {
        u.push((uri, seq![key]))
    }
}

/// The state once `key` (for language `lang`) was pointed at `uri`.
pub open spec fn opened(v: LspView, key: Seq<char>, lang: Seq<char>, uri: Seq<char>) -> LspView {
    LspView {
        open_uris: if opens(v, key, uri) { record_open(v.open_uris, uri, key) } else { v.open_uris },
        current_uri: Some(uri),
        current_language: Some(lang),
        current_clients: with_current(v, key).current_clients,
        ..v
    }
}

/// The clients of the current document that are running.
pub open spec fn live_current(v: LspView) -> Seq<Seq<char>> {
    v.current_clients.filter(|k: Seq<char>| has_key(v.clients, k))
}

/// Which clients to notify of a change to (or a save of) the current
/// document: `None` without a current document.
pub struct SyncTargets {
    pub uri: String,
    pub clients: Vec<String>,
}

/// Whether some open document lists client `k`.
pub open spec fn holds_any(u: Seq<(Seq<char>, Seq<Seq<char>>)>, k: Seq<char>) -> bool {
    exists|i: int| 0 <= i < u.len() && (#[trigger] u[i]).1.contains(k)
}

/// The state once each of `keys`, in turn, was dropped if it no longer
/// holds any document open.
pub open spec fn release(v: LspView, keys: Seq<Seq<char>>) -> LspView
    decreases keys.len(),
{
    if keys.len() == 0 {
        v
    } else {
        let w = release(v, keys.drop_last());
        if holds_any(w.open_uris, keys.last()) { w } else { dropped(w, keys.last()) }
    }
}

/// The running clients that [`release`] drops, in order.
pub open spec fn released(v: LspView, keys: Seq<Seq<char>>) -> Seq<Seq<char>>
    decreases keys.len(),
{
    if keys.len() == 0 {
        Seq::empty()
    } else {
        let w = release(v, keys.drop_last());
        let r = released(v, keys.drop_last());
        if !holds_any(w.open_uris, keys.last()) && has_key(w.clients, keys.last()) {
            r.push(keys.last())
        } else {
            r
        }
    }
}

/// Every open document but `uri`.
pub open spec fn other_uri(uri: Seq<char>) -> spec_fn((Seq<char>, Seq<Seq<char>>)) -> bool {
    |e: (Seq<char>, Seq<Seq<char>>)| e.0 != uri
}

/// Every diagnostics slice but those for `uri`.
pub open spec fn not_for(uri: Seq<char>) -> spec_fn(DiagSlice) -> bool {
    |e: DiagSlice| e.uri != uri
}

/// The state once nobody holds `uri` open any more, its diagnostics are
/// gone, and it is no longer current.
pub open spec fn unlinked(v: LspView, uri: Seq<char>) -> LspView {
    let w0 = LspView {
        open_uris: v.open_uris.filter(other_uri(uri)),
        diagnostics: v.diagnostics.filter(not_for(uri)),
        ..v
    };
    if v.current_uri == Some(uri) {
        LspView { current_uri: None, current_language: None, current_clients: Seq::empty(), ..w0 }
    } else {
        w0
    }
}

/// The state once `uri` was closed: [`unlinked`], then each client that
/// held it and holds nothing else any more is dropped.
pub open spec fn closed(v: LspView, uri: Seq<char>) -> LspView {
    release(unlinked(v, uri), holders(v.open_uris, uri))
}

/// What closing a document asks of the caller.
pub struct UriClosed {
    /// Clients to send `didClose` to.
    pub did_close: Vec<String>,
    /// Clients to shut down: they no longer hold any document open.
    pub shut_down: Vec<String>,
}

impl LspCoordinator {
    /// Where the entry for `uri` is among the open documents.
    fn find_uri(&self, uri: &String) -> (r: Option<usize>)
        requires
            self.wf(),
        ensures
            match r {
                Some(i) => i < self@.open_uris.len() && self@.open_uris[i as int].0 == uri@
                    && has_key(self@.open_uris, uri@) && key_at(self@.open_uris, uri@) == i,
                None => !has_key(self@.open_uris, uri@),
            },
    {
        let r = find_key(&self.open_uris, uri);
        proof {
            match r {
                Some(i) => {
                    assert(self@.open_uris[i as int].0 == uri@);
                    lemma_value_of(self@.open_uris, i as int);
                    let j = key_at(self@.open_uris, uri@);
                    if j < i {
                        assert(self@.open_uris[j].0 != self@.open_uris[i as int].0);
                    } else if j > i {
                        assert(self@.open_uris[i as int].0 != self@.open_uris[j].0);
                    }
                }
                None => {
                    if has_key(self@.open_uris, uri@) {
                        let w = choose|w: int| 0 <= w < self@.open_uris.len() && self@.open_uris[w].0 == uri@;
                        assert(self.open_uris@[w].0@ == uri@);
                    }
                }
            }
        }
        r
    }

    /// Whether client `client_key` must be sent `didOpen` for `uri`
    /// before [`Self::did_open`] records it: the client is running and
    /// does not hold the document open yet (sending it twice is
    /// forbidden by the protocol).
    pub fn needs_did_open(&self, client_key: &str, uri: &str) -> (r: bool)
        requires
            self.wf(),
        ensures
            r == opens(self@, client_key@, uri@),
    {
        let k = client_key.to_owned();
        let u = uri.to_owned();
        if !self.has_client(client_key) {
            return false;
        }
        match self.find_uri(&u) {
            None => true,
            Some(i) => {
                proof {
                    lemma_value_of(self@.open_uris, i as int);
                    assert(self@.open_uris[i as int].1 == str_views(self.open_uris@[i as int].1@));
                }
                !contains_string(&self.open_uris[i].1, &k)
            },
        }
    }

    /// Make `uri` (in language `lang_name`) the current document, with
    /// `client_key` among its clients. When [`Self::needs_did_open`]
    /// held, the client now holds the document open; that is returned.
    pub fn did_open(&mut self, client_key: &str, lang_name: &str, uri: &str) -> (r: bool)
        requires
            old(self).wf(),
        ensures
            final(self).wf(),
            r == opens(old(self)@, client_key@, uri@),
            final(self)@ == opened(old(self)@, client_key@, lang_name@, uri@),
    {
        let ghost v0 = self@;
        let r = self.needs_did_open(client_key, uri);
        let u = uri.to_owned();
        if r {
            match self.find_uri(&u) {
                Some(i) => {
                    let ghost before = self.open_uris@;
                    let mut entry: (String, Vec<String>) = (String::new(), Vec::new());
                    proof {
                        lemma_value_of(v0.open_uris, i as int);
                        assert(v0.open_uris[i as int].1 == str_views(before[i as int].1@));
                    }
                    std::mem::swap(&mut entry, &mut self.open_uris[i]);
                    assert(entry == before[i as int]);
                    let ghost keys_before = entry.1@;
                    entry.1.push(client_key.to_owned());
                    assert(str_views(entry.1@) =~= str_views(keys_before).push(client_key@));
                    self.open_uris.set(i, entry);
                    proof {
                        assert(self@.open_uris =~= record_open(v0.open_uris, uri@, client_key@));
                        let uo = self@.open_uris;
                        assert forall|a: int, b: int| 0 <= a < b < uo.len() implies uo[a].0 != uo[b].0 by {
                            assert(v0.open_uris[a].0 != v0.open_uris[b].0);
                        }
                        assert forall|a: int| 0 <= a < uo.len() implies #[trigger] uo[a].1.len() > 0
                            && all_distinct(uo[a].1) by {
                            if a == i {
                                let old_keys = v0.open_uris[a].1;
                                assert(!old_keys.contains(client_key@));
                                assert forall|x: int, y: int| 0 <= x < y < uo[a].1.len() implies uo[a].1[x] != uo[a].1[y] by {
                                    if y == old_keys.len() {
                                        assert(uo[a].1[x] == old_keys[x]);
                                    } else {
                                        assert(uo[a].1[x] == old_keys[x] && uo[a].1[y] == old_keys[y]);
                                    }
                                }
                            } else {
                                assert(uo[a] == v0.open_uris[a]);
                            }
                        }
                    }
                },
                None => {
                    let mut keys: Vec<String> = Vec::new();
                    keys.push(client_key.to_owned());
                    let ghost before = self@.open_uris;
                    self.open_uris.push((u.clone(), keys));
                    proof {
                        assert(str_views(keys@) =~= seq![client_key@]);
                        assert(self@.open_uris =~= before.push((uri@, seq![client_key@])));
                        let uo = self@.open_uris;
                        assert forall|a: int, b: int| 0 <= a < b < uo.len() implies uo[a].0 != uo[b].0 by {
                            if b == before.len() {
                                assert(uo[a] == before[a]);
                            }
                        }
                        assert forall|a: int| 0 <= a < uo.len() implies #[trigger] uo[a].1.len() > 0
                            && all_distinct(uo[a].1) by {
                            if a < before.len() {
                                assert(uo[a] == before[a]);
                            }
                        }
                    }
                },
            }
        }
        self.current_uri = Some(u);
        self.current_language = Some(lang_name.to_owned());
        self.add_current_client(client_key);
        r
    }

    /// Finish opening `uri` once the `didOpen` send (needed exactly when
    /// [`Self::needs_did_open`] held) has been tried: a failed send
    /// leaves the coordinator as it was and gives `false` (the caller
    /// reports the error); otherwise the document is recorded as by
    /// [`Self::did_open`] and `true` is returned. `send_ok` is ignored
    /// when no send was needed.
    pub fn finish_did_open(&mut self, client_key: &str, lang_name: &str, uri: &str, send_ok: bool) -> (r: bool)
        requires
            old(self).wf(),
        ensures
            final(self).wf(),
            r == !(opens(old(self)@, client_key@, uri@) && !send_ok),
            r ==> final(self)@ == opened(old(self)@, client_key@, lang_name@, uri@),
            !r ==> final(self)@ == old(self)@,
    {
        if self.needs_did_open(client_key, uri) && !send_ok {
            return false;
        }
        self.did_open(client_key, lang_name, uri);
        true
    }

    /// The current document and its running clients: whom to send
    /// `didChange` when the buffer changed. `None` without a current
    /// document.
    pub fn did_change(&self) -> (r: Option<SyncTargets>)
        ensures
            match r {
                None => self@.current_uri is None,
                Some(t) => self@.current_uri == Some(t.uri@) && str_views(t.clients@) == live_current(self@),
            },
    {
        self.sync_targets()
    }

    /// The current document and its running clients: whom to send
    /// `didSave` when the buffer was written. `None` without a current
    /// document.
    pub fn did_save(&self) -> (r: Option<SyncTargets>)
        ensures
            match r {
                None => self@.current_uri is None,
                Some(t) => self@.current_uri == Some(t.uri@) && str_views(t.clients@) == live_current(self@),
            },
    {
        self.sync_targets()
    }

    fn sync_targets(&self) -> (r: Option<SyncTargets>)
        ensures
            match r {
                None => self@.current_uri is None,
                Some(t) => self@.current_uri == Some(t.uri@) && str_views(t.clients@) == live_current(self@),
            },
    {
        let uri = match &self.current_uri {
            None => return None,
            Some(u) => u.clone(),
        };
        Some(SyncTargets { uri, clients: self.live_current_clients() })
    }

    /// The clients of the current document that are running, in order.
    fn live_current_clients(&self) -> (r: Vec<String>)
        ensures
            str_views(r@) == live_current(self@),
    {
        let ghost p = |k: Seq<char>| has_key(self@.clients, k);
        let ghost cc = self@.current_clients;
        let mut out: Vec<String> = Vec::new();
        let mut i: usize = 0;
        while i < self.current_clients.len()
            invariant
                i <= cc.len(),
                cc == self@.current_clients,
                p == (|k: Seq<char>| has_key(self@.clients, k)),
                str_views(out@) == cc.take(i as int).filter(p),
            decreases cc.len() - i,
        {
            let key = &self.current_clients[i];
            assert(cc[i as int] == key@);
            proof {
                assert(cc.take(i + 1) =~= cc.take(i as int).push(key@));
                lemma_filter_push(cc.take(i as int), key@, p);
            }
            if self.has_client(key.as_str()) {
                let ghost before = out@;
                out.push(key.clone());
                assert(str_views(out@) =~= str_views(before).push(key@));
            }
            i = i + 1;
        }
        assert(cc.take(cc.len() as int) =~= cc);
        out
    }
}

/// A filter that keeps everything changes nothing.
pub proof fn lemma_filter_keeps_all<T>(s: Seq<T>, p: spec_fn(T) -> bool)
    requires
        forall|j: int| 0 <= j < s.len() ==> p(#[trigger] s[j]),
    ensures
        s.filter(p) == s,
    decreases s.len(),
{
    reveal(Seq::filter);
    if s.len() == 0 {
        assert(s.filter(p) =~= s);
    } else {
        let init = s.drop_last();
        assert forall|j: int| 0 <= j < init.len() implies p(#[trigger] init[j]) by {
            assert(init[j] == s[j]);
        }
        lemma_filter_keeps_all(init, p);
        assert(p(s[s.len() - 1]));
        assert(init.push(s.last()) =~= s);
    }
}

/// A filter that drops exactly the element at `i` removes it.
pub proof fn lemma_filter_drops_one<T>(s: Seq<T>, p: spec_fn(T) -> bool, i: int)
    requires
        0 <= i < s.len(),
        !p(s[i]),
        forall|j: int| 0 <= j < s.len() && j != i ==> p(#[trigger] s[j]),
    ensures
        s.filter(p) == s.remove(i),
    decreases s.len(),
{
    reveal(Seq::filter);
    let init = s.drop_last();
    if i == s.len() - 1 {
        assert forall|j: int| 0 <= j < init.len() implies p(#[trigger] init[j]) by {
            assert(init[j] == s[j]);
        }
        lemma_filter_keeps_all(init, p);
        assert(s.remove(i) =~= init);
    } else {
        assert(init[i] == s[i]);
        assert forall|j: int| 0 <= j < init.len() && j != i implies p(#[trigger] init[j]) by {
            assert(init[j] == s[j]);
        }
        lemma_filter_drops_one(init, p, i);
        assert(p(s[s.len() - 1]));
        assert(init.remove(i).push(s.last()) =~= s.remove(i));
    }
}

impl LspCoordinator {
    /// Whether some open document lists client `k`.
    fn holding(&self, k: &String) -> (r: bool)
        ensures
            r == holds_any(self@.open_uris, k@),
    {
        let mut i: usize = 0;
        while i < self.open_uris.len()
            invariant
                i <= self@.open_uris.len(),
                forall|j: int| 0 <= j < i ==> !(#[trigger] self@.open_uris[j]).1.contains(k@),
            decreases self@.open_uris.len() - i,
        {
            assert(self@.open_uris[i as int].1 == str_views(self.open_uris@[i as int].1@));
            if contains_string(&self.open_uris[i].1, k) {
                return true;
            }
            i = i + 1;
        }
        false
    }

    /// Close `uri` for good (the buffer is deleted): every client holding
    /// it must be sent `didClose`, its diagnostics are dropped, it stops
    /// being current, and a client that no longer holds any document
    /// open must be shut down (see [`closed`]).
    pub fn close_uri(&mut self, uri: &str) -> (r: UriClosed)
        requires
            old(self).wf(),
        ensures
            final(self).wf(),
            final(self)@ == closed(old(self)@, uri@),
            str_views(r.did_close@) == holders(old(self)@.open_uris, uri@).filter(
                |k: Seq<char>| has_key(old(self)@.clients, k),
            ),
            str_views(r.shut_down@) == released(unlinked(old(self)@, uri@), holders(old(self)@.open_uris, uri@)),
    {
        let ghost v0 = self@;
        let u = uri.to_owned();
        // Nobody holds it open any more.
        let keys: Vec<String> = match self.find_uri(&u) {
            Some(i) => {
                let ghost before = self.open_uris@;
                let e = self.open_uris.remove(i);
                proof {
                    lemma_value_of(v0.open_uris, i as int);
                    assert(str_views(e.1@) == holders(v0.open_uris, uri@));
                    assert forall|j: int| 0 <= j < v0.open_uris.len() && j != i implies #[trigger] other_uri(uri@)(
                        v0.open_uris[j],
                    ) by {
                        if j < i {
                            assert(v0.open_uris[j].0 != v0.open_uris[i as int].0);
                        } else {
                            assert(v0.open_uris[i as int].0 != v0.open_uris[j].0);
                        }
                    }
                    lemma_filter_drops_one(v0.open_uris, other_uri(uri@), i as int);
                    assert(uri_entries(self.open_uris@) =~= uri_entries(before).remove(i as int));
                }
                e.1
            },
            None => {
                proof {
                    assert forall|j: int| 0 <= j < v0.open_uris.len() implies #[trigger] other_uri(uri@)(
                        v0.open_uris[j],
                    ) by {
                        assert(v0.open_uris[j].0 != uri@);
                    }
                    lemma_filter_keeps_all(v0.open_uris, other_uri(uri@));
                }
                let none: Vec<String> = Vec::new();
                assert(str_views(none@) =~= Seq::<Seq<char>>::empty());
                none
            },
        };
        let ghost held = str_views(keys@);
        assert(held == holders(v0.open_uris, uri@));
        // Whom to tell.
        let ghost pc = |k: Seq<char>| has_key(v0.clients, k);
        let mut notify: Vec<String> = Vec::new();
        let mut j: usize = 0;
        while j < keys.len()
            invariant
                j <= keys@.len(),
                held == str_views(keys@),
                self@.clients == v0.clients,
                pc == (|k: Seq<char>| has_key(v0.clients, k)),
                str_views(notify@) == held.take(j as int).filter(pc),
            decreases keys@.len() - j,
        {
            let k = &keys[j];
            assert(held[j as int] == k@);
            proof {
                assert(held.take(j + 1) =~= held.take(j as int).push(k@));
                lemma_filter_push(held.take(j as int), k@, pc);
            }
            if self.has_client(k.as_str()) {
                let ghost before = notify@;
                notify.push(k.clone());
                assert(str_views(notify@) =~= str_views(before).push(k@));
            }
            j = j + 1;
        }
        assert(held.take(held.len() as int) =~= held);
        // Its diagnostics.
        let mut diags: Vec<DiagEntry> = Vec::new();
        std::mem::swap(&mut diags, &mut self.diagnostics);
        let ghost pd = not_for(uri@);
        let ghost dall = diags@;
        let mut kept_diags: Vec<DiagEntry> = Vec::new();
        for e in it: diags.into_iter()
            invariant
                it.seq() == dall,
                u@ == uri@,
                pd == not_for(uri@),
                diag_entries(kept_diags@) == diag_entries(dall.take(it.index() as int)).filter(pd),
        {
            let ghost ev = DiagSlice { uri: e.uri@, client: e.client@, items: e.items@ };
            proof {
                assert(dall.take(it.index() + 1) =~= dall.take(it.index() as int).push(e));
                assert(diag_entries(dall.take(it.index() + 1)) =~= diag_entries(dall.take(it.index() as int)).push(ev));
                lemma_filter_push(diag_entries(dall.take(it.index() as int)), ev, pd);
            }
            if e.uri != u {
                let ghost before = kept_diags@;
                kept_diags.push(e);
                assert(diag_entries(kept_diags@) =~= diag_entries(before).push(ev));
            }
        }
        assert(dall.take(dall.len() as int) =~= dall);
        self.diagnostics = kept_diags;
        // No longer current.
        let is_current = match &self.current_uri {
            Some(c) => *c == u,
            None => false,
        };
        if is_current {
            self.current_uri = None;
            self.current_clients.clear();
            self.current_language = None;
        }
        let ghost w1 = unlinked(v0, uri@);
        proof {
            let v1 = self@;
            assert(v1.open_uris == w1.open_uris);
            assert(v1.diagnostics == w1.diagnostics);
            assert(v1.current_clients =~= w1.current_clients);
            assert(v1 == w1);
            lemma_filter_distinct(v0.open_uris, other_uri(uri@), |e: (Seq<char>, Seq<Seq<char>>)| e.0);
            lemma_filter_all(v0.open_uris, other_uri(uri@), |e: (Seq<char>, Seq<Seq<char>>)| e.1.len() > 0 && all_distinct(e.1));
            lemma_filter_distinct(v0.diagnostics, pd, |e: DiagSlice| (e.uri, e.client));
            lemma_filter_all(v0.diagnostics, pd, |e: DiagSlice| e.items.len() > 0);
            assert forall|a: int, b: int| 0 <= a < b < v1.diagnostics.len() implies
                !(v1.diagnostics[a].uri == v1.diagnostics[b].uri && v1.diagnostics[a].client == v1.diagnostics[b].client) by {
                assert((v1.diagnostics[a].uri, v1.diagnostics[a].client) != (v1.diagnostics[b].uri, v1.diagnostics[b].client));
            }
            assert forall|a: int| 0 <= a < v1.open_uris.len() implies #[trigger] v1.open_uris[a].1.len() > 0
                && all_distinct(v1.open_uris[a].1) by {
                let q = |e: (Seq<char>, Seq<Seq<char>>)| e.1.len() > 0 && all_distinct(e.1);
                assert(q(v1.open_uris[a]));
            }
            assert forall|a: int, b: int| 0 <= a < b < v1.open_uris.len() implies v1.open_uris[a].0 != v1.open_uris[b].0 by {
                let key = |e: (Seq<char>, Seq<Seq<char>>)| e.0;
                assert(key(v1.open_uris[a]) != key(v1.open_uris[b]));
            }
        }
        // Clients that hold nothing any more.
        let mut shut: Vec<String> = Vec::new();
        let mut n: usize = 0;
        while n < keys.len()
            invariant
                n <= keys@.len(),
                held == str_views(keys@),
                self.wf(),
                self@ == release(w1, held.take(n as int)),
                str_views(shut@) == released(w1, held.take(n as int)),
            decreases keys@.len() - n,
        {
            let k = &keys[n];
            assert(held[n as int] == k@);
            assert(held.take(n + 1).drop_last() =~= held.take(n as int));
            assert(held.take(n + 1).last() == k@);
            if !self.holding(k) {
                let had = self.drop_client(k);
                if had {
                    let ghost before = shut@;
                    shut.push(k.clone());
                    assert(str_views(shut@) =~= str_views(before).push(k@));
                }
            }
            n = n + 1;
        }
        assert(held.take(held.len() as int) =~= held);
        UriClosed { did_close: notify, shut_down: shut }
    }
}

// ────────────────────────────────────────────────────────────────────────
// Events and requests
// ────────────────────────────────────────────────────────────────────────

/// Something a client reported.
#[derive(Debug)]
pub enum LspEvent {
    /// `textDocument/publishDiagnostics`: the full list `client` now has
    /// for `uri` (empty: none).
    Diagnostics { client: String, uri: String, items: Vec<Diagnostic> },
    /// `window/showMessage`; level 1 is an error.
    Message { level: u64, text: String },
    /// The client's connection failed.
    Error { client: String, message: String },
    /// An answer to request `id` sent to `client` (its payload stays with
    /// the caller), with the server's error, if any.
    Response { client: String, id: u64, error: Option<String> },
}

/// What the caller must do about an event.
#[derive(Debug)]
pub enum LspEventOutcome {
    /// Nothing the user sees.
    Nothing,
    InfoMessage(String),
    ErrorMessage(String),
    /// An answer that belongs to an outstanding request of `group`:
    /// fold its payload into the group's result when `accumulate` (it was
    /// no error), and surface the group's merged result when `complete`
    /// (no other answer is outstanding).
    Response { group: u64, kind: LspRequestKind, client: String, accumulate: bool, complete: bool },
}

/// Whether request `id` to `client` is outstanding.
pub open spec fn has_pending(p: Seq<PendingView>, client: Seq<char>, id: u64) -> bool {
    exists|i: int| 0 <= i < p.len() && p[i].client == client && p[i].id == id
}

/// Where outstanding request `id` to `client` is stored.
pub open spec fn pending_at(p: Seq<PendingView>, client: Seq<char>, id: u64) -> int {
    choose|i: int| 0 <= i < p.len() && p[i].client == client && p[i].id == id
}

/// Whether group `g` is waiting for answers.
pub open spec fn has_group(gs: Seq<(u64, usize)>, g: u64) -> bool {
    exists|i: int| 0 <= i < gs.len() && gs[i].0 == g
}

/// Where group `g` is stored.
pub open spec fn group_at(gs: Seq<(u64, usize)>, g: u64) -> int {
    choose|i: int| 0 <= i < gs.len() && gs[i].0 == g
}

/// The state once request `id` to `client` was answered: it is no longer
/// outstanding, and its group waits for one answer less (and is
/// forgotten when that was the last).
pub open spec fn respond(v: LspView, client: Seq<char>, id: u64) -> LspView {
    if !has_pending(v.pending, client, id) {
        v
    } else {
        let i = pending_at(v.pending, client, id);
        let g = v.pending[i].group;
        let groups = if has_group(v.groups, g) {
            let gi = group_at(v.groups, g);
            if v.groups[gi].1 <= 1 {
                v.groups.remove(gi)
            } else {
                v.groups.update(gi, (g, (v.groups[gi].1 - 1) as usize))
            }
        } else {
            v.groups
        };
        LspView { pending: v.pending.remove(i), groups, ..v }
    }
}

/// The state once `client` published `items` for `uri`.
pub open spec fn published(v: LspView, client: Seq<char>, uri: Seq<char>, items: Seq<Diagnostic>) -> LspView {
    LspView { diagnostics: publish(v.diagnostics, uri, client, items), ..v }
}

/// `g + 1`, wrapping.
pub open spec fn next_id(g: u64) -> u64 {
    if g == u64::MAX { 0 } else { (g + 1) as u64 }
}

/// A request to fan out: the group its answers gather in, and the
/// clients to send it to.
pub struct FanOut {
    pub group: u64,
    pub clients: Vec<String>,
}

/// Outstanding requests once `(client, id)` was recorded for `group`
/// (replacing an outstanding request with the same client and id).
pub open spec fn put_pending(p: Seq<PendingView>, e: PendingView) -> Seq<PendingView> {
    if has_pending(p, e.client, e.id) {
        p.update(pending_at(p, e.client, e.id), e)
    } else {
        p.push(e)
    }
}

/// Outstanding requests once every `(client, id)` of `sent` was recorded.
pub open spec fn put_all(p: Seq<PendingView>, sent: Seq<(Seq<char>, u64)>, group: u64, kind: LspRequestKind) -> Seq<PendingView>
    decreases sent.len(),
{
    if sent.len() == 0 {
        p
    } else {
        put_pending(
            put_all(p, sent.drop_last(), group, kind),
            PendingView { client: sent.last().0, id: sent.last().1, group, kind },
        )
    }
}

/// Groups once group `g` waits for `n` answers (replacing a group with
/// the same id).
pub open spec fn put_group(gs: Seq<(u64, usize)>, g: u64, n: usize) -> Seq<(u64, usize)> {
    if has_group(gs, g) {
        gs.update(group_at(gs, g), (g, n))
    } else {
        gs.push((g, n))
    }
}

/// The client a single-client request goes to: `source` when it is
/// running, else the current document's first client when that one is.
pub open spec fn single_target_of(v: LspView, source: Seq<char>) -> Option<Seq<char>> {
    if has_key(v.clients, source) {
        Some(source)
    } else if v.current_clients.len() > 0 && has_key(v.clients, v.current_clients[0]) {
        Some(v.current_clients[0])
    } else {
        None
    }
}

impl LspCoordinator {
    /// Where request `id` to `client` is stored.
    fn find_pending(&self, client: &String, id: u64) -> (r: Option<usize>)
        requires
            self.wf(),
        ensures
            match r {
                Some(i) => i < self@.pending.len() && has_pending(self@.pending, client@, id)
                    && pending_at(self@.pending, client@, id) == i,
                None => !has_pending(self@.pending, client@, id),
            },
    {
        let ghost p = self@.pending;
        let mut i: usize = 0;
        while i < self.pending.len()
            invariant
                self.wf(),
                i <= p.len(),
                p == self@.pending,
                forall|j: int| 0 <= j < i ==> !(p[j].client == client@ && p[j].id == id),
            decreases p.len() - i,
        {
            if self.pending[i].client == *client && self.pending[i].id == id {
                proof {
                    assert(p[i as int].client == client@ && p[i as int].id == id);
                    let j = pending_at(p, client@, id);
                    if j < i {
                    } else if j > i {
                        assert(!(p[i as int].client == p[j].client && p[i as int].id == p[j].id));
                    }
                }
                return Some(i);
            }
            i = i + 1;
        }
        None
    }

    /// Where group `g` is stored.
    fn find_group(&self, g: u64) -> (r: Option<usize>)
        requires
            self.wf(),
        ensures
            match r {
                Some(i) => i < self@.groups.len() && has_group(self@.groups, g) && group_at(self@.groups, g) == i,
                None => !has_group(self@.groups, g),
            },
    {
        let mut i: usize = 0;
        while i < self.groups.len()
            invariant
                self.wf(),
                i <= self@.groups.len(),
                forall|j: int| 0 <= j < i ==> self@.groups[j].0 != g,
            decreases self@.groups.len() - i,
        {
            if self.groups[i].0 == g {
                proof {
                    let j = group_at(self@.groups, g);
                    if j < i {
                    } else if j > i {
                        assert(self@.groups[i as int].0 != self@.groups[j].0);
                    }
                }
                return Some(i);
            }
            i = i + 1;
        }
        None
    }

    /// Where the slice of `client` for `uri` is stored.
    fn find_slice(&self, uri: &String, client: &String) -> (r: Option<usize>)
        requires
            self.wf(),
        ensures
            match r {
                Some(i) => i < self@.diagnostics.len() && self@.diagnostics[i as int].uri == uri@
                    && self@.diagnostics[i as int].client == client@,
                None => !has_slice(self@.diagnostics, uri@, client@),
            },
    {
        let ghost d = self@.diagnostics;
        let mut i: usize = 0;
        while i < self.diagnostics.len()
            invariant
                i <= d.len(),
                d == self@.diagnostics,
                forall|j: int| 0 <= j < i ==> !(d[j].uri == uri@ && d[j].client == client@),
            decreases d.len() - i,
        {
            if self.diagnostics[i].uri == *uri && self.diagnostics[i].client == *client {
                return Some(i);
            }
            i = i + 1;
        }
        None
    }

    /// Record that `client` published `items` for `uri` (see [`publish`]).
    #[verifier::spinoff_prover]
    fn publish_diagnostics(&mut self, client: String, uri: String, items: Vec<Diagnostic>)
        requires
            old(self).wf(),
        ensures
            final(self).wf(),
            final(self)@ == published(old(self)@, client@, uri@, items@),
    {
        let ghost v0 = self@;
        let ghost d = v0.diagnostics;
        let found = self.find_slice(&uri, &client);
        let ghost raw = self.diagnostics@;
        let ghost slice = DiagSlice { uri: uri@, client: client@, items: items@ };
        match found {
            Some(i) => {
                proof {
                    assert(d[i as int].uri == uri@ && d[i as int].client == client@);
                    lemma_slice_at(d, i as int);
                }
                if items.len() == 0 {
                    self.diagnostics.remove(i);
                    proof {
                        assert(self@.diagnostics =~= d.remove(i as int));
                        let nd = self@.diagnostics;
                        assert forall|a: int, b: int| 0 <= a < b < nd.len() implies
                            !(nd[a].uri == nd[b].uri && nd[a].client == nd[b].client) by {
                            let oa = if a < i { a } else { a + 1 };
                            let ob = if b < i { b } else { b + 1 };
                            assert(nd[a] == d[oa] && nd[b] == d[ob]);
                        }
                        assert forall|a: int| 0 <= a < nd.len() implies #[trigger] nd[a].items.len() > 0 by {
                            let oa = if a < i { a } else { a + 1 };
                            assert(nd[a] == d[oa]);
                        }
                    }
                } else {
                    self.diagnostics.set(i, DiagEntry { uri, client, items });
                    proof {
                        assert(self@.diagnostics =~= d.update(i as int, slice));
                        let nd = self@.diagnostics;
                        assert forall|a: int, b: int| 0 <= a < b < nd.len() implies
                            !(nd[a].uri == nd[b].uri && nd[a].client == nd[b].client) by {
                            assert(!(d[a].uri == d[b].uri && d[a].client == d[b].client));
                        }
                    }
                }
            },
            None => {
                if items.len() > 0 {
                    self.diagnostics.push(DiagEntry { uri, client, items });
                    proof {
                        assert(self@.diagnostics =~= d.push(slice));
                        let nd = self@.diagnostics;
                        assert forall|a: int, b: int| 0 <= a < b < nd.len() implies
                            !(nd[a].uri == nd[b].uri && nd[a].client == nd[b].client) by {
                            if b == d.len() {
                                assert(nd[a] == d[a]);
                                assert(!(d[a].uri == uri@ && d[a].client == client@));
                            }
                        }
                        assert forall|a: int| 0 <= a < nd.len() implies #[trigger] nd[a].items.len() > 0 by {
                            if a < d.len() {
                                assert(nd[a] == d[a]);
                            }
                        }
                    }
                }
            },
        }
    }

    /// Take in what a client reported (see [`LspEvent`]): diagnostics are
    /// stored, a message is passed on, a failed client is dropped (an
    /// error for the user, unless it was already gone), and an answer is
    /// matched with its outstanding request.
    #[verifier::spinoff_prover]
    pub fn handle_event(&mut self, ev: LspEvent) -> (r: LspEventOutcome)
        requires
            old(self).wf(),
        ensures
            final(self).wf(),
            match ev {
                LspEvent::Diagnostics { client, uri, items } => final(self)@ == published(
                    old(self)@,
                    client@,
                    uri@,
                    items@,
                ) && r is Nothing,
                LspEvent::Message { level, text } => final(self)@ == old(self)@ && match r {
                    LspEventOutcome::ErrorMessage(m) => level == 1 && m@ == text@,
                    LspEventOutcome::InfoMessage(m) => level != 1 && m@ == text@,
                    _ => false,
                },
                LspEvent::Error { client, message } => if has_key(old(self)@.clients, client@) {
                    final(self)@ == dropped(old(self)@, client@) && match r {
                        LspEventOutcome::ErrorMessage(m) => m@ == "lsp: "@ + message@,
                        _ => false,
                    }
                } else {
                    final(self)@ == old(self)@ && r is Nothing
                },
                LspEvent::Response { client, id, error } => final(self)@ == respond(old(self)@, client@, id)
                    && if has_pending(old(self)@.pending, client@, id) && has_group(
                    old(self)@.groups,
                    old(self)@.pending[pending_at(old(self)@.pending, client@, id)].group,
                ) {
                    let pe = old(self)@.pending[pending_at(old(self)@.pending, client@, id)];
                    let gi = group_at(old(self)@.groups, pe.group);
                    match r {
                        LspEventOutcome::Response { group, kind, client: c, accumulate, complete } => group
                            == pe.group && kind == pe.kind && c@ == client@ && accumulate == (error is None)
                            && complete == (old(self)@.groups[gi].1 <= 1),
                        _ => false,
                    }
                } else {
                    r is Nothing
                },
            },
    {
        match ev {
            LspEvent::Diagnostics { client, uri, items } => {
                self.publish_diagnostics(client, uri, items);
                LspEventOutcome::Nothing
            },
            LspEvent::Message { level, text } => {
                if level == 1 {
                    LspEventOutcome::ErrorMessage(text)
                } else {
                    LspEventOutcome::InfoMessage(text)
                }
            },
            LspEvent::Error { client, message } => {
                if !self.has_client(client.as_str()) {
                    return LspEventOutcome::Nothing;
                }
                self.drop_client(&client);
                let mut m = String::new();
                crate::text::push_str(&mut m, "lsp: ");
                crate::text::push_str(&mut m, message.as_str());
                proof {
                    reveal_strlit("lsp: ");
                }
                assert(m@ =~= "lsp: "@ + message@);
                LspEventOutcome::ErrorMessage(m)
            },
            LspEvent::Response { client, id, error } => {
                let ghost v0 = self@;
                let pi = match self.find_pending(&client, id) {
                    None => return LspEventOutcome::Nothing,
                    Some(i) => i,
                };
                let ghost raw = self.pending@;
                let pe = self.pending.remove(pi);
                assert(self@.pending =~= v0.pending.remove(pi as int));
                assert(pe.group == v0.pending[pi as int].group && pe.kind == v0.pending[pi as int].kind);
                let group = pe.group;
                let accumulate = error.is_none();
                match self.find_group(group) {
                    None => LspEventOutcome::Nothing,
                    Some(gi) => {
                        let rem = self.groups[gi].1;
                        let complete = rem <= 1;
                        let ghost gs = self@.groups;
                        if complete {
                            self.groups.remove(gi);
                            proof {
                                let ng = self@.groups;
                                assert forall|a: int, b: int| 0 <= a < b < ng.len() implies ng[a].0 != ng[b].0 by {
                                    let oa = if a < gi { a } else { a + 1 };
                                    let ob = if b < gi { b } else { b + 1 };
                                    assert(ng[a] == gs[oa] && ng[b] == gs[ob]);
                                }
                                assert forall|a: int| 0 <= a < ng.len() implies #[trigger] ng[a].1 > 0 by {
                                    let oa = if a < gi { a } else { a + 1 };
                                    assert(ng[a] == gs[oa]);
                                }
                            }
                        } else {
                            self.groups.set(gi, (group, rem - 1));
                            proof {
                                let ng = self@.groups;
                                assert forall|a: int, b: int| 0 <= a < b < ng.len() implies ng[a].0 != ng[b].0 by {
                                    assert(gs[a].0 != gs[b].0);
                                }
                            }
                        }
                        proof {
                            let np = self@.pending;
                            assert forall|a: int, b: int| 0 <= a < b < np.len() implies
                                !(np[a].client == np[b].client && np[a].id == np[b].id) by {
                                let oa = if a < pi { a } else { a + 1 };
                                let ob = if b < pi { b } else { b + 1 };
                                assert(np[a] == v0.pending[oa] && np[b] == v0.pending[ob]);
                            }
                        }
                        LspEventOutcome::Response { group, kind: pe.kind, client, accumulate, complete }
                    },
                }
            },
        }
    }
}

/// The `(client, id)` views of sent requests.
pub open spec fn sent_views(v: Seq<(String, u64)>) -> Seq<(Seq<char>, u64)> {
    v.map_values(|e: (String, u64)| (e.0@, e.1))
}

impl LspCoordinator {
    fn record_pending(&mut self, e: PendingEntry)
        requires
            old(self).wf(),
        ensures
            final(self).wf(),
            final(self)@ == (LspView {
                pending: put_pending(old(self)@.pending, PendingView { client: e.client@, id: e.id, group: e.group, kind: e.kind }),
                ..old(self)@
            }),
    {
        let ghost v0 = self@;
        let ghost pv = PendingView { client: e.client@, id: e.id, group: e.group, kind: e.kind };
        match self.find_pending(&e.client, e.id) {
            Some(i) => {
                self.pending.set(i, e);
                proof {
                    assert(self@.pending =~= v0.pending.update(i as int, pv));
                    let np = self@.pending;
                    assert forall|a: int, b: int| 0 <= a < b < np.len() implies
                        !(np[a].client == np[b].client && np[a].id == np[b].id) by {
                        assert(!(v0.pending[a].client == v0.pending[b].client && v0.pending[a].id == v0.pending[b].id));
                    }
                }
            },
            None => {
                self.pending.push(e);
                proof {
                    assert(self@.pending =~= v0.pending.push(pv));
                    let np = self@.pending;
                    assert forall|a: int, b: int| 0 <= a < b < np.len() implies
                        !(np[a].client == np[b].client && np[a].id == np[b].id) by {
                        if b == v0.pending.len() {
                            assert(np[a] == v0.pending[a]);
                        }
                    }
                }
            },
        }
    }

    fn record_group(&mut self, g: u64, n: usize)
        requires
            old(self).wf(),
            n > 0,
        ensures
            final(self).wf(),
            final(self)@ == (LspView { groups: put_group(old(self)@.groups, g, n), ..old(self)@ }),
    {
        let ghost v0 = self@;
        match self.find_group(g) {
            Some(i) => {
                self.groups.set(i, (g, n));
                proof {
                    let ng = self@.groups;
                    assert forall|a: int, b: int| 0 <= a < b < ng.len() implies ng[a].0 != ng[b].0 by {
                        assert(v0.groups[a].0 != v0.groups[b].0);
                    }
                }
            },
            None => {
                self.groups.push((g, n));
                proof {
                    let ng = self@.groups;
                    assert forall|a: int, b: int| 0 <= a < b < ng.len() implies ng[a].0 != ng[b].0 by {
                        if b == v0.groups.len() {
                            assert(ng[a] == v0.groups[a]);
                        }
                    }
                    assert forall|a: int| 0 <= a < ng.len() implies #[trigger] ng[a].1 > 0 by {
                        if a < v0.groups.len() {
                            assert(ng[a] == v0.groups[a]);
                        }
                    }
                }
            },
        }
    }

    /// Start a request to every client of the current document: `None`
    /// (and nothing changes) when the document has no clients; else a new
    /// group, and the running clients to send the request to.
    pub fn fan_out_targets(&mut self) -> (r: Option<FanOut>)
        requires
            old(self).wf(),
        ensures
            final(self).wf(),
            old(self)@.current_clients.len() == 0 ==> r is None && final(self)@ == old(self)@,
            old(self)@.current_clients.len() > 0 ==> match r {
                Some(f) => f.group == old(self)@.next_group_id && str_views(f.clients@) == live_current(old(self)@)
                    && final(self)@ == (LspView { next_group_id: next_id(old(self)@.next_group_id), ..old(self)@ }),
                None => false,
            },
    {
        if self.current_clients.len() == 0 {
            return None;
        }
        let clients = self.live_current_clients();
        let group = self.next_group_id;
        self.next_group_id = if group == u64::MAX { 0 } else { group + 1 };
        Some(FanOut { group, clients })
    }

    /// Record the requests of a fan-out that were sent: each `(client,
    /// id)` in `sent` is outstanding for `group`, and when any was sent
    /// the group waits for that many answers.
    pub fn register_requests(&mut self, group: u64, kind: LspRequestKind, sent: Vec<(String, u64)>)
        requires
            old(self).wf(),
        ensures
            final(self).wf(),
            final(self)@ == (LspView {
                pending: put_all(old(self)@.pending, sent_views(sent@), group, kind),
                groups: if sent@.len() > 0 { put_group(old(self)@.groups, group, sent@.len() as usize) } else { old(self)@.groups },
                ..old(self)@
            }),
    {
        let ghost v0 = self@;
        let ghost sv = sent_views(sent@);
        let n = sent.len();
        let mut i: usize = 0;
        while i < n
            invariant
                self.wf(),
                n == sent@.len(),
                sv == sent_views(sent@),
                i <= n,
                self@ == (LspView { pending: put_all(v0.pending, sv.take(i as int), group, kind), ..v0 }),
            decreases n - i,
        {
            let e = PendingEntry { client: sent[i].0.clone(), id: sent[i].1, group, kind };
            proof {
                assert(sv.take(i + 1).drop_last() =~= sv.take(i as int));
                assert(sv.take(i + 1).last() == (sent@[i as int].0@, sent@[i as int].1));
            }
            self.record_pending(e);
            i = i + 1;
        }
        assert(sv.take(n as int) =~= sv);
        if n > 0 {
            self.record_group(group, n);
        }
    }

    /// The client a request tied to one client goes to (resolving an item
    /// needs the server that produced it): `source` when it is running,
    /// else the current document's first client when that one is running.
    pub fn single_target(&self, source: &str) -> (r: Option<String>)
        requires
            self.wf(),
        ensures
            match r {
                Some(k) => single_target_of(self@, source@) == Some(k@),
                None => single_target_of(self@, source@) is None,
            },
    {
        if self.has_client(source) {
            return Some(source.to_owned());
        }
        if self.current_clients.len() == 0 {
            return None;
        }
        let first = &self.current_clients[0];
        assert(self@.current_clients[0] == first@);
        if self.has_client(first.as_str()) {
            Some(first.clone())
        } else {
            None
        }
    }

    /// Record a request sent to one client: it gets a new group that waits
    /// for this one answer. Returns the group.
    pub fn register_single(&mut self, client: String, id: u64, kind: LspRequestKind) -> (g: u64)
        requires
            old(self).wf(),
        ensures
            final(self).wf(),
            g == old(self)@.next_group_id,
            final(self)@ == (LspView {
                pending: put_pending(old(self)@.pending, PendingView { client: client@, id, group: g, kind }),
                groups: put_group(old(self)@.groups, g, 1),
                next_group_id: next_id(g),
                ..old(self)@
            }),
    {
        let g = self.next_group_id;
        self.next_group_id = if g == u64::MAX { 0 } else { g + 1 };
        self.record_pending(PendingEntry { client, id, group: g, kind });
        self.record_group(g, 1);
        g
    }
}

// ────────────────────────────────────────────────────────────────────────
// Laws
// ────────────────────────────────────────────────────────────────────────

/// Attaching a client to the current document is idempotent.
pub proof fn law_add_current_client_idempotent(v: LspView, k: Seq<char>)
    ensures
        with_current(with_current(v, k), k) == with_current(v, k),
{
    if !v.current_clients.contains(k) {
        let c = v.current_clients.push(k);
        assert(c[c.len() - 1] == k);
        assert(c.contains(k));
    }
}

/// Once a client was pointed at a document it holds the document open:
/// pointing it there again never sends a second `didOpen`.
pub proof fn law_did_open_sent_once(v: LspView, k: Seq<char>, lang: Seq<char>, uri: Seq<char>)
    requires
        lsp_wf(v),
    ensures
        !opens(opened(v, k, lang, uri), k, uri),
{
    let w = opened(v, k, lang, uri);
    if opens(v, k, uri) {
        let u = v.open_uris;
        let nu = record_open(u, uri, k);
        assert(w.open_uris == nu);
        if has_key(u, uri) {
            let i = key_at(u, uri);
            assert(nu[i] == (uri, value_of(u, uri).push(k)));
            assert forall|a: int, b: int| 0 <= a < b < nu.len() implies nu[a].0 != nu[b].0 by {
                assert(u[a].0 != u[b].0);
            }
            lemma_value_of(nu, i);
            let l = value_of(u, uri).push(k);
            assert(l[l.len() - 1] == k);
        } else {
            let i = u.len() as int;
            assert(nu[i] == (uri, seq![k]));
            assert forall|a: int, b: int| 0 <= a < b < nu.len() implies nu[a].0 != nu[b].0 by {
                if b == i {
                    assert(nu[a] == u[a]);
                } else {
                    assert(u[a].0 != u[b].0);
                }
            }
            lemma_value_of(nu, i);
            assert(seq![k][0] == k);
        }
        assert(holders(w.open_uris, uri).contains(k));
    }
}

/// Every entry of a pruned list keeps a key of the list it came from.
proof fn lemma_prune_keys(u: Seq<(Seq<char>, Seq<Seq<char>>)>, k: Seq<char>, x: Seq<char>)
    requires
        has_key(prune_uris(u, k), x),
    ensures
        has_key(u, x),
    decreases u.len(),
{
    let init = u.drop_last();
    let rest = prune_uris(init, k);
    let pr = prune_uris(u, k);
    let i = choose|i: int| 0 <= i < pr.len() && pr[i].0 == x;
    if i < rest.len() {
        assert(pr[i] == rest[i]);
        lemma_prune_keys(init, k, x);
        let j = choose|j: int| 0 <= j < init.len() && init[j].0 == x;
        assert(u[j] == init[j]);
    } else {
        assert(u[u.len() - 1].0 == x);
    }
}

/// A document no slice is for has no merged diagnostics.
proof fn lemma_merged_empty(d: Seq<DiagSlice>, uri: Seq<char>)
    requires
        forall|i: int| 0 <= i < d.len() ==> (#[trigger] d[i]).uri != uri,
    ensures
        merged(d, uri).len() == 0,
    decreases d.len(),
{
    if d.len() > 0 {
        let init = d.drop_last();
        assert forall|i: int| 0 <= i < init.len() implies (#[trigger] init[i]).uri != uri by {
            assert(init[i] == d[i]);
        }
        lemma_merged_empty(init, uri);
        assert(d[d.len() - 1].uri != uri);
    }
}

/// Releasing clients never brings a document back or adds diagnostics
/// for it.
proof fn lemma_release_keeps_gone(w: LspView, keys: Seq<Seq<char>>, uri: Seq<char>)
    requires
        !has_key(w.open_uris, uri),
        forall|i: int| 0 <= i < w.diagnostics.len() ==> (#[trigger] w.diagnostics[i]).uri != uri,
    ensures
        !has_key(release(w, keys).open_uris, uri),
        forall|i: int| 0 <= i < release(w, keys).diagnostics.len() ==> (#[trigger] release(w, keys).diagnostics[i]).uri
            != uri,
    decreases keys.len(),
{
    if keys.len() > 0 {
        lemma_release_keeps_gone(w, keys.drop_last(), uri);
        let x = release(w, keys.drop_last());
        let k = keys.last();
        if !holds_any(x.open_uris, k) {
            let y = dropped(x, k);
            if has_key(y.open_uris, uri) {
                lemma_prune_keys(x.open_uris, k, uri);
            }
            assert forall|i: int| 0 <= i < y.diagnostics.len() implies (#[trigger] y.diagnostics[i]).uri != uri by {
                lemma_filter_from(x.diagnostics, not_from(k), i);
            }
        }
    }
}

/// Closing a document for good leaves nobody holding it open and no
/// diagnostics for it.
pub proof fn law_closed_uri_is_gone(v: LspView, uri: Seq<char>)
    ensures
        !has_key(closed(v, uri).open_uris, uri),
        merged(closed(v, uri).diagnostics, uri).len() == 0,
{
    let w = unlinked(v, uri);
    if has_key(w.open_uris, uri) {
        let i = choose|i: int| 0 <= i < w.open_uris.len() && w.open_uris[i].0 == uri;
        lemma_filter_from(v.open_uris, other_uri(uri), i);
    }
    assert forall|i: int| 0 <= i < w.diagnostics.len() implies (#[trigger] w.diagnostics[i]).uri != uri by {
        lemma_filter_from(v.diagnostics, not_for(uri), i);
    }
    lemma_release_keeps_gone(w, holders(v.open_uris, uri), uri);
    lemma_merged_empty(closed(v, uri).diagnostics, uri);
}

/// A dropped client leaves no trace: it is not running, not a client of
/// the current document, holds no document open, has no diagnostics and
/// no outstanding request.
pub proof fn law_dropped_client_leaves_no_trace(v: LspView, k: Seq<char>)
    requires
        lsp_wf(v),
    ensures
        !has_key(dropped(v, k).clients, k),
        !dropped(v, k).current_clients.contains(k),
        !holds_any(dropped(v, k).open_uris, k),
        forall|i: int| 0 <= i < dropped(v, k).diagnostics.len() ==> (#[trigger] dropped(v, k).diagnostics[i]).client != k,
        forall|i: int| 0 <= i < dropped(v, k).pending.len() ==> (#[trigger] dropped(v, k).pending[i]).client != k,
{
    let d = dropped(v, k);
    if has_key(d.clients, k) {
        let i = choose|i: int| 0 <= i < d.clients.len() && d.clients[i].0 == k;
        lemma_filter_from(v.clients, other_client(k), i);
    }
    if d.current_clients.contains(k) {
        let i = choose|i: int| 0 <= i < d.current_clients.len() && d.current_clients[i] == k;
        lemma_filter_from(v.current_clients, not_key(k), i);
    }
    lemma_prune_uris(v.open_uris, k);
    assert forall|i: int| 0 <= i < d.diagnostics.len() implies (#[trigger] d.diagnostics[i]).client != k by {
        lemma_filter_from(v.diagnostics, not_from(k), i);
    }
    assert forall|i: int| 0 <= i < d.pending.len() implies (#[trigger] d.pending[i]).client != k by {
        lemma_filter_from(v.pending, not_sent_to(k), i);
    }
}

/// Publishing is per client and document: the publisher's slice for the
/// document becomes the published list (none when it is empty), and
/// every other slice stays as it was.
pub proof fn law_publish_is_per_client(
    d: Seq<DiagSlice>,
    uri: Seq<char>,
    client: Seq<char>,
    items: Seq<Diagnostic>,
    u2: Seq<char>,
    c2: Seq<char>,
)
    requires
        forall|i: int, j: int| 0 <= i < j < d.len() ==> !(d[i].uri == d[j].uri && d[i].client == d[j].client),
    ensures
        has_slice(publish(d, uri, client, items), uri, client) == (items.len() > 0),
        items.len() > 0 ==> publish(d, uri, client, items)[slice_at(publish(d, uri, client, items), uri, client)].items
            == items,
        !(u2 == uri && c2 == client) ==> has_slice(publish(d, uri, client, items), u2, c2) == has_slice(d, u2, c2),
        !(u2 == uri && c2 == client) && has_slice(d, u2, c2) ==> publish(d, uri, client, items)[slice_at(
            publish(d, uri, client, items),
            u2,
            c2,
        )] == d[slice_at(d, u2, c2)],
{
    let n = publish(d, uri, client, items);
    // The new list keeps (document, client) pairs apart.
    if has_slice(d, uri, client) {
        let i = slice_at(d, uri, client);
        if items.len() == 0 {
            assert forall|a: int, b: int| 0 <= a < b < n.len() implies !(n[a].uri == n[b].uri && n[a].client == n[b].client) by {
                let oa = if a < i { a } else { a + 1 };
                let ob = if b < i { b } else { b + 1 };
                assert(n[a] == d[oa] && n[b] == d[ob]);
            }
        } else {
            assert forall|a: int, b: int| 0 <= a < b < n.len() implies !(n[a].uri == n[b].uri && n[a].client == n[b].client) by {
                assert(!(d[a].uri == d[b].uri && d[a].client == d[b].client));
            }
        }
    } else if items.len() > 0 {
        assert forall|a: int, b: int| 0 <= a < b < n.len() implies !(n[a].uri == n[b].uri && n[a].client == n[b].client) by {
            if b == d.len() {
                assert(n[a] == d[a]);
            }
        }
    }
    // The publisher's own slice.
    if items.len() > 0 {
        let i = if has_slice(d, uri, client) { slice_at(d, uri, client) } else { d.len() as int };
        assert(n[i] == DiagSlice { uri, client, items });
        lemma_slice_at(n, i);
    } else if has_slice(n, uri, client) {
        let j = slice_at(n, uri, client);
        if has_slice(d, uri, client) {
            let i = slice_at(d, uri, client);
            let oj = if j < i { j } else { j + 1 };
            assert(n[j] == d[oj]);
            lemma_slice_at(d, oj);
        } else {
            assert(n[j] == d[j]);
        }
    }
    // Everybody else's.
    if !(u2 == uri && c2 == client) {
        if has_slice(d, u2, c2) {
            let j = slice_at(d, u2, c2);
            let nj = if has_slice(d, uri, client) && items.len() == 0 && j > slice_at(d, uri, client) { j - 1 } else { j };
            if has_slice(d, uri, client) && items.len() == 0 {
                let i = slice_at(d, uri, client);
                assert(j != i);
                assert(n[nj] == d[j]);
            } else {
                assert(n[nj] == d[j]);
            }
            lemma_slice_at(n, nj);
        }
        if has_slice(n, u2, c2) {
            let j = slice_at(n, u2, c2);
            if has_slice(d, uri, client) && items.len() == 0 {
                let i = slice_at(d, uri, client);
                let oj = if j < i { j } else { j + 1 };
                assert(n[j] == d[oj]);
            } else if j < d.len() {
                assert(n[j] == d[j]);
            }
        }
    }
}

/// `s` is in `le` order.
pub open spec fn sorted_by<T>(s: Seq<T>, le: spec_fn(T, T) -> bool) -> bool {
    forall|i: int, j: int| 0 <= i < j < s.len() ==> le(s[i], s[j])
}

/// `le` is a total preorder.
pub open spec fn total_preorder<T>(le: spec_fn(T, T) -> bool) -> bool {
    &&& forall|a: T, b: T| #[trigger] le(a, b) || le(b, a)
    &&& forall|a: T, b: T, c: T| #[trigger] le(a, b) && #[trigger] le(b, c) ==> le(a, c)
}

proof fn lemma_insert_by_elems<T>(s: Seq<T>, x: T, le: spec_fn(T, T) -> bool)
    ensures
        insert_by(s, x, le).to_multiset() == s.to_multiset().insert(x),
        forall|i: int| 0 <= i < insert_by(s, x, le).len() ==> (#[trigger] insert_by(s, x, le)[i] == x || s.contains(
            insert_by(s, x, le)[i],
        )),
    decreases s.len(),
{
    broadcast use vstd::seq_lib::group_to_multiset_ensures;
    let r = insert_by(s, x, le);
    if s.len() == 0 {
        assert(seq![x] =~= Seq::<T>::empty().push(x));
        assert(r.to_multiset() =~= s.to_multiset().insert(x));
    } else if le(s.last(), x) {
        assert forall|i: int| 0 <= i < r.len() implies (#[trigger] r[i] == x || s.contains(r[i])) by {
            if i < s.len() {
                assert(r[i] == s[i]);
            }
        }
    } else {
        let init = s.drop_last();
        lemma_insert_by_elems(init, x, le);
        let ri = insert_by(init, x, le);
        assert(init.push(s.last()) =~= s);
        assert(r.to_multiset() =~= s.to_multiset().insert(x)) by {
            assert(r == ri.push(s.last()));
            assert(ri.push(s.last()).to_multiset() =~= ri.to_multiset().insert(s.last()));
            assert(init.push(s.last()).to_multiset() =~= init.to_multiset().insert(s.last()));
        }
        assert forall|i: int| 0 <= i < r.len() implies (#[trigger] r[i] == x || s.contains(r[i])) by {
            if i < ri.len() {
                assert(r[i] == ri[i]);
                if r[i] != x {
                    let w = choose|w: int| 0 <= w < init.len() && init[w] == ri[i];
                    assert(s[w] == init[w]);
                }
            } else {
                assert(r[i] == s[s.len() - 1]);
            }
        }
    }
}

proof fn lemma_insert_by_sorted<T>(s: Seq<T>, x: T, le: spec_fn(T, T) -> bool)
    requires
        sorted_by(s, le),
        total_preorder(le),
    ensures
        sorted_by(insert_by(s, x, le), le),
    decreases s.len(),
{
    let r = insert_by(s, x, le);
    if s.len() == 0 {
    } else if le(s.last(), x) {
        assert forall|i: int, j: int| 0 <= i < j < r.len() implies le(r[i], r[j]) by {
            if j == s.len() {
                assert(r[i] == s[i]);
                if i < s.len() - 1 {
                    assert(le(s[i], s[s.len() - 1]));
                }
            } else {
                assert(r[i] == s[i] && r[j] == s[j]);
            }
        }
    } else {
        let init = s.drop_last();
        let last = s.last();
        assert(sorted_by(init, le)) by {
            assert forall|i: int, j: int| 0 <= i < j < init.len() implies le(init[i], init[j]) by {
                assert(init[i] == s[i] && init[j] == s[j]);
            }
        }
        lemma_insert_by_sorted(init, x, le);
        lemma_insert_by_elems(init, x, le);
        let ri = insert_by(init, x, le);
        assert(le(last, x) || le(x, last));
        assert forall|i: int, j: int| 0 <= i < j < r.len() implies le(r[i], r[j]) by {
            if j == ri.len() {
                assert(r[j] == last);
                assert(r[i] == ri[i]);
                if ri[i] != x {
                    let w = choose|w: int| 0 <= w < init.len() && init[w] == ri[i];
                    assert(s[w] == init[w]);
                    assert(le(s[w], s[s.len() - 1]));
                }
            } else {
                assert(r[i] == ri[i] && r[j] == ri[j]);
            }
        }
    }
}

/// Sorting by a total preorder yields a sorted sequence with the same
/// elements.
pub proof fn law_sort_by_sorts<T>(s: Seq<T>, le: spec_fn(T, T) -> bool)
    requires
        total_preorder(le),
    ensures
        sorted_by(sort_by(s, le), le),
        sort_by(s, le).to_multiset() == s.to_multiset(),
    decreases s.len(),
{
    broadcast use vstd::seq_lib::group_to_multiset_ensures;
    if s.len() > 0 {
        let init = s.drop_last();
        law_sort_by_sorts(init, le);
        lemma_insert_by_sorted(sort_by(init, le), s.last(), le);
        lemma_insert_by_elems(sort_by(init, le), s.last(), le);
        assert(init.push(s.last()) =~= s);
    } else {
        assert(sort_by(s, le) == s);
    }
}

/// Diagnostics come out in position order, none lost or added.
pub proof fn law_diagnostics_sorted(s: Seq<Diagnostic>)
    ensures
        sorted_by(sort_diags(s), diag_order()),
        sort_diags(s).to_multiset() == s.to_multiset(),
{
    let le = diag_order();
    assert forall|a: Diagnostic, b: Diagnostic| #[trigger] le(a, b) || le(b, a) by {}
    assert forall|a: Diagnostic, b: Diagnostic, c: Diagnostic| #[trigger] le(a, b) && #[trigger] le(b, c) implies le(a, c) by {}
    law_sort_by_sorts(s, le);
}

proof fn lemma_lex_asym(a: Seq<char>, b: Seq<char>)
    ensures
        !(lex_lt(a, b) && lex_lt(b, a)),
    decreases a.len(),
{
    if a.len() > 0 && b.len() > 0 && a[0] == b[0] {
        lemma_lex_asym(a.skip(1), b.skip(1));
    }
}

proof fn lemma_lex_total(a: Seq<char>, b: Seq<char>)
    ensures
        a == b || lex_lt(a, b) || lex_lt(b, a),
    decreases a.len(),
{
    if a.len() > 0 && b.len() > 0 && a[0] == b[0] {
        lemma_lex_total(a.skip(1), b.skip(1));
        if a.skip(1) == b.skip(1) {
            assert(a =~= seq![a[0]] + a.skip(1));
            assert(b =~= seq![b[0]] + b.skip(1));
        }
    } else if a.len() == 0 && b.len() == 0 {
        assert(a =~= b);
    }
}

proof fn lemma_lex_trans(a: Seq<char>, b: Seq<char>, c: Seq<char>)
    requires
        lex_lt(a, b),
        lex_lt(b, c),
    ensures
        lex_lt(a, c),
    decreases a.len(),
{
    if a.len() > 0 && b.len() > 0 && c.len() > 0 && a[0] == b[0] && b[0] == c[0] {
        lemma_lex_trans(a.skip(1), b.skip(1), c.skip(1));
    }
}

/// Name order ([`lex_le`]) is a total preorder.
pub proof fn lemma_lex_order()
    ensures
        total_preorder(lex_order()),
{
    let le = lex_order();
    assert forall|a: Seq<char>, b: Seq<char>| #[trigger] le(a, b) || le(b, a) by {
        lemma_lex_asym(a, b);
    }
    assert forall|a: Seq<char>, b: Seq<char>, c: Seq<char>| #[trigger] le(a, b) && #[trigger] le(b, c) implies le(a, c) by {
        lemma_lex_total(a, b);
        lemma_lex_total(b, c);
        if a != b && b != c {
            lemma_lex_asym(a, b);
            lemma_lex_asym(b, c);
            lemma_lex_trans(a, b, c);
            lemma_lex_asym(a, c);
        }
    }
}

proof fn lemma_uris_of_distinct(d: Seq<DiagSlice>)
    ensures
        all_distinct(uris_of(d)),
    decreases d.len(),
{
    if d.len() > 0 {
        lemma_uris_of_distinct(d.drop_last());
        let u = uris_of(d.drop_last());
        let x = d.last().uri;
        if !u.contains(x) {
            let r = u.push(x);
            assert forall|i: int, j: int| 0 <= i < j < r.len() implies r[i] != r[j] by {
                if j == u.len() {
                    assert(r[i] == u[i]);
                } else {
                    assert(r[i] == u[i] && r[j] == u[j]);
                }
            }
        }
    }
}

/// The workspace listing is in name order and names each document that
/// has diagnostics once.
pub proof fn law_all_diagnostics_in_name_order(d: Seq<DiagSlice>)
    ensures
        sorted_by(sort_by(uris_of(d), lex_order()), lex_order()),
        sort_by(uris_of(d), lex_order()).to_multiset() == uris_of(d).to_multiset(),
        all_distinct(uris_of(d)),
        all_diags(d).len() == uris_of(d).len(),
{
    broadcast use vstd::seq_lib::group_to_multiset_ensures;
    lemma_lex_order();
    law_sort_by_sorts(uris_of(d), lex_order());
    lemma_uris_of_distinct(d);
    let sorted = sort_by(uris_of(d), lex_order());
    assert(sorted.len() == sorted.to_multiset().len());
    assert(uris_of(d).len() == uris_of(d).to_multiset().len());
}

// ────────────────────────────────────────────────────────────────────────
// Workspace edits
// ────────────────────────────────────────────────────────────────────────

/// One text replacement in a document.
#[derive(Debug)]
pub struct TextEdit {
    pub range: Range,
    pub new_text: String,
}

/// What applying a workspace edit came to: the current buffer's edits
/// (for the caller to apply with undo), how many documents and how many
/// edits it held.
#[derive(Debug)]
pub struct WorkspaceEditResult {
    pub current_buffer_edits: Vec<TextEdit>,
    pub files_touched: usize,
    pub total_edits: usize,
}

/// How many edits the changes hold in all.
pub open spec fn total_edit_count(changes: Seq<(String, Vec<TextEdit>)>) -> nat
    decreases changes.len(),
{
    if changes.len() == 0 {
        0
    } else {
        total_edit_count(changes.drop_last()) + changes.last().1@.len()
    }
}

/// The edits for document `cur` (the last entry for it; none without
/// one).
pub open spec fn edits_for(changes: Seq<(String, Vec<TextEdit>)>, cur: Option<Seq<char>>) -> Seq<TextEdit>
    decreases changes.len(),
{
    if changes.len() == 0 {
        Seq::empty()
    } else if cur == Some(changes.last().0@) {
        changes.last().1@
    } else {
        edits_for(changes.drop_last(), cur)
    }
}

/// Every entry but the current document's.
pub open spec fn not_current(cur: Option<Seq<char>>) -> spec_fn((String, Vec<TextEdit>)) -> bool {
    |e: (String, Vec<TextEdit>)| cur != Some(e.0@)
}

impl LspCoordinator {
    /// Split a workspace edit (its per-document edit lists): the current
    /// document's edits go into the result for the caller to apply to the
    /// buffer, every other document's edits are returned, in order, for
    /// the caller to write to disk; the result also counts the documents
    /// and the edits.
    pub fn split_workspace_edit(&self, changes: Vec<(String, Vec<TextEdit>)>) -> (r: (
        WorkspaceEditResult,
        Vec<(String, Vec<TextEdit>)>,
    ))
        requires
            total_edit_count(changes@) <= usize::MAX,
        ensures
            r.0.files_touched == changes@.len(),
            r.0.total_edits == total_edit_count(changes@),
            r.0.current_buffer_edits@ == edits_for(changes@, self@.current_uri),
            r.1@ == changes@.filter(not_current(self@.current_uri)),
    {
        let ghost all = changes@;
        let ghost cur = self@.current_uri;
        let files_touched = changes.len();
        let mut current_buffer_edits: Vec<TextEdit> = Vec::new();
        let mut total_edits: usize = 0;
        let mut others: Vec<(String, Vec<TextEdit>)> = Vec::new();
        for e in it: changes.into_iter()
            invariant
                it.seq() == all,
                cur == self@.current_uri,
                total_edit_count(all) <= usize::MAX,
                total_edits == total_edit_count(all.take(it.index() as int)),
                current_buffer_edits@ == edits_for(all.take(it.index() as int), cur),
                others@ == all.take(it.index() as int).filter(not_current(cur)),
        {
            let ghost pre = all.take(it.index() as int);
            proof {
                assert(all.take(it.index() + 1) =~= pre.push(e));
                assert(pre.push(e).drop_last() =~= pre);
                lemma_filter_push(pre, e, not_current(cur));
                lemma_total_edit_count_prefix(all, it.index() + 1);
            }
            total_edits = total_edits + e.1.len();
            let is_current = match &self.current_uri {
                Some(c) => *c == e.0,
                None => false,
            };
            if is_current {
                current_buffer_edits = e.1;
            } else {
                others.push(e);
            }
        }
        assert(all.take(all.len() as int) =~= all);
        (WorkspaceEditResult { current_buffer_edits, files_touched, total_edits }, others)
    }
}

/// A prefix holds no more edits than the whole.
proof fn lemma_total_edit_count_prefix(all: Seq<(String, Vec<TextEdit>)>, n: int)
    requires
        0 <= n <= all.len(),
    ensures
        total_edit_count(all.take(n)) <= total_edit_count(all),
    decreases all.len() - n,
{
    if n < all.len() {
        lemma_total_edit_count_prefix(all, n + 1);
        assert(all.take(n + 1).drop_last() =~= all.take(n));
    } else {
        assert(all.take(n) =~= all);
    }
}

// ────────────────────────────────────────────────────────────────────────
// Fan-out bookkeeping
// ────────────────────────────────────────────────────────────────────────

/// How many outstanding requests belong to group `g`.
pub open spec fn group_count(p: Seq<PendingView>, g: u64) -> nat
    decreases p.len(),
{
    if p.len() == 0 {
        0
    } else {
        group_count(p.drop_last(), g) + if p.last().group == g { 1nat } else { 0nat }
    }
}

/// Each group waits for exactly as many answers as it has outstanding
/// requests, and every outstanding request belongs to a waiting group.
pub open spec fn groups_consistent(v: LspView) -> bool {
    &&& forall|i: int| 0 <= i < v.groups.len() ==> (#[trigger] v.groups[i]).1 == group_count(v.pending, v.groups[i].0)
    &&& forall|j: int| 0 <= j < v.pending.len() ==> has_group(v.groups, (#[trigger] v.pending[j]).group)
}

proof fn lemma_group_count_push(p: Seq<PendingView>, x: PendingView, g: u64)
    ensures
        group_count(p.push(x), g) == group_count(p, g) + if x.group == g { 1nat } else { 0nat },
{
    assert(p.push(x).drop_last() =~= p);
}

proof fn lemma_group_count_remove(p: Seq<PendingView>, i: int, g: u64)
    requires
        0 <= i < p.len(),
    ensures
        group_count(p, g) == group_count(p.remove(i), g) + if p[i].group == g { 1nat } else { 0nat },
    decreases p.len(),
{
    let init = p.drop_last();
    if i == p.len() - 1 {
        assert(p.remove(i) =~= init);
    } else {
        lemma_group_count_remove(init, i, g);
        assert(init.remove(i).push(p.last()) =~= p.remove(i));
        lemma_group_count_push(init.remove(i), p.last(), g);
        assert(init[i] == p[i]);
    }
}

proof fn lemma_group_count_positive(p: Seq<PendingView>, j: int)
    requires
        0 <= j < p.len(),
    ensures
        group_count(p, p[j].group) > 0,
    decreases p.len(),
{
    if j < p.len() - 1 {
        lemma_group_count_positive(p.drop_last(), j);
        assert(p.drop_last()[j] == p[j]);
    }
}

proof fn lemma_group_count_dropped(p: Seq<PendingView>, k: Seq<char>, g: u64)
    ensures
        group_count(p.filter(not_sent_to(k)), g) + dead_count(p, k, g) == group_count(p, g),
    decreases p.len(),
{
    reveal(Seq::filter);
    if p.len() > 0 {
        let init = p.drop_last();
        lemma_group_count_dropped(init, k, g);
        assert(init.push(p.last()) =~= p);
        lemma_filter_push(init, p.last(), not_sent_to(k));
        lemma_group_count_push(init.filter(not_sent_to(k)), p.last(), g);
    }
}

/// A group no request belongs to has a count of zero.
proof fn lemma_group_count_absent(p: Seq<PendingView>, g: u64)
    requires
        forall|j: int| 0 <= j < p.len() ==> (#[trigger] p[j]).group != g,
    ensures
        group_count(p, g) == 0,
    decreases p.len(),
{
    if p.len() > 0 {
        let init = p.drop_last();
        assert forall|j: int| 0 <= j < init.len() implies (#[trigger] init[j]).group != g by {
            assert(init[j] == p[j]);
        }
        lemma_group_count_absent(init, g);
        assert(p[p.len() - 1].group != g);
    }
}

/// Where a settled group came from.
proof fn lemma_settle_entry(gs: Seq<(u64, usize)>, p: Seq<PendingView>, k: Seq<char>, i: int)
    requires
        0 <= i < settle(gs, p, k).len(),
        forall|a: int| 0 <= a < gs.len() ==> #[trigger] gs[a].1 > 0,
    ensures
        exists|j: int|
            0 <= j < gs.len() && gs[j].0 == settle(gs, p, k)[i].0 && gs[j].1 > dead_count(p, k, gs[j].0)
                && settle(gs, p, k)[i].1 == gs[j].1 - dead_count(p, k, gs[j].0),
    decreases gs.len(),
{
    let init = gs.drop_last();
    let r = settle(init, p, k);
    let e = gs.last();
    assert forall|a: int| 0 <= a < init.len() implies #[trigger] init[a].1 > 0 by {
        assert(init[a] == gs[a]);
    }
    if i < r.len() {
        assert(settle(gs, p, k)[i] == r[i]);
        lemma_settle_entry(init, p, k, i);
        let j = choose|j: int|
            0 <= j < init.len() && init[j].0 == r[i].0 && init[j].1 > dead_count(p, k, init[j].0) && r[i].1 == init[j].1
                - dead_count(p, k, init[j].0);
        assert(gs[j] == init[j]);
    } else {
        assert(gs[gs.len() - 1] == e);
    }
}

/// Where a group that survives settling ends up.
proof fn lemma_settle_keeps(gs: Seq<(u64, usize)>, p: Seq<PendingView>, k: Seq<char>, j: int)
    requires
        0 <= j < gs.len(),
        gs[j].1 > dead_count(p, k, gs[j].0),
    ensures
        exists|i: int| 0 <= i < settle(gs, p, k).len() && settle(gs, p, k)[i].0 == gs[j].0,
    decreases gs.len(),
{
    let init = gs.drop_last();
    let r = settle(init, p, k);
    if j < gs.len() - 1 {
        assert(init[j] == gs[j]);
        lemma_settle_keeps(init, p, k, j);
        let i = choose|i: int| 0 <= i < r.len() && r[i].0 == init[j].0;
        assert(settle(gs, p, k)[i] == r[i]);
    } else {
        assert(settle(gs, p, k)[r.len() as int].0 == gs[j].0);
    }
}

/// Answering a request keeps every group's count in step with its
/// outstanding requests.
pub proof fn law_answer_keeps_groups_consistent(v: LspView, client: Seq<char>, id: u64)
    requires
        lsp_wf(v),
        groups_consistent(v),
    ensures
        groups_consistent(respond(v, client, id)),
{
    if has_pending(v.pending, client, id) {
        let i = pending_at(v.pending, client, id);
        let g = v.pending[i].group;
        let w = respond(v, client, id);
        let np = v.pending.remove(i);
        assert(has_group(v.groups, g));
        let gi = group_at(v.groups, g);
        assert forall|x: u64| true implies group_count(v.pending, x) == group_count(np, x) + if g == x { 1nat } else { 0nat } by {
            lemma_group_count_remove(v.pending, i, x);
        }
        assert forall|a: int| 0 <= a < w.groups.len() implies (#[trigger] w.groups[a]).1 == group_count(w.pending, w.groups[a].0) by {
            if v.groups[gi].1 <= 1 {
                let oa = if a < gi { a } else { a + 1 };
                assert(w.groups[a] == v.groups[oa]);
                assert(v.groups[oa].0 != v.groups[gi].0);
                assert(group_count(v.pending, v.groups[oa].0) == group_count(np, v.groups[oa].0));
            } else {
                if a == gi {
                    assert(w.groups[a] == (g, (v.groups[gi].1 - 1) as usize));
                } else {
                    assert(w.groups[a] == v.groups[a]);
                    assert(v.groups[a].0 != v.groups[gi].0);
                }
            }
        }
        assert forall|j: int| 0 <= j < w.pending.len() implies has_group(w.groups, (#[trigger] w.pending[j]).group) by {
            let oj = if j < i { j } else { j + 1 };
            assert(w.pending[j] == v.pending[oj]);
            let x = v.pending[oj].group;
            assert(has_group(v.groups, x));
            let xi = choose|xi: int| 0 <= xi < v.groups.len() && v.groups[xi].0 == x;
            if v.groups[gi].1 <= 1 {
                if xi == gi {
                    // The group is gone only when this was its last request.
                    assert(v.groups[gi].1 == group_count(v.pending, g));
                    lemma_group_count_positive(np, j);
                    assert(np[j] == v.pending[oj]);
                    assert(false);
                } else {
                    let na = if xi < gi { xi } else { xi - 1 };
                    assert(w.groups[na] == v.groups[xi]);
                }
            } else {
                if xi == gi {
                    assert(w.groups[gi].0 == x);
                } else {
                    assert(w.groups[xi] == v.groups[xi]);
                }
            }
        }
    }
}

/// Dropping a client keeps every group's count in step with its
/// outstanding requests.
pub proof fn law_drop_keeps_groups_consistent(v: LspView, k: Seq<char>)
    requires
        lsp_wf(v),
        groups_consistent(v),
    ensures
        groups_consistent(dropped(v, k)),
{
    let w = dropped(v, k);
    assert forall|a: int| 0 <= a < w.groups.len() implies (#[trigger] w.groups[a]).1 == group_count(w.pending, w.groups[a].0) by {
        lemma_settle_entry(v.groups, v.pending, k, a);
        let j = choose|j: int|
            0 <= j < v.groups.len() && v.groups[j].0 == w.groups[a].0 && v.groups[j].1 > dead_count(v.pending, k, v.groups[j].0)
                && w.groups[a].1 == v.groups[j].1 - dead_count(v.pending, k, v.groups[j].0);
        lemma_group_count_dropped(v.pending, k, v.groups[j].0);
    }
    assert forall|j: int| 0 <= j < w.pending.len() implies has_group(w.groups, (#[trigger] w.pending[j]).group) by {
        lemma_filter_from(v.pending, not_sent_to(k), j);
        let x = w.pending[j].group;
        let oj = choose|oj: int| 0 <= oj < v.pending.len() && v.pending[oj] == w.pending[j];
        assert(has_group(v.groups, x));
        let gi = choose|gi: int| 0 <= gi < v.groups.len() && v.groups[gi].0 == x;
        lemma_group_count_dropped(v.pending, k, x);
        lemma_group_count_positive(w.pending, j);
        lemma_settle_keeps(v.groups, v.pending, k, gi);
    }
}

/// Registering the requests of a fresh group keeps every group's count in
/// step with its outstanding requests.
pub proof fn law_register_keeps_groups_consistent(
    v: LspView,
    g: u64,
    kind: LspRequestKind,
    sent: Seq<(Seq<char>, u64)>,
)
    requires
        lsp_wf(v),
        groups_consistent(v),
        !has_group(v.groups, g),
        0 < sent.len() <= usize::MAX,
        forall|a: int, b: int| 0 <= a < b < sent.len() ==> sent[a] != sent[b],
        forall|a: int| 0 <= a < sent.len() ==> !has_pending(v.pending, (#[trigger] sent[a]).0, sent[a].1),
    ensures
        groups_consistent(
            LspView {
                pending: put_all(v.pending, sent, g, kind),
                groups: put_group(v.groups, g, sent.len() as usize),
                ..v
            },
        ),
{
    lemma_put_all_fresh(v.pending, sent, g, kind);
    let np = put_all(v.pending, sent, g, kind);
    let ng = put_group(v.groups, g, sent.len() as usize);
    assert(ng == v.groups.push((g, sent.len() as usize)));
    assert forall|j: int| 0 <= j < v.pending.len() implies (#[trigger] v.pending[j]).group != g by {
        assert(has_group(v.groups, v.pending[j].group));
    }
    assert forall|a: int| 0 <= a < ng.len() implies (#[trigger] ng[a]).1 == group_count(np, ng[a].0) by {
        lemma_group_count_fresh(v.pending, sent, g, kind, ng[a].0);
        if a < v.groups.len() {
            assert(ng[a] == v.groups[a]);
            assert(v.groups[a].0 != g);
        } else {
            lemma_group_count_absent(v.pending, g);
        }
    }
    assert forall|j: int| 0 <= j < np.len() implies has_group(ng, (#[trigger] np[j]).group) by {
        if j < v.pending.len() {
            assert(np[j] == v.pending[j]);
            let gi = choose|gi: int| 0 <= gi < v.groups.len() && v.groups[gi].0 == v.pending[j].group;
            assert(ng[gi] == v.groups[gi]);
        } else {
            assert(np[j].group == g);
            assert(ng[v.groups.len() as int].0 == g);
        }
    }
}

/// The outstanding requests of a group, as registered.
pub open spec fn as_pending(sent: Seq<(Seq<char>, u64)>, g: u64, kind: LspRequestKind) -> Seq<PendingView> {
    sent.map_values(|e: (Seq<char>, u64)| PendingView { client: e.0, id: e.1, group: g, kind })
}

/// Registering requests nobody is waiting for yet appends them.
proof fn lemma_put_all_fresh(p: Seq<PendingView>, sent: Seq<(Seq<char>, u64)>, g: u64, kind: LspRequestKind)
    requires
        forall|a: int, b: int| 0 <= a < b < sent.len() ==> sent[a] != sent[b],
        forall|a: int| 0 <= a < sent.len() ==> !has_pending(p, (#[trigger] sent[a]).0, sent[a].1),
    ensures
        put_all(p, sent, g, kind) == p + as_pending(sent, g, kind),
    decreases sent.len(),
{
    if sent.len() == 0 {
        assert(p + as_pending(sent, g, kind) =~= p);
    } else {
        let init = sent.drop_last();
        let x = sent.last();
        assert forall|a: int, b: int| 0 <= a < b < init.len() implies init[a] != init[b] by {
            assert(init[a] == sent[a] && init[b] == sent[b]);
        }
        assert forall|a: int| 0 <= a < init.len() implies !has_pending(p, (#[trigger] init[a]).0, init[a].1) by {
            assert(init[a] == sent[a]);
        }
        lemma_put_all_fresh(p, init, g, kind);
        let q = p + as_pending(init, g, kind);
        assert(!has_pending(q, x.0, x.1)) by {
            if has_pending(q, x.0, x.1) {
                let i = choose|i: int| 0 <= i < q.len() && q[i].client == x.0 && q[i].id == x.1;
                if i < p.len() {
                    assert(q[i] == p[i]);
                    assert(sent[sent.len() - 1] == x);
                } else {
                    let a = i - p.len();
                    assert(q[i] == as_pending(init, g, kind)[a]);
                    assert(init[a] == sent[a]);
                    assert(sent[a].0 == x.0 && sent[a].1 == x.1);
                    assert(sent[sent.len() - 1] == x);
                }
            }
        }
        assert(q.push(PendingView { client: x.0, id: x.1, group: g, kind }) =~= p + as_pending(sent, g, kind));
    }
}

/// Counting a group over appended registrations.
proof fn lemma_group_count_fresh(p: Seq<PendingView>, sent: Seq<(Seq<char>, u64)>, g: u64, kind: LspRequestKind, x: u64)
    ensures
        group_count(p + as_pending(sent, g, kind), x) == group_count(p, x) + if x == g { sent.len() } else { 0 },
    decreases sent.len(),
{
    if sent.len() == 0 {
        assert(p + as_pending(sent, g, kind) =~= p);
    } else {
        let init = sent.drop_last();
        lemma_group_count_fresh(p, init, g, kind, x);
        let e = PendingView { client: sent.last().0, id: sent.last().1, group: g, kind };
        assert((p + as_pending(init, g, kind)).push(e) =~= p + as_pending(sent, g, kind));
        lemma_group_count_push(p + as_pending(init, g, kind), e, x);
    }
}

/// When the counts are consistent, an answer completes its group exactly
/// when it was the group's only outstanding request.
pub proof fn law_last_answer_completes(v: LspView, client: Seq<char>, id: u64)
    requires
        lsp_wf(v),
        groups_consistent(v),
        has_pending(v.pending, client, id),
    ensures
        has_group(v.groups, v.pending[pending_at(v.pending, client, id)].group),
        (v.groups[group_at(v.groups, v.pending[pending_at(v.pending, client, id)].group)].1 <= 1) == (group_count(
            v.pending,
            v.pending[pending_at(v.pending, client, id)].group,
        ) == 1),
{
    let i = pending_at(v.pending, client, id);
    let g = v.pending[i].group;
    lemma_group_count_positive(v.pending, i);
}

// ────────────────────────────────────────────────────────────────────────
// Outgoing requests
// ────────────────────────────────────────────────────────────────────────

/// A request to fan out: the method and parameters to send, the group
/// its answers gather in, and the clients to send it to.
#[derive(Debug)]
pub struct OutgoingRequest {
    pub method: String,
    pub params: JsonValue,
    pub group: u64,
    pub clients: Vec<String>,
}

fn json_str(s: String) -> (r: JsonValue)
    ensures
        json_view(r) == JsonView::Str(s@),
{
    JsonValue::Str(s)
}

fn json_num(n: u64) -> (r: JsonValue)
    ensures
        json_view(r) == JsonView::Number(Some(n)),
{
    JsonValue::Number(Some(n))
}

fn json_obj(members: Vec<(String, JsonValue)>) -> (r: JsonValue)
    ensures
        json_view(r) == JsonView::Object(members@.map_values(|e: (String, JsonValue)| (e.0@, json_view(e.1)))),
{
    let r = JsonValue::Object(members);
    assert(json_view(r) == JsonView::Object(members@.map_values(|e: (String, JsonValue)| (e.0@, json_view(e.1))))) by {
        match json_view(r) {
            JsonView::Object(v) => {
                assert(v =~= members@.map_values(|e: (String, JsonValue)| (e.0@, json_view(e.1))));
            },
            _ => {},
        }
    }
    r
}

fn json_arr(items: Vec<JsonValue>) -> (r: JsonValue)
    ensures
        json_view(r) == JsonView::Array(items@.map_values(|e: JsonValue| json_view(e))),
{
    let r = JsonValue::Array(items);
    assert(json_view(r) == JsonView::Array(items@.map_values(|e: JsonValue| json_view(e)))) by {
        match json_view(r) {
            JsonView::Array(v) => {
                assert(v =~= items@.map_values(|e: JsonValue| json_view(e)));
            },
            _ => {},
        }
    }
    r
}

/// `{ "line": l, "character": c }`.
pub open spec fn position_json(line: u64, character: u64) -> JsonView {
    JsonView::Object(seq![("line"@, JsonView::Number(Some(line))), ("character"@, JsonView::Number(Some(character)))])
}

/// The current document's URI, empty without one.
pub open spec fn uri_or_empty(v: LspView) -> Seq<char> {
    match v.current_uri {
        Some(u) => u,
        None => Seq::empty(),
    }
}

/// `{ "textDocument": { "uri": … }, "position": … }` for `cursor`.
pub open spec fn position_params(uri: Seq<char>, cursor: Cursor) -> Seq<(Seq<char>, JsonView)> {
    seq![
        ("textDocument"@, JsonView::Object(seq![("uri"@, JsonView::Str(uri))])),
        ("position"@, position_json(cursor.row as u64, cursor.col as u64)),
    ]
}

fn position_value(line: u64, character: u64) -> (r: JsonValue)
    ensures
        json_view(r) == position_json(line, character),
{
    let r = json_obj(vec![("line".to_string(), json_num(line)), ("character".to_string(), json_num(character))]);
    proof {
        reveal_strlit("line");
        reveal_strlit("character");
    }
    assert(json_view(r) =~= position_json(line, character)) by {
        match json_view(r) {
            JsonView::Object(v) => {
                assert(v =~= seq![("line"@, JsonView::Number(Some(line))), ("character"@, JsonView::Number(Some(character)))]);
            },
            _ => {},
        }
    }
    r
}

/// Every outgoing request that fans out: `None` (and nothing changes)
/// when the current document has no clients; else the request with a new
/// group for its answers.
pub open spec fn fans_out(old: LspView, new: LspView, r: Option<OutgoingRequest>, method: Seq<char>, params: JsonView) -> bool {
    match r {
        None => old.current_clients.len() == 0 && new == old,
        Some(q) => {
            &&& old.current_clients.len() > 0
            &&& q.method@ == method
            &&& json_view(q.params) == params
            &&& q.group == old.next_group_id
            &&& str_views(q.clients@) == live_current(old)
            &&& new == (LspView { next_group_id: next_id(old.next_group_id), ..old })
        },
    }
}

impl LspCoordinator {
    /// The position parameters of a request at `cursor` in the current
    /// document (an empty URI without one).
    fn text_document_position_params(&self, cursor: Cursor) -> (r: Vec<(String, JsonValue)>)
        ensures
            r@.map_values(|e: (String, JsonValue)| (e.0@, json_view(e.1))) == position_params(uri_or_empty(self@), cursor),
    {
        let uri = match &self.current_uri {
            Some(u) => u.clone(),
            None => String::new(),
        };
        let doc = json_obj(vec![("uri".to_string(), json_str(uri))]);
        let pos = position_value(cursor.row as u64, cursor.col as u64);
        let r = vec![("textDocument".to_string(), doc), ("position".to_string(), pos)];
        proof {
            reveal_strlit("uri");
            reveal_strlit("textDocument");
            reveal_strlit("position");
            assert(json_view(doc) =~= JsonView::Object(seq![("uri"@, JsonView::Str(uri_or_empty(self@)))])) by {
                match json_view(doc) {
                    JsonView::Object(v) => {
                        assert(v =~= seq![("uri"@, JsonView::Str(uri_or_empty(self@)))]);
                    },
                    _ => {},
                }
            }
            assert(r@.map_values(|e: (String, JsonValue)| (e.0@, json_view(e.1))) =~= position_params(
                uri_or_empty(self@),
                cursor,
            ));
        }
        r
    }

    /// Fan `method` with `params` out to the current document's clients.
    fn fan_out_request(&mut self, method: &str, params: Vec<(String, JsonValue)>) -> (r: Option<OutgoingRequest>)
        requires
            old(self).wf(),
        ensures
            final(self).wf(),
            fans_out(
                old(self)@,
                final(self)@,
                r,
                method@,
                JsonView::Object(params@.map_values(|e: (String, JsonValue)| (e.0@, json_view(e.1)))),
            ),
    {
        match self.fan_out_targets() {
            None => None,
            Some(f) => Some(OutgoingRequest { method: method.to_string(), params: json_obj(params), group: f.group, clients: f.clients }),
        }
    }

    /// `textDocument/definition` and friends at `cursor`: the request to
    /// send to every client of the current document.
    pub fn request_jump(&mut self, method: &str, cursor: Cursor) -> (r: Option<OutgoingRequest>)
        requires
            old(self).wf(),
        ensures
            final(self).wf(),
            fans_out(old(self)@, final(self)@, r, method@, JsonView::Object(position_params(uri_or_empty(old(self)@), cursor))),
    {
        let params = self.text_document_position_params(cursor);
        self.fan_out_request(method, params)
    }

    /// `textDocument/hover` at `cursor`.
    pub fn request_hover(&mut self, cursor: Cursor) -> (r: Option<OutgoingRequest>)
        requires
            old(self).wf(),
        ensures
            final(self).wf(),
            fans_out(
                old(self)@,
                final(self)@,
                r,
                "textDocument/hover"@,
                JsonView::Object(position_params(uri_or_empty(old(self)@), cursor)),
            ),
    {
        let params = self.text_document_position_params(cursor);
        self.fan_out_request("textDocument/hover", params)
    }

    /// `textDocument/references` at `cursor`, the declaration included.
    pub fn request_references(&mut self, cursor: Cursor) -> (r: Option<OutgoingRequest>)
        requires
            old(self).wf(),
        ensures
            final(self).wf(),
            fans_out(
                old(self)@,
                final(self)@,
                r,
                "textDocument/references"@,
                JsonView::Object(
                    position_params(uri_or_empty(old(self)@), cursor).push(
                        ("context"@, JsonView::Object(seq![("includeDeclaration"@, JsonView::Bool(true))])),
                    ),
                ),
            ),
    {
        let mut params = self.text_document_position_params(cursor);
        let ghost before = params@;
        let ctx = json_obj(vec![("includeDeclaration".to_string(), JsonValue::Bool(true))]);
        params.push(("context".to_string(), ctx));
        proof {
            reveal_strlit("includeDeclaration");
            reveal_strlit("context");
            assert(json_view(ctx) =~= JsonView::Object(seq![("includeDeclaration"@, JsonView::Bool(true))])) by {
                match json_view(ctx) {
                    JsonView::Object(v) => {
                        assert(v =~= seq![("includeDeclaration"@, JsonView::Bool(true))]);
                    },
                    _ => {},
                }
            }
            assert(params@.map_values(|e: (String, JsonValue)| (e.0@, json_view(e.1))) =~= before.map_values(
                |e: (String, JsonValue)| (e.0@, json_view(e.1)),
            ).push(("context"@, json_view(ctx))));
        }
        self.fan_out_request("textDocument/references", params)
    }

    /// `textDocument/rename` of the symbol at `cursor` to `new_name`.
    pub fn request_rename(&mut self, new_name: String, cursor: Cursor) -> (r: Option<OutgoingRequest>)
        requires
            old(self).wf(),
        ensures
            final(self).wf(),
            fans_out(
                old(self)@,
                final(self)@,
                r,
                "textDocument/rename"@,
                JsonView::Object(
                    position_params(uri_or_empty(old(self)@), cursor).push(("newName"@, JsonView::Str(new_name@))),
                ),
            ),
    {
        let mut params = self.text_document_position_params(cursor);
        let ghost before = params@;
        let ghost name = new_name@;
        params.push(("newName".to_string(), json_str(new_name)));
        proof {
            reveal_strlit("newName");
            assert(params@.map_values(|e: (String, JsonValue)| (e.0@, json_view(e.1))) =~= before.map_values(
                |e: (String, JsonValue)| (e.0@, json_view(e.1)),
            ).push(("newName"@, JsonView::Str(name))));
        }
        self.fan_out_request("textDocument/rename", params)
    }

    /// `textDocument/completion` at `cursor`: triggered by the server's
    /// trigger character `trigger`, or invoked by the user.
    pub fn request_completion(&mut self, cursor: Cursor, trigger: Option<char>) -> (r: Option<OutgoingRequest>)
        requires
            old(self).wf(),
        ensures
            final(self).wf(),
            fans_out(
                old(self)@,
                final(self)@,
                r,
                "textDocument/completion"@,
                JsonView::Object(
                    position_params(uri_or_empty(old(self)@), cursor).push(
                        (
                            "context"@,
                            match trigger {
                                Some(c) => JsonView::Object(
                                    seq![
                                        ("triggerKind"@, JsonView::Number(Some(2))),
                                        ("triggerCharacter"@, JsonView::Str(seq![c])),
                                    ],
                                ),
                                None => JsonView::Object(seq![("triggerKind"@, JsonView::Number(Some(1)))]),
                            },
                        ),
                    ),
                ),
            ),
    {
        let mut params = self.text_document_position_params(cursor);
        let ghost before = params@;
        let ctx = match trigger {
            Some(c) => {
                let mut t = String::new();
                crate::text::string_push(&mut t, c);
                let ghost tv = t@;
                let v = json_obj(vec![("triggerKind".to_string(), json_num(2)), ("triggerCharacter".to_string(), json_str(t))]);
                proof {
                    reveal_strlit("triggerKind");
                    reveal_strlit("triggerCharacter");
                    assert(tv =~= seq![c]);
                    match json_view(v) {
                        JsonView::Object(m) => {
                            assert(m =~= seq![("triggerKind"@, JsonView::Number(Some(2))), ("triggerCharacter"@, JsonView::Str(seq![c]))]);
                        },
                        _ => {},
                    }
                }
                v
            },
            None => {
                let v = json_obj(vec![("triggerKind".to_string(), json_num(1))]);
                proof {
                    reveal_strlit("triggerKind");
                    match json_view(v) {
                        JsonView::Object(m) => {
                            assert(m =~= seq![("triggerKind"@, JsonView::Number(Some(1)))]);
                        },
                        _ => {},
                    }
                }
                v
            },
        };
        params.push(("context".to_string(), ctx));
        proof {
            reveal_strlit("context");
            assert(params@.map_values(|e: (String, JsonValue)| (e.0@, json_view(e.1))) =~= before.map_values(
                |e: (String, JsonValue)| (e.0@, json_view(e.1)),
            ).push(("context"@, json_view(ctx))));
        }
        self.fan_out_request("textDocument/completion", params)
    }
}

/// A severity as LSP numbers it.
pub open spec fn severity_code(s: Severity) -> u64 {
    match s {
        Severity::Error => 1,
        Severity::Warning => 2,
        Severity::Info => 3,
        Severity::Hint => 4,
    }
}

/// A diagnostic as it is sent back to a server.
pub open spec fn diagnostic_json(d: Diagnostic) -> JsonView {
    JsonView::Object(
        seq![
            (
                "range"@,
                JsonView::Object(
                    seq![
                        ("start"@, position_json(d.range.start.line as u64, d.range.start.character as u64)),
                        ("end"@, position_json(d.range.end.line as u64, d.range.end.character as u64)),
                    ],
                ),
            ),
            ("severity"@, JsonView::Number(Some(severity_code(d.severity)))),
            ("message"@, JsonView::Str(d.message@)),
            (
                "source"@,
                match d.source {
                    Some(s) => JsonView::Str(s@),
                    None => JsonView::Null,
                },
            ),
        ],
    )
}

/// The diagnostics whose lines span `row`, as sent.
pub open spec fn touching(ds: Seq<Diagnostic>, row: u32) -> Seq<JsonView>
    decreases ds.len(),
{
    if ds.len() == 0 {
        Seq::empty()
    } else {
        let d = ds.last();
        touching(ds.drop_last(), row) + if d.range.start.line <= row && row <= d.range.end.line {
            seq![diagnostic_json(d)]
        } else {
            Seq::empty()
        }
    }
}

/// The parameters of a code-action request at `cursor`.
pub open spec fn code_action_params(uri: Seq<char>, cursor: Cursor, ds: Seq<Diagnostic>) -> JsonView {
    JsonView::Object(
        seq![
            ("textDocument"@, JsonView::Object(seq![("uri"@, JsonView::Str(uri))])),
            (
                "range"@,
                JsonView::Object(
                    seq![
                        ("start"@, position_json(cursor.row as u64, cursor.col as u64)),
                        ("end"@, position_json(cursor.row as u64, cursor.col as u64)),
                    ],
                ),
            ),
            ("context"@, JsonView::Object(seq![("diagnostics"@, JsonView::Array(touching(ds, cursor.row as u32)))])),
        ],
    )
}

/// A diagnostic as it is sent back to a server.
pub fn diagnostic_to_json(d: &Diagnostic) -> (r: JsonValue)
    ensures
        json_view(r) == diagnostic_json(*d),
{
    let range = json_obj(
        vec![
            ("start".to_string(), position_value(d.range.start.line as u64, d.range.start.character as u64)),
            ("end".to_string(), position_value(d.range.end.line as u64, d.range.end.character as u64)),
        ],
    );
    let code: u64 = match d.severity {
        Severity::Error => 1,
        Severity::Warning => 2,
        Severity::Info => 3,
        Severity::Hint => 4,
    };
    let source = match &d.source {
        Some(s) => json_str(s.clone()),
        None => JsonValue::Null,
    };
    let r = json_obj(
        vec![
            ("range".to_string(), range),
            ("severity".to_string(), json_num(code)),
            ("message".to_string(), json_str(d.message.clone())),
            ("source".to_string(), source),
        ],
    );
    proof {
        reveal_strlit("start");
        reveal_strlit("end");
        reveal_strlit("range");
        reveal_strlit("severity");
        reveal_strlit("message");
        reveal_strlit("source");
        match json_view(range) {
            JsonView::Object(m) => {
                assert(m =~= seq![
                    ("start"@, position_json(d.range.start.line as u64, d.range.start.character as u64)),
                    ("end"@, position_json(d.range.end.line as u64, d.range.end.character as u64)),
                ]);
            },
            _ => {},
        }
        match json_view(r) {
            JsonView::Object(m) => {
                match diagnostic_json(*d) {
                    JsonView::Object(w) => {
                        assert(m =~= w);
                    },
                    _ => {},
                }
            },
            _ => {},
        }
    }
    r
}

impl LspCoordinator {
    /// `textDocument/codeAction` at `cursor`, passing along the given
    /// diagnostics whose lines span the cursor's row.
    pub fn request_code_action(&mut self, cursor: Cursor, diagnostics: &[Diagnostic]) -> (r: Option<OutgoingRequest>)
        requires
            old(self).wf(),
        ensures
            final(self).wf(),
            fans_out(
                old(self)@,
                final(self)@,
                r,
                "textDocument/codeAction"@,
                code_action_params(uri_or_empty(old(self)@), cursor, diagnostics@),
            ),
    {
        let uri = match &self.current_uri {
            Some(u) => u.clone(),
            None => String::new(),
        };
        let row = cursor.row as u32;
        let ghost ds = diagnostics@;
        let mut items: Vec<JsonValue> = Vec::new();
        let mut i: usize = 0;
        while i < diagnostics.len()
            invariant
                i <= ds.len(),
                ds == diagnostics@,
                row == cursor.row as u32,
                items@.map_values(|e: JsonValue| json_view(e)) == touching(ds.take(i as int), row),
            decreases ds.len() - i,
        {
            let d = &diagnostics[i];
            assert(ds.take(i + 1).drop_last() =~= ds.take(i as int));
            assert(ds.take(i + 1).last() == *d);
            let ghost before = items@;
            if d.range.start.line <= row && row <= d.range.end.line {
                let j = diagnostic_to_json(d);
                items.push(j);
                assert(items@.map_values(|e: JsonValue| json_view(e)) =~= before.map_values(|e: JsonValue| json_view(e)).push(
                    diagnostic_json(*d),
                ));
            } else {
                assert(touching(ds.take(i + 1), row) =~= touching(ds.take(i as int), row));
            }
            i = i + 1;
        }
        assert(ds.take(ds.len() as int) =~= ds);
        let ghost uv = uri@;
        let doc = json_obj(vec![("uri".to_string(), json_str(uri))]);
        let range = json_obj(
            vec![
                ("start".to_string(), position_value(cursor.row as u64, cursor.col as u64)),
                ("end".to_string(), position_value(cursor.row as u64, cursor.col as u64)),
            ],
        );
        let diags = json_arr(items);
        let ctx = json_obj(vec![("diagnostics".to_string(), diags)]);
        let params = vec![("textDocument".to_string(), doc), ("range".to_string(), range), ("context".to_string(), ctx)];
        proof {
            reveal_strlit("uri");
            reveal_strlit("textDocument");
            reveal_strlit("start");
            reveal_strlit("end");
            reveal_strlit("range");
            reveal_strlit("diagnostics");
            reveal_strlit("context");
            assert(uv == uri_or_empty(old(self)@));
            match json_view(doc) {
                JsonView::Object(m) => {
                    assert(m =~= seq![("uri"@, JsonView::Str(uv))]);
                },
                _ => {},
            }
            match json_view(range) {
                JsonView::Object(m) => {
                    assert(m =~= seq![
                        ("start"@, position_json(cursor.row as u64, cursor.col as u64)),
                        ("end"@, position_json(cursor.row as u64, cursor.col as u64)),
                    ]);
                },
                _ => {},
            }
            match json_view(ctx) {
                JsonView::Object(m) => {
                    assert(m =~= seq![("diagnostics"@, JsonView::Array(touching(ds, row)))]);
                },
                _ => {},
            }
            match code_action_params(uri_or_empty(old(self)@), cursor, ds) {
                JsonView::Object(w) => {
                    assert(params@.map_values(|e: (String, JsonValue)| (e.0@, json_view(e.1))) =~= w);
                },
                _ => {},
            }
        }
        self.fan_out_request("textDocument/codeAction", params)
    }
}

proof fn lemma_uris_of_contains(d: Seq<DiagSlice>, u: Seq<char>)
    ensures
        uris_of(d).contains(u) <==> exists|i: int| 0 <= i < d.len() && (#[trigger] d[i]).uri == u,
    decreases d.len(),
{
    if d.len() > 0 {
        let init = d.drop_last();
        lemma_uris_of_contains(init, u);
        if exists|i: int| 0 <= i < d.len() && (#[trigger] d[i]).uri == u {
            let i = choose|i: int| 0 <= i < d.len() && (#[trigger] d[i]).uri == u;
            if i < d.len() - 1 {
                assert(init[i].uri == u);
                let w = choose|w: int| 0 <= w < uris_of(init).len() && uris_of(init)[w] == u;
                if !uris_of(init).contains(d.last().uri) {
                    assert(uris_of(d)[w] == u);
                }
            } else if uris_of(init).contains(d.last().uri) {
            } else {
                assert(uris_of(d).last() == u);
            }
        }
        if uris_of(d).contains(u) {
            if !uris_of(init).contains(u) {
                assert(d[d.len() - 1].uri == u);
            } else {
                let i = choose|i: int| 0 <= i < init.len() && (#[trigger] init[i]).uri == u;
                assert(d[i].uri == u);
            }
        }
    }
}

proof fn lemma_merged_nonempty(d: Seq<DiagSlice>, u: Seq<char>, i: int)
    requires
        0 <= i < d.len(),
        d[i].uri == u,
        d[i].items.len() > 0,
    ensures
        merged(d, u).len() > 0,
    decreases d.len(),
{
    if i < d.len() - 1 {
        assert(d.drop_last()[i] == d[i]);
        lemma_merged_nonempty(d.drop_last(), u, i);
    }
}

/// Law: the current document's diagnostics are its entry in the
/// workspace listing: with a current document that has diagnostics,
/// `all_diagnostics` lists it with the same merged, sorted list; without
/// any, it is not listed.
pub proof fn law_current_is_entry_of_all(v: LspView)
    requires
        lsp_wf(v),
    ensures
        v.current_uri is None ==> current_diags(v) is None,
        v.current_uri matches Some(u) ==> match current_diags(v) {
            Some(ds) => exists|j: int| 0 <= j < all_diags(v.diagnostics).len() && #[trigger] all_diags(v.diagnostics)[j]
                == (u, ds),
            None => forall|j: int| 0 <= j < all_diags(v.diagnostics).len() ==> #[trigger] all_diags(v.diagnostics)[j].0
                != u,
        },
{
    broadcast use vstd::seq_lib::group_to_multiset_ensures;
    let d = v.diagnostics;
    if let Some(u) = v.current_uri {
        lemma_lex_order();
        law_sort_by_sorts(uris_of(d), lex_order());
        let sorted = sort_by(uris_of(d), lex_order());
        lemma_uris_of_contains(d, u);
        assert(sorted.contains(u) <==> uris_of(d).contains(u)) by {
            assert(sorted.to_multiset().count(u) == uris_of(d).to_multiset().count(u));
        }
        if merged(d, u).len() > 0 {
            if !(exists|i: int| 0 <= i < d.len() && (#[trigger] d[i]).uri == u) {
                lemma_merged_empty(d, u);
            }
            let j = choose|j: int| 0 <= j < sorted.len() && sorted[j] == u;
            assert(all_diags(d)[j] == (u, sort_diags(merged(d, u))));
        } else {
            if exists|i: int| 0 <= i < d.len() && (#[trigger] d[i]).uri == u {
                let i = choose|i: int| 0 <= i < d.len() && (#[trigger] d[i]).uri == u;
                lemma_merged_nonempty(d, u, i);
            }
            assert forall|j: int| 0 <= j < all_diags(d).len() implies #[trigger] all_diags(d)[j].0 != u by {
                assert(all_diags(d)[j].0 == sorted[j]);
            }
        }
    }
}

/// Law: the workspace listing holds one entry per document that has
/// diagnostics, and no other; documents come in strictly ascending name
/// order; each entry's list is that document's diagnostics from every
/// client (the same multiset), sorted by where they start.
pub proof fn law_all_diagnostics_entries(v: LspView)
    requires
        lsp_wf(v),
    ensures
        forall|j: int| 0 <= j < all_diags(v.diagnostics).len() ==> ({
            let (u, ds) = #[trigger] all_diags(v.diagnostics)[j];
            &&& merged(v.diagnostics, u).len() > 0
            &&& sorted_by(ds, diag_order())
            &&& ds.to_multiset() == merged(v.diagnostics, u).to_multiset()
        }),
        forall|u: Seq<char>| merged(v.diagnostics, u).len() > 0 ==> exists|j: int|
            0 <= j < all_diags(v.diagnostics).len() && (#[trigger] all_diags(v.diagnostics)[j]).0 == u,
        forall|i: int, j: int| 0 <= i < j < all_diags(v.diagnostics).len() ==> lex_le(
            all_diags(v.diagnostics)[i].0,
            all_diags(v.diagnostics)[j].0,
        ) && all_diags(v.diagnostics)[i].0 != all_diags(v.diagnostics)[j].0,
{
    broadcast use vstd::seq_lib::group_to_multiset_ensures;
    let d = v.diagnostics;
    let uris = uris_of(d);
    lemma_lex_order();
    law_sort_by_sorts(uris, lex_order());
    lemma_uris_of_distinct(d);
    let sorted = sort_by(uris, lex_order());
    let all = all_diags(d);
    assert forall|j: int| 0 <= j < all.len() implies ({
        let (u, ds) = #[trigger] all[j];
        &&& merged(d, u).len() > 0
        &&& sorted_by(ds, diag_order())
        &&& ds.to_multiset() == merged(d, u).to_multiset()
    }) by {
        let u = sorted[j];
        assert(all[j] == (u, sort_diags(merged(d, u))));
        assert(sorted.contains(u));
        assert(uris.to_multiset().count(u) == sorted.to_multiset().count(u));
        assert(uris.contains(u));
        lemma_uris_of_contains(d, u);
        let i = choose|i: int| 0 <= i < d.len() && (#[trigger] d[i]).uri == u;
        lemma_merged_nonempty(d, u, i);
        law_diagnostics_sorted(merged(d, u));
    }
    assert forall|u: Seq<char>| merged(d, u).len() > 0 implies exists|j: int|
        0 <= j < all.len() && (#[trigger] all[j]).0 == u by {
        lemma_uris_of_contains(d, u);
        if !(exists|i: int| 0 <= i < d.len() && (#[trigger] d[i]).uri == u) {
            lemma_merged_empty(d, u);
        }
        assert(uris.to_multiset().count(u) == sorted.to_multiset().count(u));
        let j = choose|j: int| 0 <= j < sorted.len() && sorted[j] == u;
        assert(all[j].0 == u);
    }
    assert(sorted.no_duplicates()) by {
        assert(uris.no_duplicates());
        uris.lemma_multiset_has_no_duplicates();
        sorted.lemma_multiset_has_no_duplicates_conv();
    }
    assert forall|i: int, j: int| 0 <= i < j < all.len() implies lex_le(all[i].0, all[j].0) && all[i].0
        != all[j].0 by {
        assert(all[i].0 == sorted[i] && all[j].0 == sorted[j]);
        assert(lex_order()(sorted[i], sorted[j]));
    }
}

proof fn lemma_prune_not_holds(u: Seq<(Seq<char>, Seq<Seq<char>>)>, k: Seq<char>, x: Seq<char>)
    requires
        !holds_any(u, x),
    ensures
        !holds_any(prune_uris(u, k), x),
    decreases u.len(),
{
    broadcast use vstd::seq_lib::group_filter_ensures;
    if u.len() > 0 {
        let init = u.drop_last();
        assert forall|i: int| 0 <= i < init.len() implies !(#[trigger] init[i]).1.contains(x) by {
            assert(init[i] == u[i]);
        }
        lemma_prune_not_holds(init, k, x);
        let rest = prune_uris(init, k);
        let keys = without(u.last().1, k);
        if keys.len() > 0 {
            let pr = rest.push((u.last().0, keys));
            assert forall|i: int| 0 <= i < pr.len() implies !(#[trigger] pr[i]).1.contains(x) by {
                if i < rest.len() {
                    assert(pr[i] == rest[i]);
                } else {
                    assert(!u[u.len() - 1].1.contains(x));
                    if keys.contains(x) {
                        u.last().1.lemma_filter_contains_rev(not_key(k), x);
                    }
                }
            }
        }
    }
}

proof fn lemma_dropped_client_gone(w: LspView, k: Seq<char>, x: Seq<char>)
    requires
        !has_key(w.clients, x) || x == k,
    ensures
        !has_key(dropped(w, k).clients, x),
{
    let c = dropped(w, k).clients;
    if has_key(c, x) {
        let i = choose|i: int| 0 <= i < c.len() && c[i].0 == x;
        lemma_filter_from(w.clients, other_client(k), i);
    }
}

/// `release` keeps the current document, only ever shortens its client
/// list, never makes a client hold a document, and a client once gone
/// stays gone.
proof fn lemma_release_facts(v: LspView, keys: Seq<Seq<char>>, x: Seq<char>)
    ensures
        release(v, keys).current_uri == v.current_uri,
        release(v, keys).current_language == v.current_language,
        v.current_clients.len() == 0 ==> release(v, keys).current_clients.len() == 0,
        !holds_any(v.open_uris, x) ==> !holds_any(release(v, keys).open_uris, x),
        !has_key(v.clients, x) ==> !has_key(release(v, keys).clients, x),
    decreases keys.len(),
{
    broadcast use vstd::seq_lib::group_filter_ensures;
    if keys.len() > 0 {
        lemma_release_facts(v, keys.drop_last(), x);
        let w = release(v, keys.drop_last());
        let k = keys.last();
        if !holds_any(w.open_uris, k) {
            if !holds_any(w.open_uris, x) {
                lemma_prune_not_holds(w.open_uris, k, x);
            }
            if !has_key(w.clients, x) {
                lemma_dropped_client_gone(w, k, x);
            }
            if w.current_clients.len() == 0 {
                assert(without(w.current_clients, k).len() <= w.current_clients.len());
            }
        }
    }
}

/// A key of `keys` that holds no document open when `release` reaches it
/// is not running afterwards.
proof fn lemma_release_drops(v: LspView, keys: Seq<Seq<char>>, i: int)
    requires
        0 <= i < keys.len(),
        !holds_any(v.open_uris, keys[i]),
    ensures
        !has_key(release(v, keys).clients, keys[i]),
    decreases keys.len(),
{
    let x = keys[i];
    let init = keys.drop_last();
    let w = release(v, init);
    lemma_release_facts(v, init, x);
    if i == keys.len() - 1 {
        lemma_dropped_client_gone(w, x, x);
    } else {
        assert(init[i] == x);
        lemma_release_drops(v, init, i);
        if !holds_any(w.open_uris, keys.last()) {
            lemma_dropped_client_gone(w, keys.last(), x);
        }
    }
}

/// Law: closing a document leaves no client holding it and no
/// diagnostics for it; it stops being current (so no server is attached)
/// when it was current, and the current document is kept otherwise; and
/// each client that held it and holds no other document is shut down.
pub proof fn law_close_uri(v: LspView, uri: Seq<char>)
    ensures
        !has_key(closed(v, uri).open_uris, uri),
        merged(closed(v, uri).diagnostics, uri).len() == 0,
        v.current_uri == Some(uri) ==> closed(v, uri).current_uri is None && closed(v, uri).current_clients.len() == 0,
        v.current_uri != Some(uri) ==> closed(v, uri).current_uri == v.current_uri,
        forall|j: int|
            0 <= j < holders(v.open_uris, uri).len() && !holds_any(
                unlinked(v, uri).open_uris,
                #[trigger] holders(v.open_uris, uri)[j],
            ) ==> !has_key(closed(v, uri).clients, holders(v.open_uris, uri)[j]),
{
    law_closed_uri_is_gone(v, uri);
    let w = unlinked(v, uri);
    let hs = holders(v.open_uris, uri);
    lemma_release_facts(w, hs, uri);
    assert forall|j: int|
        0 <= j < hs.len() && !holds_any(w.open_uris, #[trigger] hs[j]) implies !has_key(release(w, hs).clients, hs[j]) by {
        lemma_release_drops(w, hs, j);
    }
}

/// The elements `le` cannot tell apart from `k`.
pub open spec fn same_place<T>(le: spec_fn(T, T) -> bool, k: T) -> spec_fn(T) -> bool {
    |y: T| le(y, k) && le(k, y)
}

proof fn lemma_insert_by_stable<T>(t: Seq<T>, x: T, le: spec_fn(T, T) -> bool, k: T)
    requires
        sorted_by(t, le),
        total_preorder(le),
    ensures
        insert_by(t, x, le).filter(same_place(le, k)) == if same_place(le, k)(x) {
            t.filter(same_place(le, k)).push(x)
        } else {
            t.filter(same_place(le, k))
        },
    decreases t.len(),
{
    let p = same_place(le, k);
    if t.len() == 0 {
        lemma_filter_push(t, x, p);
        assert(seq![x] =~= t.push(x));
    } else if le(t.last(), x) {
        lemma_filter_push(t, x, p);
    } else {
        let init = t.drop_last();
        assert(sorted_by(init, le)) by {
            assert forall|i: int, j: int| 0 <= i < j < init.len() implies le(init[i], init[j]) by {
                assert(init[i] == t[i] && init[j] == t[j]);
            }
        }
        lemma_insert_by_stable(init, x, le, k);
        let ins = insert_by(init, x, le);
        lemma_filter_push(ins, t.last(), p);
        lemma_filter_push(init, t.last(), p);
        assert(init.push(t.last()) =~= t);
        if p(x) && p(t.last()) {
            assert(le(t.last(), k) && le(k, x));
            assert(le(t.last(), x));
        }
        if p(x) && !p(t.last()) {
            assert(init.filter(p).push(x) =~= init.filter(p).push(x));
        }
    }
}

/// Law: the sort is stable. Among elements `le` cannot tell apart from
/// any `k`, the sorted sequence keeps their input order.
pub proof fn law_sort_by_stable<T>(s: Seq<T>, le: spec_fn(T, T) -> bool, k: T)
    requires
        total_preorder(le),
    ensures
        sort_by(s, le).filter(same_place(le, k)) == s.filter(same_place(le, k)),
    decreases s.len(),
{
    if s.len() > 0 {
        let init = s.drop_last();
        law_sort_by_stable(init, le, k);
        law_sort_by_sorts(init, le);
        lemma_insert_by_stable(sort_by(init, le), s.last(), le, k);
        lemma_filter_push(init, s.last(), same_place(le, k));
        assert(init.push(s.last()) =~= s);
    } else {
        reveal_with_fuel(Seq::filter, 1);
    }
}

/// Law: diagnostics that start at the same place keep the order they
/// were published in (clients in order, each client's list in order).
pub proof fn law_diagnostics_sorted_stably(s: Seq<Diagnostic>, k: Diagnostic)
    ensures
        sort_diags(s).filter(same_place(diag_order(), k)) == s.filter(same_place(diag_order(), k)),
{
    let le = diag_order();
    assert forall|a: Diagnostic, b: Diagnostic| #[trigger] le(a, b) || le(b, a) by {}
    assert forall|a: Diagnostic, b: Diagnostic, c: Diagnostic| #[trigger] le(a, b) && #[trigger] le(b, c) implies le(a, c) by {}
    law_sort_by_stable(s, le, k);
}

} // verus!
