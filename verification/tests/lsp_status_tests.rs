use vorto::copilot::CopilotAuthState;
use vorto::lsp_coordinator::RunningLspInfo;
use vorto::lsp_status::{lsp_status_text, CopilotProcess, LanguageLsp, LspServerConfig};

fn lang(name: &str, servers: &[(&str, &str)]) -> LanguageLsp {
    LanguageLsp {
        name: name.to_string(),
        lsp: servers
            .iter()
            .map(|(n, c)| LspServerConfig { name: n.to_string(), command: c.to_string() })
            .collect(),
    }
}

fn running(key: &str, pid: u32, root: &str, id: &str, open: usize) -> RunningLspInfo {
    RunningLspInfo {
        client_key: key.to_string(),
        pid,
        root_uri: root.to_string(),
        language_id: id.to_string(),
        open_count: open,
    }
}

fn languages() -> Vec<LanguageLsp> {
    vec![
        lang("rust", &[("rust-analyzer", "rust-analyzer")]),
        lang("go", &[("gopls", "gopls serve")]),
        lang("toml", &[]),
    ]
}

#[test]
fn full_listing_sorts_languages_and_lists_orphans() {
    let run = vec![
        running("rust::rust-analyzer", 42, "file:///w", "rust", 1),
        running("old::srv", 7, "file:///o", "x", 2),
        running("go::gopls", 8, "file:///g", "go", 0),
        running("nokey", 3, "file:///n", "y", 1),
    ];
    let auth = CopilotAuthState::SignedIn { user: Some("me".to_string()) };
    let got = lsp_status_text(&languages(), None, true, &run, Some(CopilotProcess { pid: 9, open_count: 0 }), &auth);
    let mut want = String::new();
    want.push_str("\ngo\n");
    want.push_str(&format!("  ● {:<28} running  pid 8  0 files  (go)\n", "gopls"));
    want.push_str("      root: file:///g\n");
    want.push_str("\nrust\n");
    want.push_str(&format!("  ● {:<28} running  pid 42  1 file  (rust)\n", "rust-analyzer"));
    want.push_str("      root: file:///w\n");
    want.push_str("\norphan (running, not in current config)\n");
    want.push_str(&format!("  ● {:<28} pid 3  1 file  (y)\n", "nokey"));
    want.push_str("      root: file:///n\n");
    want.push_str(&format!("  ● {:<28} pid 7  2 files  (x)\n", "old::srv"));
    want.push_str("      root: file:///o\n");
    want.push_str("\ncopilot\n");
    want.push_str(&format!("  ● {:<28} running  pid 9  0 files  (signed in as me)\n", "copilot-language-server"));
    assert_eq!(got, want);
}

#[test]
fn buffer_scope_shows_stopped_servers_and_no_orphans() {
    let run = vec![running("old::srv", 7, "file:///o", "x", 2)];
    let got = lsp_status_text(&languages(), Some(1), false, &run, None, &CopilotAuthState::Unknown);
    let mut want = String::new();
    want.push_str("\ngo\n");
    want.push_str(&format!("  ○ {:<28} stopped  (gopls serve)\n", "gopls"));
    want.push_str("\ncopilot\n");
    want.push_str(&format!("  ○ {:<28} stopped  (copilot-language-server)\n", "copilot-language-server"));
    assert_eq!(got, want);
}

#[test]
fn notes_when_nothing_is_listed() {
    let copilot_off = format!("\ncopilot\n  ○ {:<28} stopped  (copilot-language-server)\n", "copilot-language-server");
    let got = lsp_status_text(&languages(), Some(2), false, &[], None, &CopilotAuthState::NotSignedIn);
    assert_eq!(got, format!("(toml: no LSP configured — try :lsp all)\n{copilot_off}"));
    let got = lsp_status_text(&languages(), None, false, &[], None, &CopilotAuthState::NotSignedIn);
    assert_eq!(got, format!("(no language detected for this buffer — try :lsp all)\n{copilot_off}"));
    let got = lsp_status_text(&[lang("toml", &[])], None, true, &[], None, &CopilotAuthState::NotSignedIn);
    assert_eq!(got, format!("(no languages have an LSP configured)\n{copilot_off}"));
}

#[test]
fn copilot_auth_states_read_as_text() {
    let p = Some(CopilotProcess { pid: 1, open_count: 1 });
    let cases = [
        (CopilotAuthState::Unknown, "checking…"),
        (CopilotAuthState::SignedIn { user: None }, "signed in as (unknown user)"),
        (CopilotAuthState::NotSignedIn, "not signed in (:copilot signin)"),
        (CopilotAuthState::NotAuthorized { reason: None }, "not authorized (no entitlement)"),
        (CopilotAuthState::NotAuthorized { reason: Some("expired".to_string()) }, "not authorized (expired)"),
    ];
    for (auth, text) in cases {
        let got = lsp_status_text(&[], None, true, &[], p, &auth);
        let want = format!(
            "(no languages have an LSP configured)\n\ncopilot\n  ● {:<28} running  pid 1  1 file  ({})\n",
            "copilot-language-server", text
        );
        assert_eq!(got, want);
    }
}

#[test]
fn long_names_are_not_truncated() {
    let langs = vec![lang("x", &[("a-very-long-language-server-name-indeed", "cmd")])];
    let got = lsp_status_text(&langs, Some(0), false, &[], None, &CopilotAuthState::Unknown);
    assert!(got.starts_with("\nx\n  ○ a-very-long-language-server-name-indeed stopped  (cmd)\n"));
}
