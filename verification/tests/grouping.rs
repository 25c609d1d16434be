use wyd::classify::group::group;
use wyd::classify::leftovers::{leftover_count, leftover_ram, mark};
use wyd::config::{Config, SignatureConfig};
use wyd::model::process::ProcessInfo;
use wyd::model::runtime::{Category, RuntimeItem, RuntimeState, SuspicionReason};

const NOW: u64 = 1_750_000_000;

fn proc(pid: u32, ppid: Option<u32>, name: &str, cmd: &[&str], mem: u64) -> ProcessInfo {
    ProcessInfo {
        pid,
        parent_pid: ppid,
        name: name.into(),
        command: cmd.iter().map(|s| (*s).to_string()).collect(),
        executable: None,
        cwd: None,
        memory_bytes: mem,
        start_time: 0,
        tty: None,
    }
}

fn started(pid: u32, ppid: Option<u32>, name: &str, cmd: &[&str], start: u64) -> ProcessInfo {
    let mut p = proc(pid, ppid, name, cmd, 40 << 20);
    p.start_time = start;
    p
}

fn grouped(procs: &Vec<ProcessInfo>) -> Vec<RuntimeItem> {
    group(procs, &Vec::new())
}

fn titles(items: &[RuntimeItem]) -> Vec<String> {
    items.iter().map(|i| i.title()).collect()
}

#[test]
fn agent_tree_rolls_up_chromium() {
    let procs = vec![
        proc(1, None, "launchd", &["launchd"], 10),
        proc(100, Some(1), "ghostty", &["ghostty"], 50),
        proc(110, Some(100), "zsh", &["zsh"], 5),
        proc(120, Some(110), "omp", &["omp"], 300),
        proc(125, Some(120), "npm", &["npm", "exec", "chrome-devtools-mcp"], 20),
        proc(130, Some(125), "node", &["node", "/x/chrome-devtools-mcp/index.js"], 40),
        proc(140, Some(130), "Chromium", &["Chromium"], 500),
        proc(141, Some(130), "Chromium Helper", &["Chromium Helper"], 200),
    ];
    let items = grouped(&procs);
    assert_eq!(titles(&items), ["omp"]);
    assert_eq!(titles(&items[0].children), ["chrome-devtools-mcp"]);
    assert_eq!(titles(&items[0].children[0].children), ["Chromium ×2"]);
    assert_eq!(items[0].children[0].children[0].memory_bytes, 700);
}

#[test]
fn detached_mcp_is_root() {
    let procs = vec![
        proc(1, None, "launchd", &["launchd"], 1),
        proc(10, Some(1), "node", &["node", "playwright-mcp"], 40),
        proc(11, Some(10), "Chromium", &["Chromium"], 100),
    ];
    let items = grouped(&procs);
    assert_eq!(titles(&items), ["playwright-mcp"]);
    assert_eq!(titles(&items[0].children), ["Chromium"]);
}

#[test]
fn desktop_chrome_is_hidden() {
    let procs = vec![
        proc(1, None, "launchd", &["launchd"], 1),
        proc(20, Some(1), "Google Chrome", &["Google Chrome"], 800),
        proc(21, Some(20), "Chrome Helper", &["Chrome Helper"], 200),
    ];
    assert!(grouped(&procs).is_empty());
}

#[test]
fn old_vite_and_postgres() {
    let procs = vec![
        proc(1, None, "launchd", &["launchd"], 1),
        proc(30, Some(1), "node", &["node", "node_modules/.bin/vite"], 180),
        proc(40, Some(1), "postgres", &["postgres"], 80),
    ];
    let items = grouped(&procs);
    assert_eq!(titles(&items), ["vite", "postgres"]);
    assert_eq!(items[0].category, Category::DevServer);
    assert_eq!(items[1].category, Category::Database);
    assert_eq!(items[1].state, RuntimeState::Persistent);
}

#[test]
fn two_agents_and_language_servers() {
    let procs = vec![
        proc(1, None, "launchd", &["launchd"], 1),
        proc(10, Some(1), "omp", &["omp"], 100),
        proc(11, Some(10), "node", &["node", "chrome-devtools-mcp"], 10),
        proc(20, Some(1), "opencode", &["opencode"], 200),
        proc(21, Some(20), "node", &["node", "playwright-mcp"], 10),
        proc(50, Some(1), "rust-analyzer", &["rust-analyzer"], 90),
        proc(51, Some(1), "typescript-language-server", &["typescript-language-server"], 40),
    ];
    let items = grouped(&procs);
    assert_eq!(
        titles(&items),
        ["opencode", "omp", "rust-analyzer", "typescript-language-server"]
    );
}

#[test]
fn hides_os_only_snapshot() {
    let procs = vec![
        proc(1, None, "launchd", &["launchd"], 1),
        proc(2, Some(1), "kernel_task", &["kernel_task"], 1),
    ];
    assert!(grouped(&procs).is_empty());
}

#[test]
fn empty_cmd_node_is_hidden_scripted_node_is_not() {
    let procs = vec![
        proc(1, None, "launchd", &["launchd"], 1),
        proc(10, Some(1), "node", &[], 20),
        proc(20, Some(1), "node", &["node", "server.js"], 30),
    ];
    let items = grouped(&procs);
    assert_eq!(titles(&items), ["node"]);
    assert_eq!(items[0].root_pid, Some(20));
}

#[test]
fn nested_omp_helpers_collapse() {
    let procs = vec![
        proc(1, None, "launchd", &["launchd"], 1),
        proc(10, Some(1), "omp", &["omp"], 100),
        proc(11, Some(10), "omp", &["omp"], 50),
        proc(12, Some(11), "omp", &["omp"], 25),
        proc(13, Some(10), "node", &["node", "chrome-devtools-mcp"], 10),
    ];
    let items = grouped(&procs);
    assert_eq!(titles(&items), ["omp ×3"]);
    assert_eq!(titles(&items[0].children), ["chrome-devtools-mcp"]);
    assert_eq!(items[0].memory_bytes, 175);
}

#[test]
fn agents_come_heaviest_first_then_other_categories() {
    let procs = vec![
        proc(1, None, "launchd", &["launchd"], 1),
        proc(10, Some(1), "omp", &["omp"], 100),
        proc(11, Some(10), "node", &["node", "chrome-devtools-mcp"], 10),
        proc(20, Some(1), "opencode", &["opencode"], 200),
        proc(21, Some(20), "node", &["node", "playwright-mcp"], 10),
        proc(50, Some(1), "rust-analyzer", &["rust-analyzer"], 90),
        proc(51, Some(1), "gopls", &["gopls"], 40),
    ];
    assert_eq!(titles(&grouped(&procs)), ["opencode", "omp", "rust-analyzer", "gopls"]);
}

#[test]
fn a_user_signature_shows_its_process() {
    let procs = vec![
        proc(1, None, "launchd", &["launchd"], 1),
        proc(10, Some(1), "my-agent", &["my-agent"], 7),
    ];
    assert!(grouped(&procs).is_empty());
    let sigs = vec![SignatureConfig {
        category: "agent".into(),
        names: vec!["my-agent".into()],
        contains: vec![],
        display: "Mine".into(),
    }];
    let items = group(&procs, &sigs);
    assert_eq!(titles(&items), ["Mine"]);
    assert_eq!(items[0].category, Category::Agent);
}

#[test]
fn parent_cycle_does_not_hang_grouping() {
    let procs = vec![
        proc(10, Some(11), "omp", &["omp"], 5),
        proc(11, Some(10), "codex", &["codex"], 6),
    ];
    // Each is inside the other, so neither is a root.
    assert!(grouped(&procs).is_empty());
}

#[test]
fn no_processes_means_no_items() {
    assert!(grouped(&Vec::new()).is_empty());
}

#[test]
fn detached_mcp_is_leftover() {
    let procs = vec![
        started(1, None, "launchd", &["launchd"], 1),
        started(10, Some(1), "node", &["node", "chrome-devtools-mcp"], 100),
    ];
    let mut items = grouped(&procs);
    mark(&mut items, &procs, &Config::default(), NOW);
    assert_eq!(items.len(), 1);
    assert_eq!(items[0].state, RuntimeState::Suspicious);
    let s = items[0].suspicion.as_ref().unwrap();
    assert!(s.reasons.contains(&SuspicionReason::OwningAgentMissing));
    assert!(s.reasons.contains(&SuspicionReason::McpOwnerMissing));
    assert!(s.score >= 60);
}

#[test]
fn orphaned_lsp_is_leftover_nested_is_not() {
    let mut detached = vec![
        started(1, None, "launchd", &["launchd"], 1),
        started(
            10,
            Some(1),
            "node",
            &["node", "/x/.npm/_npx/x/node_modules/.bin/copilot-language-server", "--stdio"],
            100,
        ),
    ];
    detached[1].executable = Some("/opt/homebrew/bin/node".into());
    let mut items = grouped(&detached);
    mark(&mut items, &detached, &Config::default(), NOW);
    assert_eq!(items.len(), 1);
    assert_eq!(items[0].display_name, "copilot");
    assert_eq!(items[0].state, RuntimeState::Suspicious);
    assert!(items[0]
        .suspicion
        .as_ref()
        .unwrap()
        .reasons
        .contains(&SuspicionReason::OwningAgentMissing));

    let nested = vec![
        started(1, None, "launchd", &["launchd"], 1),
        started(10, Some(1), "omp", &["omp"], 100),
        started(
            11,
            Some(10),
            "node",
            &["node", "/x/.npm/_npx/x/node_modules/.bin/copilot-language-server", "--stdio"],
            100,
        ),
    ];
    let mut items = grouped(&nested);
    mark(&mut items, &nested, &Config::default(), NOW);
    assert_eq!(items[0].category, Category::Agent);
    assert_eq!(items[0].children[0].display_name, "copilot");
    assert_eq!(items[0].children[0].state, RuntimeState::Active);
    assert!(items[0].children[0].suspicion.is_none());
}

#[test]
fn mcp_under_agent_is_not_leftover() {
    let procs = vec![
        started(1, None, "launchd", &["launchd"], 1),
        started(10, Some(1), "omp", &["omp"], 100),
        started(11, Some(10), "node", &["node", "chrome-devtools-mcp"], 100),
    ];
    let mut items = grouped(&procs);
    mark(&mut items, &procs, &Config::default(), NOW);
    assert_eq!(items[0].category, Category::Agent);
    assert_eq!(items[0].state, RuntimeState::Active);
    assert_eq!(items[0].children[0].state, RuntimeState::Active);
    assert!(items[0].children[0].suspicion.is_none());
}

#[test]
fn old_vite_is_leftover_postgres_is_not() {
    let procs = vec![
        started(1, None, "launchd", &["launchd"], 1),
        started(20, Some(1), "node", &["node", "node_modules/.bin/vite"], NOW - 20 * 3600),
        started(30, Some(1), "postgres", &["postgres"], NOW - 100 * 3600),
    ];
    let mut items = grouped(&procs);
    mark(&mut items, &procs, &Config::default(), NOW);
    let vite = items.iter().find(|i| i.display_name == "vite").unwrap();
    let pg = items.iter().find(|i| i.display_name == "postgres").unwrap();
    assert_eq!(vite.state, RuntimeState::Suspicious);
    assert!(vite
        .suspicion
        .as_ref()
        .unwrap()
        .reasons
        .contains(&SuspicionReason::LongRunningDevServer));
    assert_eq!(pg.state, RuntimeState::Persistent);
    assert!(pg.suspicion.is_none());
}

#[test]
fn config_persistent_command_exempts() {
    let procs = vec![
        started(1, None, "launchd", &["launchd"], 1),
        started(10, Some(1), "node", &["node", "chrome-devtools-mcp"], 100),
    ];
    let mut cfg = Config::default();
    cfg.persistent.commands.push("chrome-devtools-mcp".into());
    let mut items = grouped(&procs);
    mark(&mut items, &procs, &cfg, NOW);
    assert_eq!(items[0].state, RuntimeState::Persistent);
}

#[test]
fn leftovers_are_counted_with_their_memory() {
    let procs = vec![
        started(1, None, "launchd", &["launchd"], 1),
        started(10, Some(1), "node", &["node", "chrome-devtools-mcp"], 100),
        started(30, Some(1), "postgres", &["postgres"], 100),
    ];
    let mut items = grouped(&procs);
    assert_eq!(leftover_count(&items), 0);
    assert_eq!(leftover_ram(&items), 0);
    mark(&mut items, &procs, &Config::default(), NOW);
    assert_eq!(leftover_count(&items), 1);
    assert_eq!(leftover_ram(&items), 40 << 20);
}
