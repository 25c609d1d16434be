use wyd::classify::rules::{browser_cmd_looks_dev, classify, is_vite, Signatures};
use wyd::config::SignatureConfig;
use wyd::model::process::ProcessInfo;
use wyd::model::runtime::Category;

fn proc(name: &str, cmd: &[&str]) -> ProcessInfo {
    ProcessInfo {
        pid: 1,
        parent_pid: None,
        name: name.into(),
        command: cmd.iter().map(|s| (*s).to_string()).collect(),
        executable: cmd.first().map(|s| (*s).to_string()),
        cwd: None,
        memory_bytes: 0,
        start_time: 0,
        tty: None,
    }
}

fn cat(p: ProcessInfo) -> Option<(Category, String)> {
    classify(&p, &Vec::new()).map(|c| (c.category, c.display_name))
}

#[test]
fn mcp_before_generic_node() {
    let p = proc("node", &["node", "/Users/x/.npm/_npx/chrome-devtools-mcp/index.js"]);
    assert_eq!(cat(p), Some((Category::Mcp, "chrome-devtools-mcp".into())));
}

#[test]
fn omp_is_exact_not_substring() {
    assert_eq!(cat(proc("omp", &["/opt/omp"])), Some((Category::Agent, "omp".into())));
    assert_eq!(cat(proc("prompt", &["prompt"])), None);
}

#[test]
fn vite_bin_is_dev_server() {
    let p = proc("node", &["node", "node_modules/.bin/vite"]);
    assert_eq!(cat(p), Some((Category::DevServer, "vite".into())));
    let resolved = proc(
        "node",
        &["node", "/Users/x/app/node_modules/vite/bin/vite.js", "--port", "3000"],
    );
    assert_eq!(cat(resolved), Some((Category::DevServer, "vite".into())));
}

#[test]
fn rust_analyzer_and_postgres() {
    assert_eq!(
        cat(proc("rust-analyzer", &["rust-analyzer"])),
        Some((Category::LanguageServer, "rust-analyzer".into()))
    );
    assert_eq!(
        cat(proc("postgres", &["postgres", "-D", "/opt/homebrew/var/postgresql"])),
        Some((Category::Database, "postgres".into()))
    );
}

#[test]
fn copilot_lsp_skips_npm_wrapper() {
    assert_eq!(
        cat(proc(
            "node",
            &["node", "/Users/x/.npm/_npx/x/node_modules/.bin/copilot-language-server", "--stdio"],
        )),
        Some((Category::LanguageServer, "copilot".into()))
    );
    assert_ne!(
        cat(proc("npm", &["npm", "exec", "@github/copilot-language-server@^1.408.0", "--stdio"]))
            .map(|(c, _)| c),
        Some(Category::LanguageServer)
    );
    assert_ne!(
        cat(proc(
            "node",
            &[
                "node",
                "/opt/homebrew/lib/node_modules/npm/bin/npm-cli.js",
                "exec",
                "@github/copilot-language-server@^1.408.0",
                "--stdio",
            ],
        ))
        .map(|(c, _)| c),
        Some(Category::LanguageServer)
    );
    assert_ne!(
        cat(proc("node", &["npm exec @github/copilot-language-server@^1.408.0 --stdio"]))
            .map(|(c, _)| c),
        Some(Category::LanguageServer)
    );
    assert_eq!(
        cat(proc("typescript-language-server", &["typescript-language-server", "--stdio"])),
        Some((Category::LanguageServer, "typescript".into()))
    );
}

#[test]
fn chromium_family() {
    assert_eq!(
        cat(proc("Chromium", &["/app/Chromium"])),
        Some((Category::Browser, "Chromium".into()))
    );
    assert_eq!(
        cat(proc("chrome", &["chrome", "--headless"])),
        Some((Category::Browser, "Chromium".into()))
    );
}

#[test]
fn new_agents() {
    for (bin, display) in [
        ("amp", "amp"),
        ("crush", "crush"),
        ("goose", "goose"),
        ("qwen", "qwen"),
        ("droid", "droid"),
        ("kiro-cli", "kiro"),
        ("agy", "antigravity"),
        ("pi", "pi"),
    ] {
        assert_eq!(
            cat(proc(bin, &[bin])),
            Some((Category::Agent, display.into())),
            "{bin} should be an agent"
        );
    }
    assert_ne!(
        cat(proc("qwen-code", &["qwen-code"])).map(|(c, _)| c),
        Some(Category::Agent)
    );
}

#[test]
fn vector_and_search_databases() {
    for bin in [
        "qdrant",
        "weaviate",
        "milvus",
        "elasticsearch",
        "opensearch",
        "clickhouse-server",
        "cockroach",
        "cassandra",
        "memcached",
        "neo4j",
        "meilisearch",
        "typesense-server",
        "influxd",
        "sqlservr",
    ] {
        assert_eq!(
            cat(proc(bin, &[bin])).map(|(c, _)| c),
            Some(Category::Database),
            "{bin} should be a database"
        );
    }
}

#[test]
fn new_language_servers() {
    for bin in [
        "vue-language-server",
        "svelteserver",
        "tailwindcss-language-server",
        "vscode-eslint-language-server",
        "yaml-language-server",
        "bash-language-server",
        "docker-langserver",
        "jdtls",
        "ruby-lsp",
        "solargraph",
        "nixd",
    ] {
        assert_eq!(
            cat(proc(bin, &[bin])).map(|(c, _)| c),
            Some(Category::LanguageServer),
            "{bin} should be a language server"
        );
    }
    assert_eq!(
        cat(proc("biome", &["biome", "lsp-proxy"])).map(|(c, _)| c),
        Some(Category::LanguageServer)
    );
    assert_ne!(
        cat(proc("biome", &["biome", "check"])).map(|(c, _)| c),
        Some(Category::LanguageServer)
    );
    assert_eq!(
        cat(proc("nil", &["nil"])).map(|(c, _)| c),
        Some(Category::LanguageServer)
    );
    assert_ne!(
        cat(proc("terminal", &["terminal"])).map(|(c, _)| c),
        Some(Category::LanguageServer)
    );
}

#[test]
fn background_workers() {
    for (name, cmd, _display) in [
        ("celery", &["celery", "-A", "proj", "worker"][..], "celery"),
        ("sidekiq", &["ruby", "bin/sidekiq"][..], "sidekiq"),
        ("node", &["node", "node_modules/nodemon/bin/nodemon.js"][..], "nodemon"),
        ("cargo-watch", &["cargo-watch", "-x", "run"][..], "cargo-watch"),
        ("watchexec", &["watchexec", "make"][..], "watchexec"),
        ("air", &["air"][..], "air"),
        ("node", &["node", "node_modules/typescript/bin/tsc", "--watch"][..], "watcher"),
    ] {
        assert_eq!(
            cat(proc(name, cmd)).map(|(c, _)| c),
            Some(Category::Worker),
            "{cmd:?} should be a worker"
        );
    }
}

#[test]
fn new_dev_servers() {
    for (name, cmd, _display) in [
        ("node", &["node", "node_modules/.bin/astro", "dev"][..], "astro"),
        ("node", &["node", "node_modules/@sveltejs/kit/bin/kit.js"][..], "svelte-kit"),
        ("node", &["node", "node_modules/@remix-run/dev/dist/cli.js"][..], "remix"),
        ("node", &["node", "node_modules/.bin/nest", "start"][..], "nest"),
        ("puma", &["puma"][..], "puma"),
        ("rails", &["rails", "server"][..], "rails"),
        ("beam.smp", &["beam.smp", "phx.server"][..], "phoenix"),
    ] {
        assert_eq!(
            cat(proc(name, cmd)).map(|(c, _)| c),
            Some(Category::DevServer),
            "{cmd:?} should be a dev server"
        );
    }
}

#[test]
fn user_signature_wins_over_the_built_in_rules() {
    let mine = vec![SignatureConfig {
        category: "database".into(),
        names: vec!["OMP".into()],
        contains: vec![],
        display: "my omp".into(),
    }];
    let c = classify(&proc("omp", &["omp"]), &mine).unwrap();
    assert_eq!(c.category, Category::Database);
    assert_eq!(c.display_name, "my omp");
    // One that names no category of its own is passed over.
    let odd = vec![SignatureConfig {
        category: "nonsense".into(),
        names: vec!["omp".into()],
        contains: vec![],
        display: "x".into(),
    }];
    assert_eq!(classify(&proc("omp", &["omp"]), &odd).unwrap().category, Category::Agent);
}

#[test]
fn names_are_matched_without_case() {
    assert_eq!(cat(proc("OMP", &["OMP"])), Some((Category::Agent, "omp".into())));
    assert_eq!(
        cat(proc("Postgres", &["Postgres"])).map(|(c, _)| c),
        Some(Category::Database)
    );
}

#[test]
fn a_table_is_reusable() {
    let table = Signatures::new();
    let none = Vec::new();
    assert_eq!(
        table.classify(&proc("gopls", &["gopls"]), &none).map(|c| c.category),
        Some(Category::LanguageServer)
    );
    assert!(table.classify(&proc("kernel_task", &["kernel_task"]), &none).is_none());
}

#[test]
fn vite_needs_a_word_of_its_own() {
    assert!(is_vite("node node_modules/.bin/vite", "node", "node"));
    assert!(is_vite("vite", "vite", "vite"));
    assert!(!is_vite("node invite.js", "node", "node"));
}

#[test]
fn automated_browsers_are_told_by_their_flags() {
    assert!(browser_cmd_looks_dev(&proc("chrome", &["chrome", "--headless"])));
    assert!(!browser_cmd_looks_dev(&proc("chrome", &["chrome", "https://example.org"])));
}

#[test]
fn a_language_server_alone_goes_by_its_own_name() {
    assert_eq!(
        cat(proc("typescript-language-server", &["typescript-language-server"])),
        Some((Category::LanguageServer, "typescript-language-server".into()))
    );
    assert_eq!(
        cat(proc("node", &["node", "/lib/typescript-language-server", "--stdio"])),
        Some((Category::LanguageServer, "typescript".into()))
    );
}
