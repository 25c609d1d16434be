//! The signature table: which process is what.

use crate::config;
use crate::config::SignatureConfig;
use crate::model::process::ProcessInfo;
use crate::model::runtime::Category;
use crate::path;
use crate::path::file_name;
use crate::text;
use crate::text::{chars_of, holds, join_of, lower_of, same, stands_at};
use vstd::prelude::*;

verus! {

/// Result of matching a single process against the signature table.
#[derive(Debug, Clone, PartialEq, Eq)]
pub struct Class {
    pub category: Category,
    pub display_name: String,
}

/// A class as a model: what the process is, and the name it is shown under.
pub struct ClassModel {
    pub category: Category,
    pub name: Seq<char>,
}

impl View for Class {
    type V = ClassModel;

    open spec fn view(&self) -> ClassModel {
        ClassModel { category: self.category, name: self.display_name@ }
    }
}

impl Class {
    pub fn copy(&self) -> (r: Class)
        ensures
            r@ == self@,
    {
        Class { category: self.category, display_name: self.display_name.clone() }
    }
}

/// The class of an optional match.
pub open spec fn class_view(c: Option<Class>) -> Option<ClassModel> {
    match c {
        Some(c) => Some(c@),
        None => None,
    }
}

// ---------------------------------------------------------------------------
// What a process is matched by
// ---------------------------------------------------------------------------

/// The lowercased texts of a process that signatures look at.
pub struct Words {
    /// Process name.
    pub name: Seq<char>,
    /// Base name of the first argument, the process name where there is none.
    pub argv0: Seq<char>,
    /// Name, argv0, command line and executable.
    pub hay: Seq<char>,
    /// The command is the program alone.
    pub alone: bool,
}

/// Base name of the first argument, in lower case.
pub open spec fn argv0_of(p: ProcessInfo) -> Seq<char> {
    text::lower(
        if p.command@.len() == 0 {
            p.name@
        } else {
            match path::base_name(p.command@[0]@) {
                Some(b) => b,
                None => p.name@,
            }
        },
    )
}

/// The lowercased command line.
pub open spec fn command_line(p: ProcessInfo) -> Seq<char> {
    text::lower(text::joined(text::texts(p.command@), " "@))
}

/// The lowercased executable path, empty where it is unknown.
pub open spec fn executable_of(p: ProcessInfo) -> Seq<char> {
    match p.executable {
        Some(e) => text::lower(e@),
        None => Seq::empty(),
    }
}

pub open spec fn words_of(p: ProcessInfo) -> Words {
    let name = text::lower(p.name@);
    let argv0 = argv0_of(p);
    Words {
        name,
        argv0,
        hay: name + " "@ + argv0 + " "@ + command_line(p) + " "@ + executable_of(p),
        alone: p.command@.len() <= 1,
    }
}

/// One thing that a signature looks for.
pub enum TestModel {
    /// The name or argv0 is exactly this.
    Name(Seq<char>),
    /// The same, of a process that was started without arguments.
    Alone(Seq<char>),
    /// The whole text holds this.
    Hay(Seq<char>),
    /// The whole text holds both.
    Both(Seq<char>, Seq<char>),
    /// The name or argv0 holds this.
    Short(Seq<char>),
    /// The name holds this.
    InName(Seq<char>),
    /// A Vite server in one of its forms.
    Vite,
    /// A process named just `chrome` that is not the DevTools MCP.
    BareChrome,
}

/// A separator between the words of a command line.
pub open spec fn is_separator(c: char) -> bool {
    c == '/' || c == '\\' || c == ' ' || c == ':'
}

/// `w` stands at `i` with nothing but separators, or an end, on both sides.
pub open spec fn word_at(hay: Seq<char>, w: Seq<char>, i: int) -> bool {
    &&& text::occurs_at(hay, w, i)
    &&& i == 0 || is_separator(hay[i - 1])
    &&& i + w.len() == hay.len() || is_separator(hay[i + w.len()])
}

pub open spec fn has_word(hay: Seq<char>, w: Seq<char>) -> bool {
    exists|i: int| word_at(hay, w, i)
}

pub open spec fn named(w: Words, exact: Seq<char>) -> bool {
    w.name == exact || w.argv0 == exact
}

/// Real Vite is `node …/node_modules/vite/bin/vite.js`; `.bin/vite` is only
/// the symlink form.
pub open spec fn looks_like_vite(w: Words) -> bool {
    ||| named(w, "vite"@)
    ||| text::contains(w.hay, "node_modules/.bin/vite"@)
    ||| text::contains(w.hay, "node_modules/vite"@)
    ||| text::contains(w.hay, "/vite/bin/vite"@)
    ||| text::contains(w.hay, "vite/dist/node/cli"@)
    ||| has_word(w.hay, "vite"@)
    ||| has_word(w.hay, "vite.js"@)
}

pub open spec fn passes(t: TestModel, w: Words) -> bool {
    match t {
        TestModel::Name(x) => named(w, x),
        TestModel::Alone(x) => named(w, x) && w.alone,
        TestModel::Hay(x) => text::contains(w.hay, x),
        TestModel::Both(x, y) => text::contains(w.hay, x) && text::contains(w.hay, y),
        TestModel::Short(x) => text::contains(w.name, x) || text::contains(w.argv0, x),
        TestModel::InName(x) => text::contains(w.name, x),
        TestModel::Vite => looks_like_vite(w),
        TestModel::BareChrome => named(w, "chrome"@) && !text::contains(
            w.hay,
            "chrome-devtools-mcp"@,
        ),
    }
}

/// Package-manager wrappers mention the package on argv; the child node is
/// the real server.
pub open spec fn is_wrapper(w: Words) -> bool {
    ||| named(w, "npm"@)
    ||| named(w, "npx"@)
    ||| named(w, "pnpm"@)
    ||| named(w, "yarn"@)
    ||| named(w, "bun"@)
    ||| text::contains(w.hay, "npm-cli.js"@)
    ||| text::contains(w.hay, "npx-cli.js"@)
    ||| text::contains(w.hay, "npm exec"@)
}

/// One line of the table.
pub struct RuleModel {
    pub category: Category,
    /// The name to show; none means the process's own.
    pub display: Option<Seq<char>>,
    /// Whether the line applies to package-manager wrappers too.
    pub wrappers: bool,
    /// One of these must pass.
    pub any: Seq<TestModel>,
}

pub open spec fn applies(r: RuleModel, w: Words) -> bool {
    (r.wrappers || !is_wrapper(w)) && exists|k: int|
        0 <= k < r.any.len() && passes(#[trigger] r.any[k], w)
}

/// The first line from `i` on that applies.
pub open spec fn first_from(rules: Seq<RuleModel>, w: Words, i: int) -> Option<RuleModel>
    decreases rules.len() - i,
{
    if i < 0 || i >= rules.len() {
        None
    } else if applies(rules[i], w) {
        Some(rules[i])
    } else {
        first_from(rules, w, i + 1)
    }
}

/// Every line, more specific ones first.
#[verifier::opaque]
pub open spec fn all_rules() -> Seq<RuleModel> {
    mcp_rules() + agent_rules() + language_server_rules() + dev_server_rules() + worker_rules()
        + database_rules() + service_rules() + browser_rules() + runtime_rules()
}

/// A signature of the user's that matches: one of its names exactly, or one
/// of its fragments anywhere, in any case.
pub open spec fn signature_hits(s: SignatureConfig, w: Words) -> bool {
    ||| exists|k: int|
        0 <= k < s.names@.len() && named(w, text::lower((#[trigger] s.names@[k])@))
    ||| exists|k: int|
        0 <= k < s.contains@.len() && text::contains(
            w.hay,
            text::lower((#[trigger] s.contains@[k])@),
        )
}

/// The class given by the first of the user's signatures from `i` on that
/// names a known category and matches.
pub open spec fn extra_from(sigs: Seq<SignatureConfig>, w: Words, i: int) -> Option<ClassModel>
    decreases sigs.len() - i,
{
    if i < 0 || i >= sigs.len() {
        None
    } else {
        match config::category_named(sigs[i].category@) {
            Some(category) if signature_hits(sigs[i], w) => Some(
                ClassModel {
                    category,
                    name: if sigs[i].display@.len() == 0 {
                        w.name
                    } else {
                        sigs[i].display@
                    },
                },
            ),
            _ => extra_from(sigs, w, i + 1),
        }
    }
}

/// What a process is: by the user's signatures first, by the table then.
/// First match wins.
pub open spec fn classified(p: ProcessInfo, sigs: Seq<SignatureConfig>) -> Option<ClassModel> {
    let w = words_of(p);
    match extra_from(sigs, w, 0) {
        Some(c) => Some(c),
        None => match first_from(all_rules(), w, 0) {
            Some(r) => Some(
                ClassModel {
                    category: r.category,
                    name: match r.display {
                        Some(d) => d,
                        None => p.best_name(),
                    },
                },
            ),
            None => None,
        },
    }
}

/// True when this browser looks automation/dev-related from its own command.
pub open spec fn looks_automated(p: ProcessInfo) -> bool {
    let hay = command_line(p) + " "@ + executable_of(p);
    ||| text::contains(hay, "playwright"@)
    ||| text::contains(hay, "puppeteer"@)
    ||| text::contains(hay, "chrome-devtools"@)
    ||| text::contains(hay, "remote-debugging"@)
    ||| text::contains(hay, "headless"@)
}

// ---------------------------------------------------------------------------
// The table
// ---------------------------------------------------------------------------

enum Test {
    Name(&'static str),
    Alone(&'static str),
    Hay(&'static str),
    Both(&'static str, &'static str),
    Short(&'static str),
    InName(&'static str),
    Vite,
    BareChrome,
}

impl Test {
    spec fn model(self) -> TestModel {
        match self {
            Test::Name(x) => TestModel::Name(x@),
            Test::Alone(x) => TestModel::Alone(x@),
            Test::Hay(x) => TestModel::Hay(x@),
            Test::Both(x, y) => TestModel::Both(x@, y@),
            Test::Short(x) => TestModel::Short(x@),
            Test::InName(x) => TestModel::InName(x@),
            Test::Vite => TestModel::Vite,
            Test::BareChrome => TestModel::BareChrome,
        }
    }
}

spec fn test_models(v: Seq<Test>) -> Seq<TestModel> {
    v.map_values(|t: Test| t.model())
}

struct Rule {
    category: Category,
    display: Option<&'static str>,
    wrappers: bool,
    any: Vec<Test>,
}

impl Rule {
    spec fn model(self) -> RuleModel {
        RuleModel {
            category: self.category,
            display: match self.display {
                Some(d) => Some(d@),
                None => None,
            },
            wrappers: self.wrappers,
            any: test_models(self.any@),
        }
    }
}

spec fn rule_models(v: Seq<Rule>) -> Seq<RuleModel> {
    v.map_values(|r: Rule| r.model())
}

fn one_of(a: Test) -> (v: Vec<Test>)
    ensures
        test_models(v@) == seq![a.model()],
{
    let v: Vec<Test> = vec![a];
    assert(test_models(v@) =~= seq![a.model()]);
    v
}

fn two_of(a: Test, b: Test) -> (v: Vec<Test>)
    ensures
        test_models(v@) == seq![a.model(), b.model()],
{
    let v: Vec<Test> = vec![a, b];
    assert(test_models(v@) =~= seq![a.model(), b.model()]);
    v
}

fn three_of(a: Test, b: Test, c: Test) -> (v: Vec<Test>)
    ensures
        test_models(v@) == seq![a.model(), b.model(), c.model()],
{
    let v: Vec<Test> = vec![a, b, c];
    assert(test_models(v@) =~= seq![a.model(), b.model(), c.model()]);
    v
}

fn four_of(a: Test, b: Test, c: Test, d: Test) -> (v: Vec<Test>)
    ensures
        test_models(v@) == seq![a.model(), b.model(), c.model(), d.model()],
{
    let v: Vec<Test> = vec![a, b, c, d];
    assert(test_models(v@) =~= seq![a.model(), b.model(), c.model(), d.model()]);
    v
}

fn seven_of(a: Test, b: Test, c: Test, d: Test, e: Test, f: Test, g: Test) -> (v: Vec<Test>)
    ensures
        test_models(v@) == seq![a.model(), b.model(), c.model(), d.model(), e.model(), f.model(), g.model()],
{
    let v: Vec<Test> = vec![a, b, c, d, e, f, g];
    assert(test_models(v@) =~= seq![a.model(), b.model(), c.model(), d.model(), e.model(), f.model(), g.model()]);
    v
}

fn rule(category: Category, display: Option<&'static str>, wrappers: bool, any: Vec<Test>) -> (r: Rule)
    ensures
        r.model() == (RuleModel {
            category,
            display: match display {
                Some(d) => Some(d@),
                None => None,
            },
            wrappers,
            any: test_models(any@),
        }),
{
    Rule { category, display, wrappers, any }
}

/// MCP servers.
pub open spec fn mcp_rules() -> Seq<RuleModel> {
    seq![
        RuleModel { category: Category::Mcp, display: Some("chrome-devtools-mcp"@), wrappers: false, any: seq![TestModel::Hay("chrome-devtools-mcp"@)] },
        RuleModel { category: Category::Mcp, display: Some("playwright-mcp"@), wrappers: false, any: seq![TestModel::Hay("playwright-mcp"@)] },
        RuleModel { category: Category::Mcp, display: Some("playwright-mcp"@), wrappers: false, any: seq![TestModel::Hay("@playwright/mcp"@)] },
        RuleModel { category: Category::Mcp, display: Some("filesystem"@), wrappers: false, any: seq![TestModel::Hay("mcp-server-filesystem"@)] },
        RuleModel { category: Category::Mcp, display: Some("mcp-server"@), wrappers: false, any: seq![TestModel::Hay("@modelcontextprotocol/server"@)] },
        RuleModel { category: Category::Mcp, display: Some("context7"@), wrappers: false, any: seq![TestModel::Hay("context7"@)] },
        RuleModel { category: Category::Mcp, display: Some("queryknight"@), wrappers: false, any: seq![TestModel::Hay("queryknight"@)] },
        RuleModel { category: Category::Mcp, display: Some("mcp-server"@), wrappers: false, any: seq![TestModel::Hay("mcp-server"@)] },
        RuleModel { category: Category::Mcp, display: None, wrappers: false, any: seq![TestModel::Short("-mcp"@), TestModel::InName("mcp-server"@)] },
    ]
}

fn mcp_table() -> (v: Vec<Rule>)
    ensures
        rule_models(v@) == mcp_rules(),
{
    let mut v: Vec<Rule> = Vec::new();
    v.push(rule(Category::Mcp, Some("chrome-devtools-mcp"), false, one_of(Test::Hay("chrome-devtools-mcp"))));
    v.push(rule(Category::Mcp, Some("playwright-mcp"), false, one_of(Test::Hay("playwright-mcp"))));
    v.push(rule(Category::Mcp, Some("playwright-mcp"), false, one_of(Test::Hay("@playwright/mcp"))));
    v.push(rule(Category::Mcp, Some("filesystem"), false, one_of(Test::Hay("mcp-server-filesystem"))));
    v.push(rule(Category::Mcp, Some("mcp-server"), false, one_of(Test::Hay("@modelcontextprotocol/server"))));
    v.push(rule(Category::Mcp, Some("context7"), false, one_of(Test::Hay("context7"))));
    v.push(rule(Category::Mcp, Some("queryknight"), false, one_of(Test::Hay("queryknight"))));
    v.push(rule(Category::Mcp, Some("mcp-server"), false, one_of(Test::Hay("mcp-server"))));
    v.push(rule(Category::Mcp, None, false, two_of(Test::Short("-mcp"), Test::InName("mcp-server"))));
    assert(rule_models(v@) =~= mcp_rules());
    v
}

/// Coding agents. Short names are exact, so that they do not match inside other words. The
/// table does not name every agent there is: a signature of the user's adds any other.
pub open spec fn agent_rules() -> Seq<RuleModel> {
    seq![
        RuleModel { category: Category::Agent, display: Some("omp"@), wrappers: true, any: seq![TestModel::Name("omp"@)] },
        RuleModel { category: Category::Agent, display: Some("opencode"@), wrappers: true, any: seq![TestModel::Name("opencode"@)] },
        RuleModel { category: Category::Agent, display: Some("codex"@), wrappers: true, any: seq![TestModel::Name("codex"@)] },
        RuleModel { category: Category::Agent, display: Some("aider"@), wrappers: true, any: seq![TestModel::Name("aider"@)] },
        RuleModel { category: Category::Agent, display: Some("cursor"@), wrappers: true, any: seq![TestModel::Name("cursor-agent"@)] },
        RuleModel { category: Category::Agent, display: Some("gemini"@), wrappers: true, any: seq![TestModel::Name("gemini"@)] },
        RuleModel { category: Category::Agent, display: Some("amp"@), wrappers: true, any: seq![TestModel::Name("amp"@)] },
        RuleModel { category: Category::Agent, display: Some("crush"@), wrappers: true, any: seq![TestModel::Name("crush"@)] },
        RuleModel { category: Category::Agent, display: Some("goose"@), wrappers: true, any: seq![TestModel::Name("goose"@)] },
        RuleModel { category: Category::Agent, display: Some("qwen"@), wrappers: true, any: seq![TestModel::Name("qwen"@)] },
        RuleModel { category: Category::Agent, display: Some("droid"@), wrappers: true, any: seq![TestModel::Name("droid"@)] },
        RuleModel { category: Category::Agent, display: Some("kiro"@), wrappers: true, any: seq![TestModel::Name("kiro-cli"@)] },
        RuleModel { category: Category::Agent, display: Some("antigravity"@), wrappers: true, any: seq![TestModel::Name("agy"@)] },
        RuleModel { category: Category::Agent, display: Some("pi"@), wrappers: true, any: seq![TestModel::Name("pi"@)] },
    ]
}

fn agent_table() -> (v: Vec<Rule>)
    ensures
        rule_models(v@) == agent_rules(),
{
    let mut v: Vec<Rule> = Vec::new();
    v.push(rule(Category::Agent, Some("omp"), true, one_of(Test::Name("omp"))));
    v.push(rule(Category::Agent, Some("opencode"), true, one_of(Test::Name("opencode"))));
    v.push(rule(Category::Agent, Some("codex"), true, one_of(Test::Name("codex"))));
    v.push(rule(Category::Agent, Some("aider"), true, one_of(Test::Name("aider"))));
    v.push(rule(Category::Agent, Some("cursor"), true, one_of(Test::Name("cursor-agent"))));
    v.push(rule(Category::Agent, Some("gemini"), true, one_of(Test::Name("gemini"))));
    v.push(rule(Category::Agent, Some("amp"), true, one_of(Test::Name("amp"))));
    v.push(rule(Category::Agent, Some("crush"), true, one_of(Test::Name("crush"))));
    v.push(rule(Category::Agent, Some("goose"), true, one_of(Test::Name("goose"))));
    v.push(rule(Category::Agent, Some("qwen"), true, one_of(Test::Name("qwen"))));
    v.push(rule(Category::Agent, Some("droid"), true, one_of(Test::Name("droid"))));
    v.push(rule(Category::Agent, Some("kiro"), true, one_of(Test::Name("kiro-cli"))));
    v.push(rule(Category::Agent, Some("antigravity"), true, one_of(Test::Name("agy"))));
    v.push(rule(Category::Agent, Some("pi"), true, one_of(Test::Name("pi"))));
    assert(rule_models(v@) =~= agent_rules());
    v
}

/// Language servers. Substring-risky short names are exact, or take an explicit subcommand.
/// The TypeScript one goes by its own name until it serves an editor, which takes an argument.
pub open spec fn language_server_rules() -> Seq<RuleModel> {
    seq![
        RuleModel { category: Category::LanguageServer, display: Some("rust-analyzer"@), wrappers: false, any: seq![TestModel::Name("rust-analyzer"@), TestModel::Hay("rust-analyzer"@)] },
        RuleModel { category: Category::LanguageServer, display: Some("gopls"@), wrappers: false, any: seq![TestModel::Name("gopls"@), TestModel::Hay("gopls"@)] },
        RuleModel { category: Category::LanguageServer, display: Some("typescript-language-server"@), wrappers: false, any: seq![TestModel::Alone("typescript-language-server"@)] },
        RuleModel { category: Category::LanguageServer, display: Some("typescript"@), wrappers: false, any: seq![TestModel::Name("typescript-language-server"@), TestModel::Hay("typescript-language-server"@)] },
        RuleModel { category: Category::LanguageServer, display: Some("copilot"@), wrappers: false, any: seq![TestModel::Name("copilot-language-server"@), TestModel::Hay("copilot-language-server"@)] },
        RuleModel { category: Category::LanguageServer, display: Some("pyright"@), wrappers: false, any: seq![TestModel::Name("pyright-langserver"@), TestModel::Hay("pyright-langserver"@)] },
        RuleModel { category: Category::LanguageServer, display: Some("pyright"@), wrappers: false, any: seq![TestModel::Name("pyright"@), TestModel::Hay("pyright"@)] },
        RuleModel { category: Category::LanguageServer, display: Some("clangd"@), wrappers: false, any: seq![TestModel::Name("clangd"@), TestModel::Hay("clangd"@)] },
        RuleModel { category: Category::LanguageServer, display: Some("lua"@), wrappers: false, any: seq![TestModel::Name("lua-language-server"@), TestModel::Hay("lua-language-server"@)] },
        RuleModel { category: Category::LanguageServer, display: Some("intelephense"@), wrappers: false, any: seq![TestModel::Name("intelephense"@), TestModel::Hay("intelephense"@)] },
        RuleModel { category: Category::LanguageServer, display: Some("vue"@), wrappers: false, any: seq![TestModel::Name("vue-language-server"@), TestModel::Hay("vue-language-server"@)] },
        RuleModel { category: Category::LanguageServer, display: Some("vue"@), wrappers: false, any: seq![TestModel::Name("@vue/language-server"@), TestModel::Hay("@vue/language-server"@)] },
        RuleModel { category: Category::LanguageServer, display: Some("svelte"@), wrappers: false, any: seq![TestModel::Name("svelteserver"@), TestModel::Hay("svelteserver"@)] },
        RuleModel { category: Category::LanguageServer, display: Some("svelte"@), wrappers: false, any: seq![TestModel::Name("svelte-language-server"@), TestModel::Hay("svelte-language-server"@)] },
        RuleModel { category: Category::LanguageServer, display: Some("tailwind"@), wrappers: false, any: seq![TestModel::Name("tailwindcss-language-server"@), TestModel::Hay("tailwindcss-language-server"@)] },
        RuleModel { category: Category::LanguageServer, display: Some("eslint"@), wrappers: false, any: seq![TestModel::Name("vscode-eslint-language-server"@), TestModel::Hay("vscode-eslint-language-server"@)] },
        RuleModel { category: Category::LanguageServer, display: Some("eslint"@), wrappers: false, any: seq![TestModel::Name("eslint_d"@), TestModel::Hay("eslint_d"@)] },
        RuleModel { category: Category::LanguageServer, display: Some("yaml"@), wrappers: false, any: seq![TestModel::Name("yaml-language-server"@), TestModel::Hay("yaml-language-server"@)] },
        RuleModel { category: Category::LanguageServer, display: Some("bash"@), wrappers: false, any: seq![TestModel::Name("bash-language-server"@), TestModel::Hay("bash-language-server"@)] },
        RuleModel { category: Category::LanguageServer, display: Some("docker"@), wrappers: false, any: seq![TestModel::Name("docker-langserver"@), TestModel::Hay("docker-langserver"@)] },
        RuleModel { category: Category::LanguageServer, display: Some("jdtls"@), wrappers: false, any: seq![TestModel::Name("jdtls"@), TestModel::Hay("jdtls"@)] },
        RuleModel { category: Category::LanguageServer, display: Some("ruby"@), wrappers: false, any: seq![TestModel::Name("ruby-lsp"@), TestModel::Hay("ruby-lsp"@)] },
        RuleModel { category: Category::LanguageServer, display: Some("ruby"@), wrappers: false, any: seq![TestModel::Name("solargraph"@), TestModel::Hay("solargraph"@)] },
        RuleModel { category: Category::LanguageServer, display: Some("nix"@), wrappers: false, any: seq![TestModel::Name("nixd"@), TestModel::Hay("nixd"@)] },
        RuleModel { category: Category::LanguageServer, display: Some("biome"@), wrappers: false, any: seq![TestModel::Hay("biome lsp-proxy"@)] },
        RuleModel { category: Category::LanguageServer, display: Some("nil"@), wrappers: false, any: seq![TestModel::Name("nil"@)] },
        RuleModel { category: Category::LanguageServer, display: None, wrappers: false, any: seq![TestModel::Hay("language-server"@), TestModel::Hay("langserver"@)] },
    ]
}

fn language_server_table() -> (v: Vec<Rule>)
    ensures
        rule_models(v@) == language_server_rules(),
{
    let mut v: Vec<Rule> = Vec::new();
    v.push(rule(Category::LanguageServer, Some("rust-analyzer"), false, two_of(Test::Name("rust-analyzer"), Test::Hay("rust-analyzer"))));
    v.push(rule(Category::LanguageServer, Some("gopls"), false, two_of(Test::Name("gopls"), Test::Hay("gopls"))));
    v.push(rule(Category::LanguageServer, Some("typescript-language-server"), false, one_of(Test::Alone("typescript-language-server"))));
    v.push(rule(Category::LanguageServer, Some("typescript"), false, two_of(Test::Name("typescript-language-server"), Test::Hay("typescript-language-server"))));
    v.push(rule(Category::LanguageServer, Some("copilot"), false, two_of(Test::Name("copilot-language-server"), Test::Hay("copilot-language-server"))));
    v.push(rule(Category::LanguageServer, Some("pyright"), false, two_of(Test::Name("pyright-langserver"), Test::Hay("pyright-langserver"))));
    v.push(rule(Category::LanguageServer, Some("pyright"), false, two_of(Test::Name("pyright"), Test::Hay("pyright"))));
    v.push(rule(Category::LanguageServer, Some("clangd"), false, two_of(Test::Name("clangd"), Test::Hay("clangd"))));
    v.push(rule(Category::LanguageServer, Some("lua"), false, two_of(Test::Name("lua-language-server"), Test::Hay("lua-language-server"))));
    v.push(rule(Category::LanguageServer, Some("intelephense"), false, two_of(Test::Name("intelephense"), Test::Hay("intelephense"))));
    v.push(rule(Category::LanguageServer, Some("vue"), false, two_of(Test::Name("vue-language-server"), Test::Hay("vue-language-server"))));
    v.push(rule(Category::LanguageServer, Some("vue"), false, two_of(Test::Name("@vue/language-server"), Test::Hay("@vue/language-server"))));
    v.push(rule(Category::LanguageServer, Some("svelte"), false, two_of(Test::Name("svelteserver"), Test::Hay("svelteserver"))));
    v.push(rule(Category::LanguageServer, Some("svelte"), false, two_of(Test::Name("svelte-language-server"), Test::Hay("svelte-language-server"))));
    v.push(rule(Category::LanguageServer, Some("tailwind"), false, two_of(Test::Name("tailwindcss-language-server"), Test::Hay("tailwindcss-language-server"))));
    v.push(rule(Category::LanguageServer, Some("eslint"), false, two_of(Test::Name("vscode-eslint-language-server"), Test::Hay("vscode-eslint-language-server"))));
    v.push(rule(Category::LanguageServer, Some("eslint"), false, two_of(Test::Name("eslint_d"), Test::Hay("eslint_d"))));
    v.push(rule(Category::LanguageServer, Some("yaml"), false, two_of(Test::Name("yaml-language-server"), Test::Hay("yaml-language-server"))));
    v.push(rule(Category::LanguageServer, Some("bash"), false, two_of(Test::Name("bash-language-server"), Test::Hay("bash-language-server"))));
    v.push(rule(Category::LanguageServer, Some("docker"), false, two_of(Test::Name("docker-langserver"), Test::Hay("docker-langserver"))));
    v.push(rule(Category::LanguageServer, Some("jdtls"), false, two_of(Test::Name("jdtls"), Test::Hay("jdtls"))));
    v.push(rule(Category::LanguageServer, Some("ruby"), false, two_of(Test::Name("ruby-lsp"), Test::Hay("ruby-lsp"))));
    v.push(rule(Category::LanguageServer, Some("ruby"), false, two_of(Test::Name("solargraph"), Test::Hay("solargraph"))));
    v.push(rule(Category::LanguageServer, Some("nix"), false, two_of(Test::Name("nixd"), Test::Hay("nixd"))));
    v.push(rule(Category::LanguageServer, Some("biome"), false, one_of(Test::Hay("biome lsp-proxy"))));
    v.push(rule(Category::LanguageServer, Some("nil"), false, one_of(Test::Name("nil"))));
    v.push(rule(Category::LanguageServer, None, false, two_of(Test::Hay("language-server"), Test::Hay("langserver"))));
    assert(rule_models(v@) =~= language_server_rules());
    v
}

/// Dev servers, before generic runtimes.
pub open spec fn dev_server_rules() -> Seq<RuleModel> {
    seq![
        RuleModel { category: Category::DevServer, display: Some("vite"@), wrappers: true, any: seq![TestModel::Vite] },
        RuleModel { category: Category::DevServer, display: Some("next"@), wrappers: true, any: seq![TestModel::Hay("next dev"@), TestModel::Hay("next-server"@), TestModel::Hay("node_modules/next"@)] },
        RuleModel { category: Category::DevServer, display: Some("nuxt"@), wrappers: true, any: seq![TestModel::Name("nuxt"@), TestModel::Both("nuxt"@, "dev"@)] },
        RuleModel { category: Category::DevServer, display: Some("uvicorn"@), wrappers: true, any: seq![TestModel::Hay("uvicorn"@)] },
        RuleModel { category: Category::DevServer, display: Some("gunicorn"@), wrappers: true, any: seq![TestModel::Hay("gunicorn"@)] },
        RuleModel { category: Category::DevServer, display: Some("django"@), wrappers: true, any: seq![TestModel::Both("manage.py"@, "runserver"@)] },
        RuleModel { category: Category::DevServer, display: Some("flask"@), wrappers: true, any: seq![TestModel::Hay("flask run"@)] },
        RuleModel { category: Category::DevServer, display: Some("php"@), wrappers: true, any: seq![TestModel::Hay("artisan serve"@), TestModel::Hay("php -s"@)] },
        RuleModel { category: Category::DevServer, display: Some("webpack"@), wrappers: true, any: seq![TestModel::Hay("webpack-dev-server"@), TestModel::Hay("webpack serve"@)] },
        RuleModel { category: Category::DevServer, display: Some("astro"@), wrappers: true, any: seq![TestModel::Name("astro"@), TestModel::Hay("astro dev"@), TestModel::Hay("@astrojs"@)] },
        RuleModel { category: Category::DevServer, display: Some("svelte-kit"@), wrappers: true, any: seq![TestModel::Hay("svelte-kit"@), TestModel::Hay("@sveltejs/kit"@)] },
        RuleModel { category: Category::DevServer, display: Some("remix"@), wrappers: true, any: seq![TestModel::Name("remix"@), TestModel::Hay("@remix-run"@), TestModel::Hay("react-router"@)] },
        RuleModel { category: Category::DevServer, display: Some("parcel"@), wrappers: true, any: seq![TestModel::Name("parcel"@), TestModel::Hay("parcel-bundler"@)] },
        RuleModel { category: Category::DevServer, display: Some("rsbuild"@), wrappers: true, any: seq![TestModel::Hay("rsbuild"@)] },
        RuleModel { category: Category::DevServer, display: Some("rspack"@), wrappers: true, any: seq![TestModel::Hay("rspack"@)] },
        RuleModel { category: Category::DevServer, display: Some("nest"@), wrappers: true, any: seq![TestModel::Name("nest"@), TestModel::Hay("@nestjs"@), TestModel::Hay("nest start"@), TestModel::Hay("nest serve"@)] },
        RuleModel { category: Category::DevServer, display: Some("puma"@), wrappers: true, any: seq![TestModel::Hay("puma"@)] },
        RuleModel { category: Category::DevServer, display: Some("rails"@), wrappers: true, any: seq![TestModel::Name("rails"@), TestModel::Hay("rails s"@)] },
        RuleModel { category: Category::DevServer, display: Some("phoenix"@), wrappers: true, any: seq![TestModel::Hay("phx.server"@), TestModel::Hay("phoenix"@)] },
    ]
}

fn dev_server_table() -> (v: Vec<Rule>)
    ensures
        rule_models(v@) == dev_server_rules(),
{
    let mut v: Vec<Rule> = Vec::new();
    v.push(rule(Category::DevServer, Some("vite"), true, one_of(Test::Vite)));
    v.push(rule(Category::DevServer, Some("next"), true, three_of(Test::Hay("next dev"), Test::Hay("next-server"), Test::Hay("node_modules/next"))));
    v.push(rule(Category::DevServer, Some("nuxt"), true, two_of(Test::Name("nuxt"), Test::Both("nuxt", "dev"))));
    v.push(rule(Category::DevServer, Some("uvicorn"), true, one_of(Test::Hay("uvicorn"))));
    v.push(rule(Category::DevServer, Some("gunicorn"), true, one_of(Test::Hay("gunicorn"))));
    v.push(rule(Category::DevServer, Some("django"), true, one_of(Test::Both("manage.py", "runserver"))));
    v.push(rule(Category::DevServer, Some("flask"), true, one_of(Test::Hay("flask run"))));
    v.push(rule(Category::DevServer, Some("php"), true, two_of(Test::Hay("artisan serve"), Test::Hay("php -s"))));
    v.push(rule(Category::DevServer, Some("webpack"), true, two_of(Test::Hay("webpack-dev-server"), Test::Hay("webpack serve"))));
    v.push(rule(Category::DevServer, Some("astro"), true, three_of(Test::Name("astro"), Test::Hay("astro dev"), Test::Hay("@astrojs"))));
    v.push(rule(Category::DevServer, Some("svelte-kit"), true, two_of(Test::Hay("svelte-kit"), Test::Hay("@sveltejs/kit"))));
    v.push(rule(Category::DevServer, Some("remix"), true, three_of(Test::Name("remix"), Test::Hay("@remix-run"), Test::Hay("react-router"))));
    v.push(rule(Category::DevServer, Some("parcel"), true, two_of(Test::Name("parcel"), Test::Hay("parcel-bundler"))));
    v.push(rule(Category::DevServer, Some("rsbuild"), true, one_of(Test::Hay("rsbuild"))));
    v.push(rule(Category::DevServer, Some("rspack"), true, one_of(Test::Hay("rspack"))));
    v.push(rule(Category::DevServer, Some("nest"), true, four_of(Test::Name("nest"), Test::Hay("@nestjs"), Test::Hay("nest start"), Test::Hay("nest serve"))));
    v.push(rule(Category::DevServer, Some("puma"), true, one_of(Test::Hay("puma"))));
    v.push(rule(Category::DevServer, Some("rails"), true, two_of(Test::Name("rails"), Test::Hay("rails s"))));
    v.push(rule(Category::DevServer, Some("phoenix"), true, two_of(Test::Hay("phx.server"), Test::Hay("phoenix"))));
    assert(rule_models(v@) =~= dev_server_rules());
    v
}

/// Background workers and watchers: agents start and forget these.
pub open spec fn worker_rules() -> Seq<RuleModel> {
    seq![
        RuleModel { category: Category::Worker, display: Some("celery"@), wrappers: false, any: seq![TestModel::Name("celery"@), TestModel::Both("celery"@, "worker"@)] },
        RuleModel { category: Category::Worker, display: Some("sidekiq"@), wrappers: false, any: seq![TestModel::Name("sidekiq"@), TestModel::Hay("sidekiq"@)] },
        RuleModel { category: Category::Worker, display: Some("horizon"@), wrappers: false, any: seq![TestModel::Name("horizon"@), TestModel::Hay("artisan horizon"@)] },
        RuleModel { category: Category::Worker, display: Some("laravel queue"@), wrappers: false, any: seq![TestModel::Hay("queue:work"@), TestModel::Hay("artisan queue"@)] },
        RuleModel { category: Category::Worker, display: Some("nodemon"@), wrappers: false, any: seq![TestModel::Name("nodemon"@), TestModel::Hay("nodemon"@)] },
        RuleModel { category: Category::Worker, display: Some("cargo-watch"@), wrappers: false, any: seq![TestModel::Name("cargo-watch"@), TestModel::Hay("cargo watch"@), TestModel::Hay("cargo-watch"@)] },
        RuleModel { category: Category::Worker, display: Some("watchexec"@), wrappers: false, any: seq![TestModel::Name("watchexec"@)] },
        RuleModel { category: Category::Worker, display: Some("air"@), wrappers: false, any: seq![TestModel::Name("air"@)] },
        RuleModel { category: Category::Worker, display: Some("watcher"@), wrappers: false, any: seq![TestModel::Hay("tsc --watch"@), TestModel::Hay("tailwindcss --watch"@), TestModel::Hay("tailwind --watch"@)] },
    ]
}

fn worker_table() -> (v: Vec<Rule>)
    ensures
        rule_models(v@) == worker_rules(),
{
    let mut v: Vec<Rule> = Vec::new();
    v.push(rule(Category::Worker, Some("celery"), false, two_of(Test::Name("celery"), Test::Both("celery", "worker"))));
    v.push(rule(Category::Worker, Some("sidekiq"), false, two_of(Test::Name("sidekiq"), Test::Hay("sidekiq"))));
    v.push(rule(Category::Worker, Some("horizon"), false, two_of(Test::Name("horizon"), Test::Hay("artisan horizon"))));
    v.push(rule(Category::Worker, Some("laravel queue"), false, two_of(Test::Hay("queue:work"), Test::Hay("artisan queue"))));
    v.push(rule(Category::Worker, Some("nodemon"), false, two_of(Test::Name("nodemon"), Test::Hay("nodemon"))));
    v.push(rule(Category::Worker, Some("cargo-watch"), false, three_of(Test::Name("cargo-watch"), Test::Hay("cargo watch"), Test::Hay("cargo-watch"))));
    v.push(rule(Category::Worker, Some("watchexec"), false, one_of(Test::Name("watchexec"))));
    v.push(rule(Category::Worker, Some("air"), false, one_of(Test::Name("air"))));
    v.push(rule(Category::Worker, Some("watcher"), false, three_of(Test::Hay("tsc --watch"), Test::Hay("tailwindcss --watch"), Test::Hay("tailwind --watch"))));
    assert(rule_models(v@) =~= worker_rules());
    v
}

/// Databases.
pub open spec fn database_rules() -> Seq<RuleModel> {
    seq![
        RuleModel { category: Category::Database, display: Some("postgres"@), wrappers: true, any: seq![TestModel::Name("postgres"@), TestModel::Hay("postgres"@)] },
        RuleModel { category: Category::Database, display: Some("postgres"@), wrappers: true, any: seq![TestModel::Name("postgresql"@), TestModel::Hay("postgresql"@)] },
        RuleModel { category: Category::Database, display: Some("postgres"@), wrappers: true, any: seq![TestModel::Name("postmaster"@), TestModel::Hay("postmaster"@)] },
        RuleModel { category: Category::Database, display: Some("mysql"@), wrappers: true, any: seq![TestModel::Name("mysqld"@), TestModel::Hay("mysqld"@)] },
        RuleModel { category: Category::Database, display: Some("mariadb"@), wrappers: true, any: seq![TestModel::Name("mariadbd"@), TestModel::Hay("mariadbd"@)] },
        RuleModel { category: Category::Database, display: Some("redis"@), wrappers: true, any: seq![TestModel::Name("redis-server"@), TestModel::Hay("redis-server"@)] },
        RuleModel { category: Category::Database, display: Some("mongodb"@), wrappers: true, any: seq![TestModel::Name("mongod"@), TestModel::Hay("mongod"@)] },
        RuleModel { category: Category::Database, display: Some("elasticsearch"@), wrappers: true, any: seq![TestModel::Name("elasticsearch"@), TestModel::Hay("elasticsearch"@)] },
        RuleModel { category: Category::Database, display: Some("opensearch"@), wrappers: true, any: seq![TestModel::Name("opensearch"@), TestModel::Hay("opensearch"@)] },
        RuleModel { category: Category::Database, display: Some("clickhouse"@), wrappers: true, any: seq![TestModel::Name("clickhouse-server"@), TestModel::Hay("clickhouse-server"@)] },
        RuleModel { category: Category::Database, display: Some("cockroachdb"@), wrappers: true, any: seq![TestModel::Name("cockroach"@), TestModel::Hay("cockroach"@)] },
        RuleModel { category: Category::Database, display: Some("cassandra"@), wrappers: true, any: seq![TestModel::Name("cassandra"@), TestModel::Hay("cassandra"@)] },
        RuleModel { category: Category::Database, display: Some("memcached"@), wrappers: true, any: seq![TestModel::Name("memcached"@), TestModel::Hay("memcached"@)] },
        RuleModel { category: Category::Database, display: Some("neo4j"@), wrappers: true, any: seq![TestModel::Name("neo4j"@), TestModel::Hay("neo4j"@)] },
        RuleModel { category: Category::Database, display: Some("qdrant"@), wrappers: true, any: seq![TestModel::Name("qdrant"@), TestModel::Hay("qdrant"@)] },
        RuleModel { category: Category::Database, display: Some("weaviate"@), wrappers: true, any: seq![TestModel::Name("weaviate"@), TestModel::Hay("weaviate"@)] },
        RuleModel { category: Category::Database, display: Some("milvus"@), wrappers: true, any: seq![TestModel::Name("milvus"@), TestModel::Hay("milvus"@)] },
        RuleModel { category: Category::Database, display: Some("meilisearch"@), wrappers: true, any: seq![TestModel::Name("meilisearch"@), TestModel::Hay("meilisearch"@)] },
        RuleModel { category: Category::Database, display: Some("typesense"@), wrappers: true, any: seq![TestModel::Name("typesense-server"@), TestModel::Hay("typesense-server"@)] },
        RuleModel { category: Category::Database, display: Some("influxdb"@), wrappers: true, any: seq![TestModel::Name("influxd"@), TestModel::Hay("influxd"@)] },
        RuleModel { category: Category::Database, display: Some("sql server"@), wrappers: true, any: seq![TestModel::Name("sqlservr"@), TestModel::Hay("sqlservr"@)] },
    ]
}

fn database_table() -> (v: Vec<Rule>)
    ensures
        rule_models(v@) == database_rules(),
{
    let mut v: Vec<Rule> = Vec::new();
    v.push(rule(Category::Database, Some("postgres"), true, two_of(Test::Name("postgres"), Test::Hay("postgres"))));
    v.push(rule(Category::Database, Some("postgres"), true, two_of(Test::Name("postgresql"), Test::Hay("postgresql"))));
    v.push(rule(Category::Database, Some("postgres"), true, two_of(Test::Name("postmaster"), Test::Hay("postmaster"))));
    v.push(rule(Category::Database, Some("mysql"), true, two_of(Test::Name("mysqld"), Test::Hay("mysqld"))));
    v.push(rule(Category::Database, Some("mariadb"), true, two_of(Test::Name("mariadbd"), Test::Hay("mariadbd"))));
    v.push(rule(Category::Database, Some("redis"), true, two_of(Test::Name("redis-server"), Test::Hay("redis-server"))));
    v.push(rule(Category::Database, Some("mongodb"), true, two_of(Test::Name("mongod"), Test::Hay("mongod"))));
    v.push(rule(Category::Database, Some("elasticsearch"), true, two_of(Test::Name("elasticsearch"), Test::Hay("elasticsearch"))));
    v.push(rule(Category::Database, Some("opensearch"), true, two_of(Test::Name("opensearch"), Test::Hay("opensearch"))));
    v.push(rule(Category::Database, Some("clickhouse"), true, two_of(Test::Name("clickhouse-server"), Test::Hay("clickhouse-server"))));
    v.push(rule(Category::Database, Some("cockroachdb"), true, two_of(Test::Name("cockroach"), Test::Hay("cockroach"))));
    v.push(rule(Category::Database, Some("cassandra"), true, two_of(Test::Name("cassandra"), Test::Hay("cassandra"))));
    v.push(rule(Category::Database, Some("memcached"), true, two_of(Test::Name("memcached"), Test::Hay("memcached"))));
    v.push(rule(Category::Database, Some("neo4j"), true, two_of(Test::Name("neo4j"), Test::Hay("neo4j"))));
    v.push(rule(Category::Database, Some("qdrant"), true, two_of(Test::Name("qdrant"), Test::Hay("qdrant"))));
    v.push(rule(Category::Database, Some("weaviate"), true, two_of(Test::Name("weaviate"), Test::Hay("weaviate"))));
    v.push(rule(Category::Database, Some("milvus"), true, two_of(Test::Name("milvus"), Test::Hay("milvus"))));
    v.push(rule(Category::Database, Some("meilisearch"), true, two_of(Test::Name("meilisearch"), Test::Hay("meilisearch"))));
    v.push(rule(Category::Database, Some("typesense"), true, two_of(Test::Name("typesense-server"), Test::Hay("typesense-server"))));
    v.push(rule(Category::Database, Some("influxdb"), true, two_of(Test::Name("influxd"), Test::Hay("influxd"))));
    v.push(rule(Category::Database, Some("sql server"), true, two_of(Test::Name("sqlservr"), Test::Hay("sqlservr"))));
    assert(rule_models(v@) =~= database_rules());
    v
}

/// Services of a development machine.
pub open spec fn service_rules() -> Seq<RuleModel> {
    seq![
        RuleModel { category: Category::DevService, display: Some("php-fpm"@), wrappers: true, any: seq![TestModel::Name("php-fpm"@), TestModel::Hay("php-fpm"@)] },
    ]
}

fn service_table() -> (v: Vec<Rule>)
    ensures
        rule_models(v@) == service_rules(),
{
    let mut v: Vec<Rule> = Vec::new();
    v.push(rule(Category::DevService, Some("php-fpm"), true, two_of(Test::Name("php-fpm"), Test::Hay("php-fpm"))));
    assert(rule_models(v@) =~= service_rules());
    v
}

/// Browsers. Whether one is automated or a desktop browser is decided from its ancestry.
pub open spec fn browser_rules() -> Seq<RuleModel> {
    seq![
        RuleModel { category: Category::Browser, display: Some("Chromium"@), wrappers: true, any: seq![TestModel::Hay("chromium"@), TestModel::Hay("chrome-headless"@), TestModel::Hay("headless_shell"@), TestModel::Hay("google chrome"@), TestModel::Hay("chrome helper"@), TestModel::Hay("chromedriver"@), TestModel::BareChrome] },
        RuleModel { category: Category::Browser, display: Some("Firefox"@), wrappers: true, any: seq![TestModel::Short("firefox"@)] },
    ]
}

fn browser_table() -> (v: Vec<Rule>)
    ensures
        rule_models(v@) == browser_rules(),
{
    let mut v: Vec<Rule> = Vec::new();
    v.push(rule(Category::Browser, Some("Chromium"), true, seven_of(Test::Hay("chromium"), Test::Hay("chrome-headless"), Test::Hay("headless_shell"), Test::Hay("google chrome"), Test::Hay("chrome helper"), Test::Hay("chromedriver"), Test::BareChrome)));
    v.push(rule(Category::Browser, Some("Firefox"), true, one_of(Test::Short("firefox"))));
    assert(rule_models(v@) =~= browser_rules());
    v
}

/// Generic JS/Python/PHP runtimes, last, so that wrappers can be skipped.
pub open spec fn runtime_rules() -> Seq<RuleModel> {
    seq![
        RuleModel { category: Category::UnknownDev, display: Some("node"@), wrappers: true, any: seq![TestModel::Name("node"@)] },
        RuleModel { category: Category::UnknownDev, display: Some("node"@), wrappers: true, any: seq![TestModel::Name("nodejs"@)] },
        RuleModel { category: Category::UnknownDev, display: Some("npm"@), wrappers: true, any: seq![TestModel::Name("npm"@)] },
        RuleModel { category: Category::UnknownDev, display: Some("npx"@), wrappers: true, any: seq![TestModel::Name("npx"@)] },
        RuleModel { category: Category::UnknownDev, display: Some("pnpm"@), wrappers: true, any: seq![TestModel::Name("pnpm"@)] },
        RuleModel { category: Category::UnknownDev, display: Some("yarn"@), wrappers: true, any: seq![TestModel::Name("yarn"@)] },
        RuleModel { category: Category::UnknownDev, display: Some("bun"@), wrappers: true, any: seq![TestModel::Name("bun"@)] },
        RuleModel { category: Category::UnknownDev, display: Some("deno"@), wrappers: true, any: seq![TestModel::Name("deno"@)] },
        RuleModel { category: Category::UnknownDev, display: Some("python"@), wrappers: true, any: seq![TestModel::Name("python"@)] },
        RuleModel { category: Category::UnknownDev, display: Some("python"@), wrappers: true, any: seq![TestModel::Name("python3"@)] },
        RuleModel { category: Category::UnknownDev, display: Some("php"@), wrappers: true, any: seq![TestModel::Name("php"@)] },
    ]
}

fn runtime_table() -> (v: Vec<Rule>)
    ensures
        rule_models(v@) == runtime_rules(),
{
    let mut v: Vec<Rule> = Vec::new();
    v.push(rule(Category::UnknownDev, Some("node"), true, one_of(Test::Name("node"))));
    v.push(rule(Category::UnknownDev, Some("node"), true, one_of(Test::Name("nodejs"))));
    v.push(rule(Category::UnknownDev, Some("npm"), true, one_of(Test::Name("npm"))));
    v.push(rule(Category::UnknownDev, Some("npx"), true, one_of(Test::Name("npx"))));
    v.push(rule(Category::UnknownDev, Some("pnpm"), true, one_of(Test::Name("pnpm"))));
    v.push(rule(Category::UnknownDev, Some("yarn"), true, one_of(Test::Name("yarn"))));
    v.push(rule(Category::UnknownDev, Some("bun"), true, one_of(Test::Name("bun"))));
    v.push(rule(Category::UnknownDev, Some("deno"), true, one_of(Test::Name("deno"))));
    v.push(rule(Category::UnknownDev, Some("python"), true, one_of(Test::Name("python"))));
    v.push(rule(Category::UnknownDev, Some("python"), true, one_of(Test::Name("python3"))));
    v.push(rule(Category::UnknownDev, Some("php"), true, one_of(Test::Name("php"))));
    assert(rule_models(v@) =~= runtime_rules());
    v
}
fn append_rules(v: &mut Vec<Rule>, more: Vec<Rule>)
    ensures
        rule_models(final(v)@) == rule_models(old(v)@) + rule_models(more@),
{
    let mut more: Vec<Rule> = more;
    let ghost a = v@;
    let ghost b = more@;
    v.append(&mut more);
    assert(rule_models(v@) =~= rule_models(a) + rule_models(b));
}

fn full_table() -> (v: Vec<Rule>)
    ensures
        rule_models(v@) == all_rules(),
{
    reveal(all_rules);
    let mut v: Vec<Rule> = mcp_table();
    append_rules(&mut v, agent_table());
    append_rules(&mut v, language_server_table());
    append_rules(&mut v, dev_server_table());
    append_rules(&mut v, worker_table());
    append_rules(&mut v, database_table());
    append_rules(&mut v, service_table());
    append_rules(&mut v, browser_table());
    append_rules(&mut v, runtime_table());
    v
}

// ---------------------------------------------------------------------------
// Matching
// ---------------------------------------------------------------------------

struct Texts {
    name: Vec<char>,
    argv0: Vec<char>,
    hay: Vec<char>,
    name_text: String,
    argv0_text: String,
    alone: bool,
}

impl Texts {
    spec fn words(self) -> Words {
        Words { name: self.name@, argv0: self.argv0@, hay: self.hay@, alone: self.alone }
    }

    spec fn wf(self) -> bool {
        self.name_text@ == self.name@ && self.argv0_text@ == self.argv0@
    }
}

/// The signature table, built once and used for every process of a scan.
pub struct Signatures {
    rules: Vec<Rule>,
}

impl Signatures {
    /// The table holds exactly the built-in lines.
    pub closed spec fn wf(self) -> bool {
        rule_models(self.rules@) == all_rules()
    }

    pub fn new() -> (r: Signatures)
        ensures
            r.wf(),
    {
        Signatures { rules: full_table() }
    }

    /// Classify one process from name + argv + executable. First match wins;
    /// the user's own signatures come before the table.
    pub fn classify(&self, p: &ProcessInfo, extra: &Vec<SignatureConfig>) -> (r: Option<Class>)
        requires
            self.wf(),
        ensures
            class_view(r) == classified(*p, extra@),
    {
        let t: Texts = texts_of(p);
        match extra_signature(&t, extra) {
            Some(c) => {
                return Some(c);
            },
            None => {},
        }
        let wrapper: bool = wrapper_like(&t);
        let ghost w = words_of(*p);
        let ghost rules = all_rules();
        let mut i: usize = 0;
        while i < self.rules.len()
            invariant
                i <= self.rules.len(),
                self.wf(),
                t.wf(),
                t.words() == w,
                w == words_of(*p),
                rules == all_rules(),
                wrapper == is_wrapper(w),
                extra_from(extra@, w, 0) is None,
                first_from(rules, w, 0) == first_from(rules, w, i as int),
            decreases self.rules.len() - i,
        {
            let r: &Rule = &self.rules[i];
            assert(rules[i as int] == r.model()) by {
                assert(rule_models(self.rules@)[i as int] == r.model());
            }
            if rule_applies(r, &t, wrapper) {
                let display_name: String = match r.display {
                    Some(d) => d.to_owned(),
                    None => p.label(),
                };
                assert(first_from(rules, w, i as int) == Some(rules[i as int]));
                return Some(Class { category: r.category, display_name });
            }
            i += 1;
        }
        assert(rules.len() == self.rules@.len()) by {
            assert(rule_models(self.rules@).len() == self.rules@.len());
        }
        None
    }
}

/// Classify one process, with the user's own signatures in `extra`.
pub fn classify(p: &ProcessInfo, extra: &Vec<SignatureConfig>) -> (r: Option<Class>)
    ensures
        class_view(r) == classified(*p, extra@),
{
    Signatures::new().classify(p, extra)
}

fn rule_applies(r: &Rule, t: &Texts, wrapper: bool) -> (b: bool)
    requires
        t.wf(),
        wrapper == is_wrapper(t.words()),
    ensures
        b == applies(r.model(), t.words()),
{
    let hit: bool = any_passes(&r.any, t);
    proof {
        let any = r.model().any;
        assert(any == test_models(r.any@));
        if hit {
            let k = choose|k: int| 0 <= k < any.len() && passes(#[trigger] any[k], t.words());
            assert(passes(any[k], t.words()));
        }
    }
    (r.wrappers || !wrapper) && hit
}

fn any_passes(tests: &Vec<Test>, t: &Texts) -> (r: bool)
    requires
        t.wf(),
    ensures
        r == exists|k: int|
            0 <= k < test_models(tests@).len() && passes(
                #[trigger] test_models(tests@)[k],
                t.words(),
            ),
{
    let mut i: usize = 0;
    while i < tests.len()
        invariant
            i <= tests.len(),
            t.wf(),
            forall|k: int| 0 <= k < i ==> !passes(#[trigger] test_models(tests@)[k], t.words()),
        decreases tests.len() - i,
    {
        assert(test_models(tests@)[i as int] == tests@[i as int].model());
        if test_passes(&tests[i], t) {
            return true;
        }
        i += 1;
    }
    false
}

fn test_passes(test: &Test, t: &Texts) -> (r: bool)
    requires
        t.wf(),
    ensures
        r == passes(test.model(), t.words()),
{
    match test {
        Test::Name(x) => name_eq(t, x),
        Test::Alone(x) => t.alone && name_eq(t, x),
        Test::Hay(x) => holds(&t.hay, x),
        Test::Both(x, y) => holds(&t.hay, x) && holds(&t.hay, y),
        Test::Short(x) => holds(&t.name, x) || holds(&t.argv0, x),
        Test::InName(x) => holds(&t.name, x),
        Test::Vite => vite_like(t),
        Test::BareChrome => name_eq(t, "chrome") && !holds(&t.hay, "chrome-devtools-mcp"),
    }
}

fn name_eq(t: &Texts, exact: &str) -> (r: bool)
    requires
        t.wf(),
    ensures
        r == named(t.words(), exact@),
{
    same(t.name_text.as_str(), exact) || same(t.argv0_text.as_str(), exact)
}

fn wrapper_like(t: &Texts) -> (r: bool)
    requires
        t.wf(),
    ensures
        r == is_wrapper(t.words()),
{
    name_eq(t, "npm") || name_eq(t, "npx") || name_eq(t, "pnpm") || name_eq(t, "yarn") || name_eq(
        t,
        "bun",
    ) || holds(&t.hay, "npm-cli.js") || holds(&t.hay, "npx-cli.js") || holds(&t.hay, "npm exec")
}

fn vite_like(t: &Texts) -> (r: bool)
    requires
        t.wf(),
    ensures
        r == looks_like_vite(t.words()),
{
    name_eq(t, "vite") || holds(&t.hay, "node_modules/.bin/vite") || holds(&t.hay, "node_modules/vite")
        || holds(&t.hay, "/vite/bin/vite") || holds(&t.hay, "vite/dist/node/cli") || holds_word(
        &t.hay,
        "vite",
    ) || holds_word(&t.hay, "vite.js")
}

/// Whether a process with this text, name and argv0 is a Vite server.
pub fn is_vite(hay: &str, name: &str, argv0: &str) -> (r: bool)
    ensures
        r == looks_like_vite(Words { name: name@, argv0: argv0@, hay: hay@, alone: false }),
{
    let t: Texts = Texts {
        name: chars_of(name),
        argv0: chars_of(argv0),
        hay: chars_of(hay),
        name_text: name.to_owned(),
        argv0_text: argv0.to_owned(),
        alone: false,
    };
    vite_like(&t)
}

fn separator(c: char) -> (r: bool)
    ensures
        r == is_separator(c),
{
    c == '/' || c == '\\' || c == ' ' || c == ':'
}

fn holds_word(hay: &Vec<char>, word: &str) -> (r: bool)
    ensures
        r == has_word(hay@, word@),
{
    let w: Vec<char> = chars_of(word);
    let mut i: usize = 0;
    while i < hay.len()
        invariant
            i <= hay.len(),
            w@ == word@,
            forall|j: int| 0 <= j < i ==> !word_at(hay@, w@, j),
        decreases hay.len() - i,
    {
        if stands_at(hay, &w, i) && (i == 0 || separator(hay[i - 1])) && (i + w.len() == hay.len()
            || separator(hay[i + w.len()])) {
            assert(word_at(hay@, w@, i as int));
            return true;
        }
        i += 1;
    }
    if w.len() == 0 && (hay.len() == 0 || separator(hay[hay.len() - 1])) {
        assert(hay@.subrange(hay@.len() as int, hay@.len() as int) =~= w@);
        assert(word_at(hay@, w@, hay@.len() as int));
        return true;
    }
    false
}

fn texts_of(p: &ProcessInfo) -> (t: Texts)
    ensures
        t.wf(),
        t.words() == words_of(*p),
{
    let name_text: String = lower_of(p.name.as_str());
    let argv0_text: String = argv0_base(p);
    let exe: String = executable_text(p);
    let hay: String = name_text.clone().concat(" ").concat(argv0_text.as_str()).concat(" ").concat(
        lower_of(join_of(&p.command, " ").as_str()).as_str(),
    ).concat(" ").concat(exe.as_str());
    Texts {
        name: chars_of(name_text.as_str()),
        argv0: chars_of(argv0_text.as_str()),
        hay: chars_of(hay.as_str()),
        name_text,
        argv0_text,
        alone: p.command.len() <= 1,
    }
}

fn executable_text(p: &ProcessInfo) -> (r: String)
    ensures
        r@ == executable_of(*p),
{
    match &p.executable {
        Some(e) => lower_of(e.as_str()),
        None => String::new(),
    }
}

/// Base name of the first argument in lower case.
pub fn argv0_base(p: &ProcessInfo) -> (r: String)
    ensures
        r@ == argv0_of(*p),
{
    if p.command.len() > 0 {
        if let Some(b) = file_name(p.command[0].as_str()) {
            return lower_of(b.as_str());
        }
    }
    lower_of(p.name.as_str())
}

fn extra_signature(t: &Texts, sigs: &Vec<SignatureConfig>) -> (r: Option<Class>)
    requires
        t.wf(),
    ensures
        class_view(r) == extra_from(sigs@, t.words(), 0),
{
    let mut i: usize = 0;
    while i < sigs.len()
        invariant
            i <= sigs.len(),
            t.wf(),
            extra_from(sigs@, t.words(), 0) == extra_from(sigs@, t.words(), i as int),
        decreases sigs.len() - i,
    {
        let s: &SignatureConfig = &sigs[i];
        if let Some(category) = s.category() {
            if signature_matches(s, t) {
                let display_name: String = if s.display.as_str().is_empty() {
                    t.name_text.clone()
                } else {
                    s.display.clone()
                };
                return Some(Class { category, display_name });
            }
        }
        i += 1;
    }
    None
}

fn signature_matches(s: &SignatureConfig, t: &Texts) -> (r: bool)
    requires
        t.wf(),
    ensures
        r == signature_hits(*s, t.words()),
{
    let mut i: usize = 0;
    while i < s.names.len()
        invariant
            i <= s.names.len(),
            t.wf(),
            forall|k: int|
                0 <= k < i ==> !named(t.words(), text::lower((#[trigger] s.names@[k])@)),
        decreases s.names.len() - i,
    {
        if name_eq(t, lower_of(s.names[i].as_str()).as_str()) {
            return true;
        }
        i += 1;
    }
    let mut i: usize = 0;
    while i < s.contains.len()
        invariant
            i <= s.contains.len(),
            t.wf(),
            forall|k: int|
                0 <= k < i ==> !text::contains(
                    t.words().hay,
                    text::lower((#[trigger] s.contains@[k])@),
                ),
        decreases s.contains.len() - i,
    {
        if holds(&t.hay, lower_of(s.contains[i].as_str()).as_str()) {
            return true;
        }
        i += 1;
    }
    false
}

/// True when this browser looks automation/dev-related from its own command.
pub fn browser_cmd_looks_dev(p: &ProcessInfo) -> (r: bool)
    ensures
        r == looks_automated(*p),
{
    let hay: String = lower_of(join_of(&p.command, " ").as_str()).concat(" ").concat(
        executable_text(p).as_str(),
    );
    let h: Vec<char> = chars_of(hay.as_str());
    holds(&h, "playwright") || holds(&h, "puppeteer") || holds(&h, "chrome-devtools") || holds(
        &h,
        "remote-debugging",
    ) || holds(&h, "headless")
}

// ---------------------------------------------------------------------------
// Laws
// ---------------------------------------------------------------------------

proof fn first_from_is_first(rules: Seq<RuleModel>, w: Words, i: int)
    requires
        0 <= i,
    ensures
        match first_from(rules, w, i) {
            Some(r) => exists|k: int|
                i <= k < rules.len() && r == #[trigger] rules[k] && applies(r, w) && forall|j: int|
                    i <= j < k ==> !applies(#[trigger] rules[j], w),
            None => forall|k: int| i <= k < rules.len() ==> !applies(#[trigger] rules[k], w),
        },
    decreases rules.len() - i,
{
    if i < rules.len() {
        if applies(rules[i], w) {
            assert(rules[i] == rules[i]);
        } else {
            first_from_is_first(rules, w, i + 1);
            match first_from(rules, w, i + 1) {
                Some(r) => {
                    let k = choose|k: int|
                        i + 1 <= k < rules.len() && r == #[trigger] rules[k] && applies(r, w)
                            && forall|j: int|
                            i + 1 <= j < k ==> !applies(#[trigger] rules[j], w);
                    assert(r == rules[k]);
                },
                None => {},
            }
        }
    }
}

/// First match wins: the class of a process comes from the first line of the
/// table that applies, unless a signature of the user's matched.
pub proof fn first_match_wins(p: ProcessInfo, sigs: Seq<SignatureConfig>)
    ensures
        ({
            let w = words_of(p);
            extra_from(sigs, w, 0) is None ==> match classified(p, sigs) {
                Some(c) => exists|k: int|
                    0 <= k < all_rules().len() && c.category == (
                    #[trigger] all_rules()[k]).category && applies(all_rules()[k], w)
                        && forall|j: int|
                        0 <= j < k ==> !applies(#[trigger] all_rules()[j], w),
                None => forall|k: int|
                    0 <= k < all_rules().len() ==> !applies(#[trigger] all_rules()[k], w),
            }
        }),
{
    first_from_is_first(all_rules(), words_of(p), 0);
}

/// A signature of the user's comes before the whole table.
pub proof fn user_signatures_come_first(p: ProcessInfo, sigs: Seq<SignatureConfig>)
    requires
        extra_from(sigs, words_of(p), 0) is Some,
    ensures
        classified(p, sigs) == extra_from(sigs, words_of(p), 0),
{
}

/// A user can name any program an agent: the first of their signatures makes
/// every process of that name one, under the name that they want to see.
pub proof fn a_signature_adds_an_agent(p: ProcessInfo, sigs: Seq<SignatureConfig>, k: int)
    requires
        sigs.len() > 0,
        text::lower(sigs[0].category@) == "agent"@,
        sigs[0].display@.len() > 0,
        0 <= k < sigs[0].names@.len(),
        named(words_of(p), text::lower(sigs[0].names@[k]@)),
    ensures
        classified(p, sigs) == Some(
            ClassModel { category: Category::Agent, name: sigs[0].display@ },
        ),
{
    assert(signature_hits(sigs[0], words_of(p)));
}

/// A package-manager wrapper is never taken for the server it starts: the
/// table calls no wrapper an MCP server, a language server or a worker.
pub proof fn wrapper_is_not_its_server(p: ProcessInfo, sigs: Seq<SignatureConfig>)
    requires
        extra_from(sigs, words_of(p), 0) is None,
        is_wrapper(words_of(p)),
    ensures
        match classified(p, sigs) {
            Some(c) => c.category != Category::Mcp && c.category != Category::LanguageServer
                && c.category != Category::Worker,
            None => true,
        },
{
    first_from_is_first(all_rules(), words_of(p), 0);
    reveal(all_rules);
    assert(forall|k: int| 0 <= k < mcp_rules().len() ==> !(#[trigger] mcp_rules()[k]).wrappers);
    assert(forall|k: int|
        0 <= k < language_server_rules().len() ==> !(
        #[trigger] language_server_rules()[k]).wrappers);
    assert(forall|k: int|
        0 <= k < worker_rules().len() ==> !(#[trigger] worker_rules()[k]).wrappers);
    assert(forall|k: int|
        0 <= k < agent_rules().len() ==> (#[trigger] agent_rules()[k]).category
            == Category::Agent);
    assert(forall|k: int|
        0 <= k < dev_server_rules().len() ==> (#[trigger] dev_server_rules()[k]).category
            == Category::DevServer);
    assert(forall|k: int|
        0 <= k < database_rules().len() ==> (#[trigger] database_rules()[k]).category
            == Category::Database);
    assert(forall|k: int|
        0 <= k < service_rules().len() ==> (#[trigger] service_rules()[k]).category
            == Category::DevService);
    assert(forall|k: int|
        0 <= k < browser_rules().len() ==> (#[trigger] browser_rules()[k]).category
            == Category::Browser);
    assert(forall|k: int|
        0 <= k < runtime_rules().len() ==> (#[trigger] runtime_rules()[k]).category
            == Category::UnknownDev);
}

/// Agents are recognised by their exact name: what the table calls an agent
/// has the name of one, whatever else its command line mentions.
pub proof fn agent_names_are_exact(p: ProcessInfo, sigs: Seq<SignatureConfig>)
    requires
        extra_from(sigs, words_of(p), 0) is None,
        match classified(p, sigs) {
            Some(c) => c.category == Category::Agent,
            None => false,
        },
    ensures
        exists|k: int|
            0 <= k < agent_rules().len() && match (#[trigger] agent_rules()[k]).any[0] {
                TestModel::Name(x) => named(words_of(p), x),
                _ => false,
            },
{
    let w = words_of(p);
    first_from_is_first(all_rules(), w, 0);
    let r = first_from(all_rules(), w, 0)->Some_0;
    let k = choose|k: int| 0 <= k < all_rules().len() && r == #[trigger] all_rules()[k];
    reveal(all_rules);
    assert(forall|k: int|
        0 <= k < mcp_rules().len() ==> (#[trigger] mcp_rules()[k]).category == Category::Mcp);
    assert(forall|k: int|
        0 <= k < language_server_rules().len() ==> (#[trigger] language_server_rules()[k]).category
            == Category::LanguageServer);
    assert(forall|k: int|
        0 <= k < worker_rules().len() ==> (#[trigger] worker_rules()[k]).category
            == Category::Worker);
    assert(forall|k: int|
        0 <= k < dev_server_rules().len() ==> (#[trigger] dev_server_rules()[k]).category
            == Category::DevServer);
    assert(forall|k: int|
        0 <= k < database_rules().len() ==> (#[trigger] database_rules()[k]).category
            == Category::Database);
    assert(forall|k: int|
        0 <= k < service_rules().len() ==> (#[trigger] service_rules()[k]).category
            == Category::DevService);
    assert(forall|k: int|
        0 <= k < browser_rules().len() ==> (#[trigger] browser_rules()[k]).category
            == Category::Browser);
    assert(forall|k: int|
        0 <= k < runtime_rules().len() ==> (#[trigger] runtime_rules()[k]).category
            == Category::UnknownDev);
    let m = mcp_rules().len() as int;
    assert(m <= k < m + agent_rules().len());
    assert(all_rules()[k] == agent_rules()[k - m]);
    assert(agent_rules()[k - m].any.len() == 1 && agent_rules()[k - m].any[0] is Name);
}

// ---------------------------------------------------------------------------
// What the table recognises
// ---------------------------------------------------------------------------

/// One of these lines applies.
pub open spec fn hits(rules: Seq<RuleModel>, w: Words) -> bool {
    exists|k: int| 0 <= k < rules.len() && applies(#[trigger] rules[k], w)
}

/// An MCP server is recognised by its package or its name, a package-manager wrapper never.
pub proof fn mcp_servers_are_recognised(w: Words)
    ensures
        hits(mcp_rules(), w) <==> {
            &&& !is_wrapper(w)
            &&& {
                ||| text::contains(w.hay, "chrome-devtools-mcp"@)
                ||| text::contains(w.hay, "playwright-mcp"@)
                ||| text::contains(w.hay, "@playwright/mcp"@)
                ||| text::contains(w.hay, "mcp-server-filesystem"@)
                ||| text::contains(w.hay, "@modelcontextprotocol/server"@)
                ||| text::contains(w.hay, "context7"@)
                ||| text::contains(w.hay, "queryknight"@)
                ||| text::contains(w.hay, "mcp-server"@)
                ||| text::contains(w.name, "-mcp"@)
                ||| text::contains(w.argv0, "-mcp"@)
                ||| text::contains(w.name, "mcp-server"@)
            }
        },
{
    let rules = mcp_rules();
    assert(passes(rules[0].any[0], w) ==> applies(rules[0], w) || is_wrapper(w));
    assert(passes(rules[1].any[0], w) ==> applies(rules[1], w) || is_wrapper(w));
    assert(passes(rules[2].any[0], w) ==> applies(rules[2], w) || is_wrapper(w));
    assert(passes(rules[3].any[0], w) ==> applies(rules[3], w) || is_wrapper(w));
    assert(passes(rules[4].any[0], w) ==> applies(rules[4], w) || is_wrapper(w));
    assert(passes(rules[5].any[0], w) ==> applies(rules[5], w) || is_wrapper(w));
    assert(passes(rules[6].any[0], w) ==> applies(rules[6], w) || is_wrapper(w));
    assert(passes(rules[7].any[0], w) ==> applies(rules[7], w) || is_wrapper(w));
    assert(passes(rules[8].any[0], w) ==> applies(rules[8], w) || is_wrapper(w));
    assert(passes(rules[8].any[1], w) ==> applies(rules[8], w) || is_wrapper(w));
    assert forall|k: int| 0 <= k < rules.len() && applies(#[trigger] rules[k], w) implies {
        &&& !is_wrapper(w)
        &&& {
            ||| text::contains(w.hay, "chrome-devtools-mcp"@)
            ||| text::contains(w.hay, "playwright-mcp"@)
            ||| text::contains(w.hay, "@playwright/mcp"@)
            ||| text::contains(w.hay, "mcp-server-filesystem"@)
            ||| text::contains(w.hay, "@modelcontextprotocol/server"@)
            ||| text::contains(w.hay, "context7"@)
            ||| text::contains(w.hay, "queryknight"@)
            ||| text::contains(w.hay, "mcp-server"@)
            ||| text::contains(w.name, "-mcp"@)
            ||| text::contains(w.argv0, "-mcp"@)
            ||| text::contains(w.name, "mcp-server"@)
        }
    } by {
        let j = choose|j: int| 0 <= j < rules[k].any.len() && passes(#[trigger] rules[k].any[j], w);
        assert(passes(rules[k].any[j], w));
    }
}

/// A coding agent is recognised by its exact name.
pub proof fn agents_are_recognised(w: Words)
    ensures
        hits(agent_rules(), w) <==> {
            ||| (w.name == "omp"@ || w.argv0 == "omp"@)
            ||| (w.name == "opencode"@ || w.argv0 == "opencode"@)
            ||| (w.name == "codex"@ || w.argv0 == "codex"@)
            ||| (w.name == "aider"@ || w.argv0 == "aider"@)
            ||| (w.name == "cursor-agent"@ || w.argv0 == "cursor-agent"@)
            ||| (w.name == "gemini"@ || w.argv0 == "gemini"@)
            ||| (w.name == "amp"@ || w.argv0 == "amp"@)
            ||| (w.name == "crush"@ || w.argv0 == "crush"@)
            ||| (w.name == "goose"@ || w.argv0 == "goose"@)
            ||| (w.name == "qwen"@ || w.argv0 == "qwen"@)
            ||| (w.name == "droid"@ || w.argv0 == "droid"@)
            ||| (w.name == "kiro-cli"@ || w.argv0 == "kiro-cli"@)
            ||| (w.name == "agy"@ || w.argv0 == "agy"@)
            ||| (w.name == "pi"@ || w.argv0 == "pi"@)
        },
{
    let rules = agent_rules();
    assert(passes(rules[0].any[0], w) ==> applies(rules[0], w));
    assert(passes(rules[1].any[0], w) ==> applies(rules[1], w));
    assert(passes(rules[2].any[0], w) ==> applies(rules[2], w));
    assert(passes(rules[3].any[0], w) ==> applies(rules[3], w));
    assert(passes(rules[4].any[0], w) ==> applies(rules[4], w));
    assert(passes(rules[5].any[0], w) ==> applies(rules[5], w));
    assert(passes(rules[6].any[0], w) ==> applies(rules[6], w));
    assert(passes(rules[7].any[0], w) ==> applies(rules[7], w));
    assert(passes(rules[8].any[0], w) ==> applies(rules[8], w));
    assert(passes(rules[9].any[0], w) ==> applies(rules[9], w));
    assert(passes(rules[10].any[0], w) ==> applies(rules[10], w));
    assert(passes(rules[11].any[0], w) ==> applies(rules[11], w));
    assert(passes(rules[12].any[0], w) ==> applies(rules[12], w));
    assert(passes(rules[13].any[0], w) ==> applies(rules[13], w));
    assert forall|k: int| 0 <= k < rules.len() && applies(#[trigger] rules[k], w) implies {
        ||| (w.name == "omp"@ || w.argv0 == "omp"@)
        ||| (w.name == "opencode"@ || w.argv0 == "opencode"@)
        ||| (w.name == "codex"@ || w.argv0 == "codex"@)
        ||| (w.name == "aider"@ || w.argv0 == "aider"@)
        ||| (w.name == "cursor-agent"@ || w.argv0 == "cursor-agent"@)
        ||| (w.name == "gemini"@ || w.argv0 == "gemini"@)
        ||| (w.name == "amp"@ || w.argv0 == "amp"@)
        ||| (w.name == "crush"@ || w.argv0 == "crush"@)
        ||| (w.name == "goose"@ || w.argv0 == "goose"@)
        ||| (w.name == "qwen"@ || w.argv0 == "qwen"@)
        ||| (w.name == "droid"@ || w.argv0 == "droid"@)
        ||| (w.name == "kiro-cli"@ || w.argv0 == "kiro-cli"@)
        ||| (w.name == "agy"@ || w.argv0 == "agy"@)
        ||| (w.name == "pi"@ || w.argv0 == "pi"@)
    } by {
        let j = choose|j: int| 0 <= j < rules[k].any.len() && passes(#[trigger] rules[k].any[j], w);
        assert(passes(rules[k].any[j], w));
    }
}

/// A language server is recognised by its name anywhere in the command, a
/// package-manager wrapper never.
pub proof fn language_servers_are_recognised(w: Words)
    ensures
        hits(language_server_rules(), w) <==> {
            &&& !is_wrapper(w)
            &&& {
                ||| (w.name == "rust-analyzer"@ || w.argv0 == "rust-analyzer"@)
                ||| text::contains(w.hay, "rust-analyzer"@)
                ||| (w.name == "gopls"@ || w.argv0 == "gopls"@)
                ||| text::contains(w.hay, "gopls"@)
                ||| (w.alone && (w.name == "typescript-language-server"@ || w.argv0 == "typescript-language-server"@))
                ||| (w.name == "typescript-language-server"@ || w.argv0 == "typescript-language-server"@)
                ||| text::contains(w.hay, "typescript-language-server"@)
                ||| (w.name == "copilot-language-server"@ || w.argv0 == "copilot-language-server"@)
                ||| text::contains(w.hay, "copilot-language-server"@)
                ||| (w.name == "pyright-langserver"@ || w.argv0 == "pyright-langserver"@)
                ||| text::contains(w.hay, "pyright-langserver"@)
                ||| (w.name == "pyright"@ || w.argv0 == "pyright"@)
                ||| text::contains(w.hay, "pyright"@)
                ||| (w.name == "clangd"@ || w.argv0 == "clangd"@)
                ||| text::contains(w.hay, "clangd"@)
                ||| (w.name == "lua-language-server"@ || w.argv0 == "lua-language-server"@)
                ||| text::contains(w.hay, "lua-language-server"@)
                ||| (w.name == "intelephense"@ || w.argv0 == "intelephense"@)
                ||| text::contains(w.hay, "intelephense"@)
                ||| (w.name == "vue-language-server"@ || w.argv0 == "vue-language-server"@)
                ||| text::contains(w.hay, "vue-language-server"@)
                ||| (w.name == "@vue/language-server"@ || w.argv0 == "@vue/language-server"@)
                ||| text::contains(w.hay, "@vue/language-server"@)
                ||| (w.name == "svelteserver"@ || w.argv0 == "svelteserver"@)
                ||| text::contains(w.hay, "svelteserver"@)
                ||| (w.name == "svelte-language-server"@ || w.argv0 == "svelte-language-server"@)
                ||| text::contains(w.hay, "svelte-language-server"@)
                ||| (w.name == "tailwindcss-language-server"@ || w.argv0 == "tailwindcss-language-server"@)
                ||| text::contains(w.hay, "tailwindcss-language-server"@)
                ||| (w.name == "vscode-eslint-language-server"@ || w.argv0 == "vscode-eslint-language-server"@)
                ||| text::contains(w.hay, "vscode-eslint-language-server"@)
                ||| (w.name == "eslint_d"@ || w.argv0 == "eslint_d"@)
                ||| text::contains(w.hay, "eslint_d"@)
                ||| (w.name == "yaml-language-server"@ || w.argv0 == "yaml-language-server"@)
                ||| text::contains(w.hay, "yaml-language-server"@)
                ||| (w.name == "bash-language-server"@ || w.argv0 == "bash-language-server"@)
                ||| text::contains(w.hay, "bash-language-server"@)
                ||| (w.name == "docker-langserver"@ || w.argv0 == "docker-langserver"@)
                ||| text::contains(w.hay, "docker-langserver"@)
                ||| (w.name == "jdtls"@ || w.argv0 == "jdtls"@)
                ||| text::contains(w.hay, "jdtls"@)
                ||| (w.name == "ruby-lsp"@ || w.argv0 == "ruby-lsp"@)
                ||| text::contains(w.hay, "ruby-lsp"@)
                ||| (w.name == "solargraph"@ || w.argv0 == "solargraph"@)
                ||| text::contains(w.hay, "solargraph"@)
                ||| (w.name == "nixd"@ || w.argv0 == "nixd"@)
                ||| text::contains(w.hay, "nixd"@)
                ||| text::contains(w.hay, "biome lsp-proxy"@)
                ||| (w.name == "nil"@ || w.argv0 == "nil"@)
                ||| text::contains(w.hay, "language-server"@)
                ||| text::contains(w.hay, "langserver"@)
            }
        },
{
    let rules = language_server_rules();
    assert(passes(rules[0].any[0], w) ==> applies(rules[0], w) || is_wrapper(w));
    assert(passes(rules[0].any[1], w) ==> applies(rules[0], w) || is_wrapper(w));
    assert(passes(rules[1].any[0], w) ==> applies(rules[1], w) || is_wrapper(w));
    assert(passes(rules[1].any[1], w) ==> applies(rules[1], w) || is_wrapper(w));
    assert(passes(rules[2].any[0], w) ==> applies(rules[2], w) || is_wrapper(w));
    assert(passes(rules[3].any[0], w) ==> applies(rules[3], w) || is_wrapper(w));
    assert(passes(rules[3].any[1], w) ==> applies(rules[3], w) || is_wrapper(w));
    assert(passes(rules[4].any[0], w) ==> applies(rules[4], w) || is_wrapper(w));
    assert(passes(rules[4].any[1], w) ==> applies(rules[4], w) || is_wrapper(w));
    assert(passes(rules[5].any[0], w) ==> applies(rules[5], w) || is_wrapper(w));
    assert(passes(rules[5].any[1], w) ==> applies(rules[5], w) || is_wrapper(w));
    assert(passes(rules[6].any[0], w) ==> applies(rules[6], w) || is_wrapper(w));
    assert(passes(rules[6].any[1], w) ==> applies(rules[6], w) || is_wrapper(w));
    assert(passes(rules[7].any[0], w) ==> applies(rules[7], w) || is_wrapper(w));
    assert(passes(rules[7].any[1], w) ==> applies(rules[7], w) || is_wrapper(w));
    assert(passes(rules[8].any[0], w) ==> applies(rules[8], w) || is_wrapper(w));
    assert(passes(rules[8].any[1], w) ==> applies(rules[8], w) || is_wrapper(w));
    assert(passes(rules[9].any[0], w) ==> applies(rules[9], w) || is_wrapper(w));
    assert(passes(rules[9].any[1], w) ==> applies(rules[9], w) || is_wrapper(w));
    assert(passes(rules[10].any[0], w) ==> applies(rules[10], w) || is_wrapper(w));
    assert(passes(rules[10].any[1], w) ==> applies(rules[10], w) || is_wrapper(w));
    assert(passes(rules[11].any[0], w) ==> applies(rules[11], w) || is_wrapper(w));
    assert(passes(rules[11].any[1], w) ==> applies(rules[11], w) || is_wrapper(w));
    assert(passes(rules[12].any[0], w) ==> applies(rules[12], w) || is_wrapper(w));
    assert(passes(rules[12].any[1], w) ==> applies(rules[12], w) || is_wrapper(w));
    assert(passes(rules[13].any[0], w) ==> applies(rules[13], w) || is_wrapper(w));
    assert(passes(rules[13].any[1], w) ==> applies(rules[13], w) || is_wrapper(w));
    assert(passes(rules[14].any[0], w) ==> applies(rules[14], w) || is_wrapper(w));
    assert(passes(rules[14].any[1], w) ==> applies(rules[14], w) || is_wrapper(w));
    assert(passes(rules[15].any[0], w) ==> applies(rules[15], w) || is_wrapper(w));
    assert(passes(rules[15].any[1], w) ==> applies(rules[15], w) || is_wrapper(w));
    assert(passes(rules[16].any[0], w) ==> applies(rules[16], w) || is_wrapper(w));
    assert(passes(rules[16].any[1], w) ==> applies(rules[16], w) || is_wrapper(w));
    assert(passes(rules[17].any[0], w) ==> applies(rules[17], w) || is_wrapper(w));
    assert(passes(rules[17].any[1], w) ==> applies(rules[17], w) || is_wrapper(w));
    assert(passes(rules[18].any[0], w) ==> applies(rules[18], w) || is_wrapper(w));
    assert(passes(rules[18].any[1], w) ==> applies(rules[18], w) || is_wrapper(w));
    assert(passes(rules[19].any[0], w) ==> applies(rules[19], w) || is_wrapper(w));
    assert(passes(rules[19].any[1], w) ==> applies(rules[19], w) || is_wrapper(w));
    assert(passes(rules[20].any[0], w) ==> applies(rules[20], w) || is_wrapper(w));
    assert(passes(rules[20].any[1], w) ==> applies(rules[20], w) || is_wrapper(w));
    assert(passes(rules[21].any[0], w) ==> applies(rules[21], w) || is_wrapper(w));
    assert(passes(rules[21].any[1], w) ==> applies(rules[21], w) || is_wrapper(w));
    assert(passes(rules[22].any[0], w) ==> applies(rules[22], w) || is_wrapper(w));
    assert(passes(rules[22].any[1], w) ==> applies(rules[22], w) || is_wrapper(w));
    assert(passes(rules[23].any[0], w) ==> applies(rules[23], w) || is_wrapper(w));
    assert(passes(rules[23].any[1], w) ==> applies(rules[23], w) || is_wrapper(w));
    assert(passes(rules[24].any[0], w) ==> applies(rules[24], w) || is_wrapper(w));
    assert(passes(rules[25].any[0], w) ==> applies(rules[25], w) || is_wrapper(w));
    assert(passes(rules[26].any[0], w) ==> applies(rules[26], w) || is_wrapper(w));
    assert(passes(rules[26].any[1], w) ==> applies(rules[26], w) || is_wrapper(w));
    assert forall|k: int| 0 <= k < rules.len() && applies(#[trigger] rules[k], w) implies {
        &&& !is_wrapper(w)
        &&& {
            ||| (w.name == "rust-analyzer"@ || w.argv0 == "rust-analyzer"@)
            ||| text::contains(w.hay, "rust-analyzer"@)
            ||| (w.name == "gopls"@ || w.argv0 == "gopls"@)
            ||| text::contains(w.hay, "gopls"@)
            ||| (w.alone && (w.name == "typescript-language-server"@ || w.argv0 == "typescript-language-server"@))
            ||| (w.name == "typescript-language-server"@ || w.argv0 == "typescript-language-server"@)
            ||| text::contains(w.hay, "typescript-language-server"@)
            ||| (w.name == "copilot-language-server"@ || w.argv0 == "copilot-language-server"@)
            ||| text::contains(w.hay, "copilot-language-server"@)
            ||| (w.name == "pyright-langserver"@ || w.argv0 == "pyright-langserver"@)
            ||| text::contains(w.hay, "pyright-langserver"@)
            ||| (w.name == "pyright"@ || w.argv0 == "pyright"@)
            ||| text::contains(w.hay, "pyright"@)
            ||| (w.name == "clangd"@ || w.argv0 == "clangd"@)
            ||| text::contains(w.hay, "clangd"@)
            ||| (w.name == "lua-language-server"@ || w.argv0 == "lua-language-server"@)
            ||| text::contains(w.hay, "lua-language-server"@)
            ||| (w.name == "intelephense"@ || w.argv0 == "intelephense"@)
            ||| text::contains(w.hay, "intelephense"@)
            ||| (w.name == "vue-language-server"@ || w.argv0 == "vue-language-server"@)
            ||| text::contains(w.hay, "vue-language-server"@)
            ||| (w.name == "@vue/language-server"@ || w.argv0 == "@vue/language-server"@)
            ||| text::contains(w.hay, "@vue/language-server"@)
            ||| (w.name == "svelteserver"@ || w.argv0 == "svelteserver"@)
            ||| text::contains(w.hay, "svelteserver"@)
            ||| (w.name == "svelte-language-server"@ || w.argv0 == "svelte-language-server"@)
            ||| text::contains(w.hay, "svelte-language-server"@)
            ||| (w.name == "tailwindcss-language-server"@ || w.argv0 == "tailwindcss-language-server"@)
            ||| text::contains(w.hay, "tailwindcss-language-server"@)
            ||| (w.name == "vscode-eslint-language-server"@ || w.argv0 == "vscode-eslint-language-server"@)
            ||| text::contains(w.hay, "vscode-eslint-language-server"@)
            ||| (w.name == "eslint_d"@ || w.argv0 == "eslint_d"@)
            ||| text::contains(w.hay, "eslint_d"@)
            ||| (w.name == "yaml-language-server"@ || w.argv0 == "yaml-language-server"@)
            ||| text::contains(w.hay, "yaml-language-server"@)
            ||| (w.name == "bash-language-server"@ || w.argv0 == "bash-language-server"@)
            ||| text::contains(w.hay, "bash-language-server"@)
            ||| (w.name == "docker-langserver"@ || w.argv0 == "docker-langserver"@)
            ||| text::contains(w.hay, "docker-langserver"@)
            ||| (w.name == "jdtls"@ || w.argv0 == "jdtls"@)
            ||| text::contains(w.hay, "jdtls"@)
            ||| (w.name == "ruby-lsp"@ || w.argv0 == "ruby-lsp"@)
            ||| text::contains(w.hay, "ruby-lsp"@)
            ||| (w.name == "solargraph"@ || w.argv0 == "solargraph"@)
            ||| text::contains(w.hay, "solargraph"@)
            ||| (w.name == "nixd"@ || w.argv0 == "nixd"@)
            ||| text::contains(w.hay, "nixd"@)
            ||| text::contains(w.hay, "biome lsp-proxy"@)
            ||| (w.name == "nil"@ || w.argv0 == "nil"@)
            ||| text::contains(w.hay, "language-server"@)
            ||| text::contains(w.hay, "langserver"@)
        }
    } by {
        let j = choose|j: int| 0 <= j < rules[k].any.len() && passes(#[trigger] rules[k].any[j], w);
        assert(passes(rules[k].any[j], w));
    }
}

/// What counts as a dev server.
pub proof fn dev_servers_are_recognised(w: Words)
    ensures
        hits(dev_server_rules(), w) <==> {
            ||| looks_like_vite(w)
            ||| text::contains(w.hay, "next dev"@)
            ||| text::contains(w.hay, "next-server"@)
            ||| text::contains(w.hay, "node_modules/next"@)
            ||| (w.name == "nuxt"@ || w.argv0 == "nuxt"@)
            ||| (text::contains(w.hay, "nuxt"@) && text::contains(w.hay, "dev"@))
            ||| text::contains(w.hay, "uvicorn"@)
            ||| text::contains(w.hay, "gunicorn"@)
            ||| (text::contains(w.hay, "manage.py"@) && text::contains(w.hay, "runserver"@))
            ||| text::contains(w.hay, "flask run"@)
            ||| text::contains(w.hay, "artisan serve"@)
            ||| text::contains(w.hay, "php -s"@)
            ||| text::contains(w.hay, "webpack-dev-server"@)
            ||| text::contains(w.hay, "webpack serve"@)
            ||| (w.name == "astro"@ || w.argv0 == "astro"@)
            ||| text::contains(w.hay, "astro dev"@)
            ||| text::contains(w.hay, "@astrojs"@)
            ||| text::contains(w.hay, "svelte-kit"@)
            ||| text::contains(w.hay, "@sveltejs/kit"@)
            ||| (w.name == "remix"@ || w.argv0 == "remix"@)
            ||| text::contains(w.hay, "@remix-run"@)
            ||| text::contains(w.hay, "react-router"@)
            ||| (w.name == "parcel"@ || w.argv0 == "parcel"@)
            ||| text::contains(w.hay, "parcel-bundler"@)
            ||| text::contains(w.hay, "rsbuild"@)
            ||| text::contains(w.hay, "rspack"@)
            ||| (w.name == "nest"@ || w.argv0 == "nest"@)
            ||| text::contains(w.hay, "@nestjs"@)
            ||| text::contains(w.hay, "nest start"@)
            ||| text::contains(w.hay, "nest serve"@)
            ||| text::contains(w.hay, "puma"@)
            ||| (w.name == "rails"@ || w.argv0 == "rails"@)
            ||| text::contains(w.hay, "rails s"@)
            ||| text::contains(w.hay, "phx.server"@)
            ||| text::contains(w.hay, "phoenix"@)
        },
{
    let rules = dev_server_rules();
    assert(passes(rules[0].any[0], w) ==> applies(rules[0], w));
    assert(passes(rules[1].any[0], w) ==> applies(rules[1], w));
    assert(passes(rules[1].any[1], w) ==> applies(rules[1], w));
    assert(passes(rules[1].any[2], w) ==> applies(rules[1], w));
    assert(passes(rules[2].any[0], w) ==> applies(rules[2], w));
    assert(passes(rules[2].any[1], w) ==> applies(rules[2], w));
    assert(passes(rules[3].any[0], w) ==> applies(rules[3], w));
    assert(passes(rules[4].any[0], w) ==> applies(rules[4], w));
    assert(passes(rules[5].any[0], w) ==> applies(rules[5], w));
    assert(passes(rules[6].any[0], w) ==> applies(rules[6], w));
    assert(passes(rules[7].any[0], w) ==> applies(rules[7], w));
    assert(passes(rules[7].any[1], w) ==> applies(rules[7], w));
    assert(passes(rules[8].any[0], w) ==> applies(rules[8], w));
    assert(passes(rules[8].any[1], w) ==> applies(rules[8], w));
    assert(passes(rules[9].any[0], w) ==> applies(rules[9], w));
    assert(passes(rules[9].any[1], w) ==> applies(rules[9], w));
    assert(passes(rules[9].any[2], w) ==> applies(rules[9], w));
    assert(passes(rules[10].any[0], w) ==> applies(rules[10], w));
    assert(passes(rules[10].any[1], w) ==> applies(rules[10], w));
    assert(passes(rules[11].any[0], w) ==> applies(rules[11], w));
    assert(passes(rules[11].any[1], w) ==> applies(rules[11], w));
    assert(passes(rules[11].any[2], w) ==> applies(rules[11], w));
    assert(passes(rules[12].any[0], w) ==> applies(rules[12], w));
    assert(passes(rules[12].any[1], w) ==> applies(rules[12], w));
    assert(passes(rules[13].any[0], w) ==> applies(rules[13], w));
    assert(passes(rules[14].any[0], w) ==> applies(rules[14], w));
    assert(passes(rules[15].any[0], w) ==> applies(rules[15], w));
    assert(passes(rules[15].any[1], w) ==> applies(rules[15], w));
    assert(passes(rules[15].any[2], w) ==> applies(rules[15], w));
    assert(passes(rules[15].any[3], w) ==> applies(rules[15], w));
    assert(passes(rules[16].any[0], w) ==> applies(rules[16], w));
    assert(passes(rules[17].any[0], w) ==> applies(rules[17], w));
    assert(passes(rules[17].any[1], w) ==> applies(rules[17], w));
    assert(passes(rules[18].any[0], w) ==> applies(rules[18], w));
    assert(passes(rules[18].any[1], w) ==> applies(rules[18], w));
    assert forall|k: int| 0 <= k < rules.len() && applies(#[trigger] rules[k], w) implies {
        ||| looks_like_vite(w)
        ||| text::contains(w.hay, "next dev"@)
        ||| text::contains(w.hay, "next-server"@)
        ||| text::contains(w.hay, "node_modules/next"@)
        ||| (w.name == "nuxt"@ || w.argv0 == "nuxt"@)
        ||| (text::contains(w.hay, "nuxt"@) && text::contains(w.hay, "dev"@))
        ||| text::contains(w.hay, "uvicorn"@)
        ||| text::contains(w.hay, "gunicorn"@)
        ||| (text::contains(w.hay, "manage.py"@) && text::contains(w.hay, "runserver"@))
        ||| text::contains(w.hay, "flask run"@)
        ||| text::contains(w.hay, "artisan serve"@)
        ||| text::contains(w.hay, "php -s"@)
        ||| text::contains(w.hay, "webpack-dev-server"@)
        ||| text::contains(w.hay, "webpack serve"@)
        ||| (w.name == "astro"@ || w.argv0 == "astro"@)
        ||| text::contains(w.hay, "astro dev"@)
        ||| text::contains(w.hay, "@astrojs"@)
        ||| text::contains(w.hay, "svelte-kit"@)
        ||| text::contains(w.hay, "@sveltejs/kit"@)
        ||| (w.name == "remix"@ || w.argv0 == "remix"@)
        ||| text::contains(w.hay, "@remix-run"@)
        ||| text::contains(w.hay, "react-router"@)
        ||| (w.name == "parcel"@ || w.argv0 == "parcel"@)
        ||| text::contains(w.hay, "parcel-bundler"@)
        ||| text::contains(w.hay, "rsbuild"@)
        ||| text::contains(w.hay, "rspack"@)
        ||| (w.name == "nest"@ || w.argv0 == "nest"@)
        ||| text::contains(w.hay, "@nestjs"@)
        ||| text::contains(w.hay, "nest start"@)
        ||| text::contains(w.hay, "nest serve"@)
        ||| text::contains(w.hay, "puma"@)
        ||| (w.name == "rails"@ || w.argv0 == "rails"@)
        ||| text::contains(w.hay, "rails s"@)
        ||| text::contains(w.hay, "phx.server"@)
        ||| text::contains(w.hay, "phoenix"@)
    } by {
        let j = choose|j: int| 0 <= j < rules[k].any.len() && passes(#[trigger] rules[k].any[j], w);
        assert(passes(rules[k].any[j], w));
    }
}

/// What counts as a background worker; a package-manager wrapper never does.
pub proof fn workers_are_recognised(w: Words)
    ensures
        hits(worker_rules(), w) <==> {
            &&& !is_wrapper(w)
            &&& {
                ||| (w.name == "celery"@ || w.argv0 == "celery"@)
                ||| (text::contains(w.hay, "celery"@) && text::contains(w.hay, "worker"@))
                ||| (w.name == "sidekiq"@ || w.argv0 == "sidekiq"@)
                ||| text::contains(w.hay, "sidekiq"@)
                ||| (w.name == "horizon"@ || w.argv0 == "horizon"@)
                ||| text::contains(w.hay, "artisan horizon"@)
                ||| text::contains(w.hay, "queue:work"@)
                ||| text::contains(w.hay, "artisan queue"@)
                ||| (w.name == "nodemon"@ || w.argv0 == "nodemon"@)
                ||| text::contains(w.hay, "nodemon"@)
                ||| (w.name == "cargo-watch"@ || w.argv0 == "cargo-watch"@)
                ||| text::contains(w.hay, "cargo watch"@)
                ||| text::contains(w.hay, "cargo-watch"@)
                ||| (w.name == "watchexec"@ || w.argv0 == "watchexec"@)
                ||| (w.name == "air"@ || w.argv0 == "air"@)
                ||| text::contains(w.hay, "tsc --watch"@)
                ||| text::contains(w.hay, "tailwindcss --watch"@)
                ||| text::contains(w.hay, "tailwind --watch"@)
            }
        },
{
    let rules = worker_rules();
    assert(passes(rules[0].any[0], w) ==> applies(rules[0], w) || is_wrapper(w));
    assert(passes(rules[0].any[1], w) ==> applies(rules[0], w) || is_wrapper(w));
    assert(passes(rules[1].any[0], w) ==> applies(rules[1], w) || is_wrapper(w));
    assert(passes(rules[1].any[1], w) ==> applies(rules[1], w) || is_wrapper(w));
    assert(passes(rules[2].any[0], w) ==> applies(rules[2], w) || is_wrapper(w));
    assert(passes(rules[2].any[1], w) ==> applies(rules[2], w) || is_wrapper(w));
    assert(passes(rules[3].any[0], w) ==> applies(rules[3], w) || is_wrapper(w));
    assert(passes(rules[3].any[1], w) ==> applies(rules[3], w) || is_wrapper(w));
    assert(passes(rules[4].any[0], w) ==> applies(rules[4], w) || is_wrapper(w));
    assert(passes(rules[4].any[1], w) ==> applies(rules[4], w) || is_wrapper(w));
    assert(passes(rules[5].any[0], w) ==> applies(rules[5], w) || is_wrapper(w));
    assert(passes(rules[5].any[1], w) ==> applies(rules[5], w) || is_wrapper(w));
    assert(passes(rules[5].any[2], w) ==> applies(rules[5], w) || is_wrapper(w));
    assert(passes(rules[6].any[0], w) ==> applies(rules[6], w) || is_wrapper(w));
    assert(passes(rules[7].any[0], w) ==> applies(rules[7], w) || is_wrapper(w));
    assert(passes(rules[8].any[0], w) ==> applies(rules[8], w) || is_wrapper(w));
    assert(passes(rules[8].any[1], w) ==> applies(rules[8], w) || is_wrapper(w));
    assert(passes(rules[8].any[2], w) ==> applies(rules[8], w) || is_wrapper(w));
    assert forall|k: int| 0 <= k < rules.len() && applies(#[trigger] rules[k], w) implies {
        &&& !is_wrapper(w)
        &&& {
            ||| (w.name == "celery"@ || w.argv0 == "celery"@)
            ||| (text::contains(w.hay, "celery"@) && text::contains(w.hay, "worker"@))
            ||| (w.name == "sidekiq"@ || w.argv0 == "sidekiq"@)
            ||| text::contains(w.hay, "sidekiq"@)
            ||| (w.name == "horizon"@ || w.argv0 == "horizon"@)
            ||| text::contains(w.hay, "artisan horizon"@)
            ||| text::contains(w.hay, "queue:work"@)
            ||| text::contains(w.hay, "artisan queue"@)
            ||| (w.name == "nodemon"@ || w.argv0 == "nodemon"@)
            ||| text::contains(w.hay, "nodemon"@)
            ||| (w.name == "cargo-watch"@ || w.argv0 == "cargo-watch"@)
            ||| text::contains(w.hay, "cargo watch"@)
            ||| text::contains(w.hay, "cargo-watch"@)
            ||| (w.name == "watchexec"@ || w.argv0 == "watchexec"@)
            ||| (w.name == "air"@ || w.argv0 == "air"@)
            ||| text::contains(w.hay, "tsc --watch"@)
            ||| text::contains(w.hay, "tailwindcss --watch"@)
            ||| text::contains(w.hay, "tailwind --watch"@)
        }
    } by {
        let j = choose|j: int| 0 <= j < rules[k].any.len() && passes(#[trigger] rules[k].any[j], w);
        assert(passes(rules[k].any[j], w));
    }
}

/// What counts as a database.
pub proof fn databases_are_recognised(w: Words)
    ensures
        hits(database_rules(), w) <==> {
            ||| (w.name == "postgres"@ || w.argv0 == "postgres"@)
            ||| text::contains(w.hay, "postgres"@)
            ||| (w.name == "postgresql"@ || w.argv0 == "postgresql"@)
            ||| text::contains(w.hay, "postgresql"@)
            ||| (w.name == "postmaster"@ || w.argv0 == "postmaster"@)
            ||| text::contains(w.hay, "postmaster"@)
            ||| (w.name == "mysqld"@ || w.argv0 == "mysqld"@)
            ||| text::contains(w.hay, "mysqld"@)
            ||| (w.name == "mariadbd"@ || w.argv0 == "mariadbd"@)
            ||| text::contains(w.hay, "mariadbd"@)
            ||| (w.name == "redis-server"@ || w.argv0 == "redis-server"@)
            ||| text::contains(w.hay, "redis-server"@)
            ||| (w.name == "mongod"@ || w.argv0 == "mongod"@)
            ||| text::contains(w.hay, "mongod"@)
            ||| (w.name == "elasticsearch"@ || w.argv0 == "elasticsearch"@)
            ||| text::contains(w.hay, "elasticsearch"@)
            ||| (w.name == "opensearch"@ || w.argv0 == "opensearch"@)
            ||| text::contains(w.hay, "opensearch"@)
            ||| (w.name == "clickhouse-server"@ || w.argv0 == "clickhouse-server"@)
            ||| text::contains(w.hay, "clickhouse-server"@)
            ||| (w.name == "cockroach"@ || w.argv0 == "cockroach"@)
            ||| text::contains(w.hay, "cockroach"@)
            ||| (w.name == "cassandra"@ || w.argv0 == "cassandra"@)
            ||| text::contains(w.hay, "cassandra"@)
            ||| (w.name == "memcached"@ || w.argv0 == "memcached"@)
            ||| text::contains(w.hay, "memcached"@)
            ||| (w.name == "neo4j"@ || w.argv0 == "neo4j"@)
            ||| text::contains(w.hay, "neo4j"@)
            ||| (w.name == "qdrant"@ || w.argv0 == "qdrant"@)
            ||| text::contains(w.hay, "qdrant"@)
            ||| (w.name == "weaviate"@ || w.argv0 == "weaviate"@)
            ||| text::contains(w.hay, "weaviate"@)
            ||| (w.name == "milvus"@ || w.argv0 == "milvus"@)
            ||| text::contains(w.hay, "milvus"@)
            ||| (w.name == "meilisearch"@ || w.argv0 == "meilisearch"@)
            ||| text::contains(w.hay, "meilisearch"@)
            ||| (w.name == "typesense-server"@ || w.argv0 == "typesense-server"@)
            ||| text::contains(w.hay, "typesense-server"@)
            ||| (w.name == "influxd"@ || w.argv0 == "influxd"@)
            ||| text::contains(w.hay, "influxd"@)
            ||| (w.name == "sqlservr"@ || w.argv0 == "sqlservr"@)
            ||| text::contains(w.hay, "sqlservr"@)
        },
{
    let rules = database_rules();
    assert(passes(rules[0].any[0], w) ==> applies(rules[0], w));
    assert(passes(rules[0].any[1], w) ==> applies(rules[0], w));
    assert(passes(rules[1].any[0], w) ==> applies(rules[1], w));
    assert(passes(rules[1].any[1], w) ==> applies(rules[1], w));
    assert(passes(rules[2].any[0], w) ==> applies(rules[2], w));
    assert(passes(rules[2].any[1], w) ==> applies(rules[2], w));
    assert(passes(rules[3].any[0], w) ==> applies(rules[3], w));
    assert(passes(rules[3].any[1], w) ==> applies(rules[3], w));
    assert(passes(rules[4].any[0], w) ==> applies(rules[4], w));
    assert(passes(rules[4].any[1], w) ==> applies(rules[4], w));
    assert(passes(rules[5].any[0], w) ==> applies(rules[5], w));
    assert(passes(rules[5].any[1], w) ==> applies(rules[5], w));
    assert(passes(rules[6].any[0], w) ==> applies(rules[6], w));
    assert(passes(rules[6].any[1], w) ==> applies(rules[6], w));
    assert(passes(rules[7].any[0], w) ==> applies(rules[7], w));
    assert(passes(rules[7].any[1], w) ==> applies(rules[7], w));
    assert(passes(rules[8].any[0], w) ==> applies(rules[8], w));
    assert(passes(rules[8].any[1], w) ==> applies(rules[8], w));
    assert(passes(rules[9].any[0], w) ==> applies(rules[9], w));
    assert(passes(rules[9].any[1], w) ==> applies(rules[9], w));
    assert(passes(rules[10].any[0], w) ==> applies(rules[10], w));
    assert(passes(rules[10].any[1], w) ==> applies(rules[10], w));
    assert(passes(rules[11].any[0], w) ==> applies(rules[11], w));
    assert(passes(rules[11].any[1], w) ==> applies(rules[11], w));
    assert(passes(rules[12].any[0], w) ==> applies(rules[12], w));
    assert(passes(rules[12].any[1], w) ==> applies(rules[12], w));
    assert(passes(rules[13].any[0], w) ==> applies(rules[13], w));
    assert(passes(rules[13].any[1], w) ==> applies(rules[13], w));
    assert(passes(rules[14].any[0], w) ==> applies(rules[14], w));
    assert(passes(rules[14].any[1], w) ==> applies(rules[14], w));
    assert(passes(rules[15].any[0], w) ==> applies(rules[15], w));
    assert(passes(rules[15].any[1], w) ==> applies(rules[15], w));
    assert(passes(rules[16].any[0], w) ==> applies(rules[16], w));
    assert(passes(rules[16].any[1], w) ==> applies(rules[16], w));
    assert(passes(rules[17].any[0], w) ==> applies(rules[17], w));
    assert(passes(rules[17].any[1], w) ==> applies(rules[17], w));
    assert(passes(rules[18].any[0], w) ==> applies(rules[18], w));
    assert(passes(rules[18].any[1], w) ==> applies(rules[18], w));
    assert(passes(rules[19].any[0], w) ==> applies(rules[19], w));
    assert(passes(rules[19].any[1], w) ==> applies(rules[19], w));
    assert(passes(rules[20].any[0], w) ==> applies(rules[20], w));
    assert(passes(rules[20].any[1], w) ==> applies(rules[20], w));
    assert forall|k: int| 0 <= k < rules.len() && applies(#[trigger] rules[k], w) implies {
        ||| (w.name == "postgres"@ || w.argv0 == "postgres"@)
        ||| text::contains(w.hay, "postgres"@)
        ||| (w.name == "postgresql"@ || w.argv0 == "postgresql"@)
        ||| text::contains(w.hay, "postgresql"@)
        ||| (w.name == "postmaster"@ || w.argv0 == "postmaster"@)
        ||| text::contains(w.hay, "postmaster"@)
        ||| (w.name == "mysqld"@ || w.argv0 == "mysqld"@)
        ||| text::contains(w.hay, "mysqld"@)
        ||| (w.name == "mariadbd"@ || w.argv0 == "mariadbd"@)
        ||| text::contains(w.hay, "mariadbd"@)
        ||| (w.name == "redis-server"@ || w.argv0 == "redis-server"@)
        ||| text::contains(w.hay, "redis-server"@)
        ||| (w.name == "mongod"@ || w.argv0 == "mongod"@)
        ||| text::contains(w.hay, "mongod"@)
        ||| (w.name == "elasticsearch"@ || w.argv0 == "elasticsearch"@)
        ||| text::contains(w.hay, "elasticsearch"@)
        ||| (w.name == "opensearch"@ || w.argv0 == "opensearch"@)
        ||| text::contains(w.hay, "opensearch"@)
        ||| (w.name == "clickhouse-server"@ || w.argv0 == "clickhouse-server"@)
        ||| text::contains(w.hay, "clickhouse-server"@)
        ||| (w.name == "cockroach"@ || w.argv0 == "cockroach"@)
        ||| text::contains(w.hay, "cockroach"@)
        ||| (w.name == "cassandra"@ || w.argv0 == "cassandra"@)
        ||| text::contains(w.hay, "cassandra"@)
        ||| (w.name == "memcached"@ || w.argv0 == "memcached"@)
        ||| text::contains(w.hay, "memcached"@)
        ||| (w.name == "neo4j"@ || w.argv0 == "neo4j"@)
        ||| text::contains(w.hay, "neo4j"@)
        ||| (w.name == "qdrant"@ || w.argv0 == "qdrant"@)
        ||| text::contains(w.hay, "qdrant"@)
        ||| (w.name == "weaviate"@ || w.argv0 == "weaviate"@)
        ||| text::contains(w.hay, "weaviate"@)
        ||| (w.name == "milvus"@ || w.argv0 == "milvus"@)
        ||| text::contains(w.hay, "milvus"@)
        ||| (w.name == "meilisearch"@ || w.argv0 == "meilisearch"@)
        ||| text::contains(w.hay, "meilisearch"@)
        ||| (w.name == "typesense-server"@ || w.argv0 == "typesense-server"@)
        ||| text::contains(w.hay, "typesense-server"@)
        ||| (w.name == "influxd"@ || w.argv0 == "influxd"@)
        ||| text::contains(w.hay, "influxd"@)
        ||| (w.name == "sqlservr"@ || w.argv0 == "sqlservr"@)
        ||| text::contains(w.hay, "sqlservr"@)
    } by {
        let j = choose|j: int| 0 <= j < rules[k].any.len() && passes(#[trigger] rules[k].any[j], w);
        assert(passes(rules[k].any[j], w));
    }
}

/// What counts as a service of the machine.
pub proof fn services_are_recognised(w: Words)
    ensures
        hits(service_rules(), w) <==> {
            ||| (w.name == "php-fpm"@ || w.argv0 == "php-fpm"@)
            ||| text::contains(w.hay, "php-fpm"@)
        },
{
    let rules = service_rules();
    assert(passes(rules[0].any[0], w) ==> applies(rules[0], w));
    assert(passes(rules[0].any[1], w) ==> applies(rules[0], w));
    assert forall|k: int| 0 <= k < rules.len() && applies(#[trigger] rules[k], w) implies {
        ||| (w.name == "php-fpm"@ || w.argv0 == "php-fpm"@)
        ||| text::contains(w.hay, "php-fpm"@)
    } by {
        let j = choose|j: int| 0 <= j < rules[k].any.len() && passes(#[trigger] rules[k].any[j], w);
        assert(passes(rules[k].any[j], w));
    }
}

/// What counts as a browser: the Chromium family, Firefox, and a bare `chrome`
/// that is not the DevTools server.
pub proof fn browsers_are_recognised(w: Words)
    ensures
        hits(browser_rules(), w) <==> {
            ||| text::contains(w.hay, "chromium"@)
            ||| text::contains(w.hay, "chrome-headless"@)
            ||| text::contains(w.hay, "headless_shell"@)
            ||| text::contains(w.hay, "google chrome"@)
            ||| text::contains(w.hay, "chrome helper"@)
            ||| text::contains(w.hay, "chromedriver"@)
            ||| ((w.name == "chrome"@ || w.argv0 == "chrome"@) && !text::contains(w.hay, "chrome-devtools-mcp"@))
            ||| text::contains(w.name, "firefox"@)
            ||| text::contains(w.argv0, "firefox"@)
        },
{
    let rules = browser_rules();
    assert(passes(rules[0].any[0], w) ==> applies(rules[0], w));
    assert(passes(rules[0].any[1], w) ==> applies(rules[0], w));
    assert(passes(rules[0].any[2], w) ==> applies(rules[0], w));
    assert(passes(rules[0].any[3], w) ==> applies(rules[0], w));
    assert(passes(rules[0].any[4], w) ==> applies(rules[0], w));
    assert(passes(rules[0].any[5], w) ==> applies(rules[0], w));
    assert(passes(rules[0].any[6], w) ==> applies(rules[0], w));
    assert(passes(rules[1].any[0], w) ==> applies(rules[1], w));
    assert forall|k: int| 0 <= k < rules.len() && applies(#[trigger] rules[k], w) implies {
        ||| text::contains(w.hay, "chromium"@)
        ||| text::contains(w.hay, "chrome-headless"@)
        ||| text::contains(w.hay, "headless_shell"@)
        ||| text::contains(w.hay, "google chrome"@)
        ||| text::contains(w.hay, "chrome helper"@)
        ||| text::contains(w.hay, "chromedriver"@)
        ||| ((w.name == "chrome"@ || w.argv0 == "chrome"@) && !text::contains(w.hay, "chrome-devtools-mcp"@))
        ||| text::contains(w.name, "firefox"@)
        ||| text::contains(w.argv0, "firefox"@)
    } by {
        let j = choose|j: int| 0 <= j < rules[k].any.len() && passes(#[trigger] rules[k].any[j], w);
        assert(passes(rules[k].any[j], w));
    }
}

/// What counts as a generic runtime: its exact name.
pub proof fn runtimes_are_recognised(w: Words)
    ensures
        hits(runtime_rules(), w) <==> {
            ||| (w.name == "node"@ || w.argv0 == "node"@)
            ||| (w.name == "nodejs"@ || w.argv0 == "nodejs"@)
            ||| (w.name == "npm"@ || w.argv0 == "npm"@)
            ||| (w.name == "npx"@ || w.argv0 == "npx"@)
            ||| (w.name == "pnpm"@ || w.argv0 == "pnpm"@)
            ||| (w.name == "yarn"@ || w.argv0 == "yarn"@)
            ||| (w.name == "bun"@ || w.argv0 == "bun"@)
            ||| (w.name == "deno"@ || w.argv0 == "deno"@)
            ||| (w.name == "python"@ || w.argv0 == "python"@)
            ||| (w.name == "python3"@ || w.argv0 == "python3"@)
            ||| (w.name == "php"@ || w.argv0 == "php"@)
        },
{
    let rules = runtime_rules();
    assert(passes(rules[0].any[0], w) ==> applies(rules[0], w));
    assert(passes(rules[1].any[0], w) ==> applies(rules[1], w));
    assert(passes(rules[2].any[0], w) ==> applies(rules[2], w));
    assert(passes(rules[3].any[0], w) ==> applies(rules[3], w));
    assert(passes(rules[4].any[0], w) ==> applies(rules[4], w));
    assert(passes(rules[5].any[0], w) ==> applies(rules[5], w));
    assert(passes(rules[6].any[0], w) ==> applies(rules[6], w));
    assert(passes(rules[7].any[0], w) ==> applies(rules[7], w));
    assert(passes(rules[8].any[0], w) ==> applies(rules[8], w));
    assert(passes(rules[9].any[0], w) ==> applies(rules[9], w));
    assert(passes(rules[10].any[0], w) ==> applies(rules[10], w));
    assert forall|k: int| 0 <= k < rules.len() && applies(#[trigger] rules[k], w) implies {
        ||| (w.name == "node"@ || w.argv0 == "node"@)
        ||| (w.name == "nodejs"@ || w.argv0 == "nodejs"@)
        ||| (w.name == "npm"@ || w.argv0 == "npm"@)
        ||| (w.name == "npx"@ || w.argv0 == "npx"@)
        ||| (w.name == "pnpm"@ || w.argv0 == "pnpm"@)
        ||| (w.name == "yarn"@ || w.argv0 == "yarn"@)
        ||| (w.name == "bun"@ || w.argv0 == "bun"@)
        ||| (w.name == "deno"@ || w.argv0 == "deno"@)
        ||| (w.name == "python"@ || w.argv0 == "python"@)
        ||| (w.name == "python3"@ || w.argv0 == "python3"@)
        ||| (w.name == "php"@ || w.argv0 == "php"@)
    } by {
        let j = choose|j: int| 0 <= j < rules[k].any.len() && passes(#[trigger] rules[k].any[j], w);
        assert(passes(rules[k].any[j], w));
    }
}

/// The lines of two tables are tried one table after the other.
proof fn tried_one_after_the_other(a: Seq<RuleModel>, b: Seq<RuleModel>, w: Words)
    ensures
        first_from(a + b, w, 0) == (match first_from(a, w, 0) {
            Some(r) => Some(r),
            None => first_from(b, w, 0),
        }),
{
    tried_from(a, b, w, 0);
}

proof fn tried_from(a: Seq<RuleModel>, b: Seq<RuleModel>, w: Words, i: int)
    requires
        0 <= i <= a.len(),
    ensures
        first_from(a + b, w, i) == (match first_from(a, w, i) {
            Some(r) => Some(r),
            None => first_from(b, w, 0),
        }),
    decreases a.len() - i,
{
    if i < a.len() {
        assert((a + b)[i] == a[i]);
        tried_from(a, b, w, i + 1);
    } else {
        tried_behind(a, b, w, 0);
    }
}

proof fn tried_behind(a: Seq<RuleModel>, b: Seq<RuleModel>, w: Words, j: int)
    requires
        0 <= j <= b.len(),
    ensures
        first_from(a + b, w, a.len() + j) == first_from(b, w, j),
    decreases b.len() - j,
{
    if j < b.len() {
        assert((a + b)[a.len() + j] == b[j]);
        tried_behind(a, b, w, j + 1);
    }
}

proof fn of_one_kind(rules: Seq<RuleModel>, w: Words, category: Category)
    requires
        forall|k: int| 0 <= k < rules.len() ==> (#[trigger] rules[k]).category == category,
    ensures
        hits(rules, w) <==> first_from(rules, w, 0) is Some,
        first_from(rules, w, 0) is Some ==> first_from(rules, w, 0)->0.category == category,
{
    first_from_is_first(rules, w, 0);
    if let Some(r) = first_from(rules, w, 0) {
        let k = choose|k: int| 0 <= k < rules.len() && r == #[trigger] rules[k] && applies(r, w);
        assert(applies(rules[k], w));
    }
}

/// The kinds are tried in this order: MCP servers, agents, language servers,
/// dev servers, workers, databases, services, browsers and generic runtimes.
/// Where no signature of the user's matches, the first kind that recognises a
/// process decides, and a process that none recognises has no class.
pub proof fn kinds_are_tried_in_order(p: ProcessInfo, sigs: Seq<SignatureConfig>)
    requires
        extra_from(sigs, words_of(p), 0) is None,
    ensures
        ({
            let w = words_of(p);
            let c = classified(p, sigs);
            &&& hits(mcp_rules(), w) ==> c is Some && c->0.category == Category::Mcp
            &&& !hits(mcp_rules(), w) && hits(agent_rules(), w) ==> c is Some && c->0.category == Category::Agent
            &&& !hits(mcp_rules(), w) && !hits(agent_rules(), w) && hits(language_server_rules(), w) ==> c is Some && c->0.category == Category::LanguageServer
            &&& !hits(mcp_rules(), w) && !hits(agent_rules(), w) && !hits(language_server_rules(), w) && hits(dev_server_rules(), w) ==> c is Some && c->0.category == Category::DevServer
            &&& !hits(mcp_rules(), w) && !hits(agent_rules(), w) && !hits(language_server_rules(), w) && !hits(dev_server_rules(), w) && hits(worker_rules(), w) ==> c is Some && c->0.category == Category::Worker
            &&& !hits(mcp_rules(), w) && !hits(agent_rules(), w) && !hits(language_server_rules(), w) && !hits(dev_server_rules(), w) && !hits(worker_rules(), w) && hits(database_rules(), w) ==> c is Some && c->0.category == Category::Database
            &&& !hits(mcp_rules(), w) && !hits(agent_rules(), w) && !hits(language_server_rules(), w) && !hits(dev_server_rules(), w) && !hits(worker_rules(), w) && !hits(database_rules(), w) && hits(service_rules(), w) ==> c is Some && c->0.category == Category::DevService
            &&& !hits(mcp_rules(), w) && !hits(agent_rules(), w) && !hits(language_server_rules(), w) && !hits(dev_server_rules(), w) && !hits(worker_rules(), w) && !hits(database_rules(), w) && !hits(service_rules(), w) && hits(browser_rules(), w) ==> c is Some && c->0.category == Category::Browser
            &&& !hits(mcp_rules(), w) && !hits(agent_rules(), w) && !hits(language_server_rules(), w) && !hits(dev_server_rules(), w) && !hits(worker_rules(), w) && !hits(database_rules(), w) && !hits(service_rules(), w) && !hits(browser_rules(), w) && hits(runtime_rules(), w) ==> c is Some && c->0.category == Category::UnknownDev
            &&& !hits(mcp_rules(), w) && !hits(agent_rules(), w) && !hits(language_server_rules(), w) && !hits(dev_server_rules(), w) && !hits(worker_rules(), w) && !hits(database_rules(), w) && !hits(service_rules(), w) && !hits(browser_rules(), w) && !hits(runtime_rules(), w) ==> c is None
        }),
{
    let w = words_of(p);
    let g0 = mcp_rules();
    let g1 = agent_rules();
    let g2 = language_server_rules();
    let g3 = dev_server_rules();
    let g4 = worker_rules();
    let g5 = database_rules();
    let g6 = service_rules();
    let g7 = browser_rules();
    let g8 = runtime_rules();
    assert forall|k: int| 0 <= k < g0.len() implies (#[trigger] g0[k]).category
        == Category::Mcp by {}
    of_one_kind(g0, w, Category::Mcp);
    assert forall|k: int| 0 <= k < g1.len() implies (#[trigger] g1[k]).category
        == Category::Agent by {}
    of_one_kind(g1, w, Category::Agent);
    assert forall|k: int| 0 <= k < g2.len() implies (#[trigger] g2[k]).category
        == Category::LanguageServer by {}
    of_one_kind(g2, w, Category::LanguageServer);
    assert forall|k: int| 0 <= k < g3.len() implies (#[trigger] g3[k]).category
        == Category::DevServer by {}
    of_one_kind(g3, w, Category::DevServer);
    assert forall|k: int| 0 <= k < g4.len() implies (#[trigger] g4[k]).category
        == Category::Worker by {}
    of_one_kind(g4, w, Category::Worker);
    assert forall|k: int| 0 <= k < g5.len() implies (#[trigger] g5[k]).category
        == Category::Database by {}
    of_one_kind(g5, w, Category::Database);
    assert forall|k: int| 0 <= k < g6.len() implies (#[trigger] g6[k]).category
        == Category::DevService by {}
    of_one_kind(g6, w, Category::DevService);
    assert forall|k: int| 0 <= k < g7.len() implies (#[trigger] g7[k]).category
        == Category::Browser by {}
    of_one_kind(g7, w, Category::Browser);
    assert forall|k: int| 0 <= k < g8.len() implies (#[trigger] g8[k]).category
        == Category::UnknownDev by {}
    of_one_kind(g8, w, Category::UnknownDev);
    tried_one_after_the_other(g0, g1, w);
    tried_one_after_the_other(g0 + g1, g2, w);
    tried_one_after_the_other(g0 + g1 + g2, g3, w);
    tried_one_after_the_other(g0 + g1 + g2 + g3, g4, w);
    tried_one_after_the_other(g0 + g1 + g2 + g3 + g4, g5, w);
    tried_one_after_the_other(g0 + g1 + g2 + g3 + g4 + g5, g6, w);
    tried_one_after_the_other(g0 + g1 + g2 + g3 + g4 + g5 + g6, g7, w);
    tried_one_after_the_other(g0 + g1 + g2 + g3 + g4 + g5 + g6 + g7, g8, w);
    reveal(all_rules);
    assert(all_rules() == g0 + g1 + g2 + g3 + g4 + g5 + g6 + g7 + g8);
}

/// What counts as a package-manager wrapper, and what as a Vite server.
pub proof fn wrappers_and_vite_are_recognised(w: Words)
    ensures
        is_wrapper(w) <==> {
            ||| w.name == "npm"@ || w.argv0 == "npm"@
            ||| w.name == "npx"@ || w.argv0 == "npx"@
            ||| w.name == "pnpm"@ || w.argv0 == "pnpm"@
            ||| w.name == "yarn"@ || w.argv0 == "yarn"@
            ||| w.name == "bun"@ || w.argv0 == "bun"@
            ||| text::contains(w.hay, "npm-cli.js"@)
            ||| text::contains(w.hay, "npx-cli.js"@)
            ||| text::contains(w.hay, "npm exec"@)
        },
        w.name == "vite"@ || w.argv0 == "vite"@ ==> looks_like_vite(w),
        text::contains(w.hay, "node_modules/.bin/vite"@) ==> looks_like_vite(w),
        text::contains(w.hay, "node_modules/vite"@) ==> looks_like_vite(w),
        text::contains(w.hay, "/vite/bin/vite"@) ==> looks_like_vite(w),
        text::contains(w.hay, "vite/dist/node/cli"@) ==> looks_like_vite(w),
{
}

proof fn part_is_held(a: Seq<char>, b: Seq<char>, x: Seq<char>)
    ensures
        text::contains(a, x) ==> text::contains(a + b, x),
        text::contains(b, x) ==> text::contains(a + b, x),
{
    if text::contains(a, x) {
        let i = choose|i: int| text::occurs_at(a, x, i);
        assert((a + b).subrange(i, i + x.len()) =~= a.subrange(i, i + x.len()));
        assert(text::occurs_at(a + b, x, i));
    }
    if text::contains(b, x) {
        let i = choose|i: int| text::occurs_at(b, x, i);
        let n = a.len() + i;
        assert((a + b).subrange(n, n + x.len()) =~= b.subrange(i, i + x.len()));
        assert(text::occurs_at(a + b, x, n));
    }
}

/// A fragment is looked for in the name, the command line and the executable
/// of a process, in any case.
pub proof fn fragments_are_found_everywhere(p: ProcessInfo, x: Seq<char>)
    ensures
        text::contains(text::lower(p.name@), x) ==> text::contains(words_of(p).hay, x),
        text::contains(text::lower(text::joined(text::texts(p.command@), " "@)), x)
            ==> text::contains(words_of(p).hay, x),
        p.executable is Some && text::contains(text::lower(p.executable->0@), x)
            ==> text::contains(words_of(p).hay, x),
        words_of(p).name == text::lower(p.name@),
        p.command@.len() == 0 ==> words_of(p).argv0 == text::lower(p.name@),
        words_of(p).alone <==> p.command@.len() <= 1,
{
    let w = words_of(p);
    let a = w.name;
    let b = a + " "@;
    let c = b + w.argv0;
    let d = c + " "@;
    let e = d + command_line(p);
    let f = e + " "@;
    part_is_held(a, " "@, x);
    part_is_held(b, w.argv0, x);
    part_is_held(c, " "@, x);
    part_is_held(d, command_line(p), x);
    part_is_held(e, " "@, x);
    part_is_held(f, executable_of(p), x);
}

/// A browser is automated where its command line or its executable mentions
/// Playwright, Puppeteer, the DevTools, remote debugging or headless mode.
pub proof fn automation_shows_in_the_command(p: ProcessInfo)
    ensures
        ({
            let line = text::lower(text::joined(text::texts(p.command@), " "@));
            &&& text::contains(line, "playwright"@) ==> looks_automated(p)
            &&& text::contains(line, "puppeteer"@) ==> looks_automated(p)
            &&& text::contains(line, "chrome-devtools"@) ==> looks_automated(p)
            &&& text::contains(line, "remote-debugging"@) ==> looks_automated(p)
            &&& text::contains(line, "headless"@) ==> looks_automated(p)
            &&& p.executable is Some && text::contains(text::lower(p.executable->0@), "headless"@)
                ==> looks_automated(p)
            &&& p.executable is Some && text::contains(
                text::lower(p.executable->0@),
                "playwright"@,
            ) ==> looks_automated(p)
        }),
{
    let line = command_line(p);
    let a = line + " "@;
    part_is_held(line, " "@, "playwright"@);
    part_is_held(line, " "@, "puppeteer"@);
    part_is_held(line, " "@, "chrome-devtools"@);
    part_is_held(line, " "@, "remote-debugging"@);
    part_is_held(line, " "@, "headless"@);
    part_is_held(a, executable_of(p), "playwright"@);
    part_is_held(a, executable_of(p), "puppeteer"@);
    part_is_held(a, executable_of(p), "chrome-devtools"@);
    part_is_held(a, executable_of(p), "remote-debugging"@);
    part_is_held(a, executable_of(p), "headless"@);
}

/// Of the user's signatures the first counts that names a known category and
/// matches by a name, or by a fragment anywhere; it decides category and name
/// before the table does.
pub proof fn first_matching_signature_decides(
    p: ProcessInfo,
    sigs: Seq<SignatureConfig>,
    k: int,
    c: Category,
)
    requires
        0 <= k < sigs.len(),
        config::category_named(sigs[k].category@) == Some(c),
        ({
            let w = words_of(p);
            ||| exists|n: int|
                0 <= n < sigs[k].names@.len() && (w.name == text::lower(
                    (#[trigger] sigs[k].names@[n])@,
                ) || w.argv0 == text::lower(sigs[k].names@[n]@))
            ||| exists|n: int|
                0 <= n < sigs[k].contains@.len() && text::contains(
                    w.hay,
                    text::lower((#[trigger] sigs[k].contains@[n])@),
                )
        }),
        forall|j: int|
            0 <= j < k ==> config::category_named((#[trigger] sigs[j]).category@) is None
                || !signature_hits(sigs[j], words_of(p)),
    ensures
        classified(p, sigs) == Some(
            ClassModel {
                category: c,
                name: if sigs[k].display@.len() > 0 {
                    sigs[k].display@
                } else {
                    text::lower(p.name@)
                },
            },
        ),
{
    signatures_are_tried_in_order(sigs, words_of(p), 0, k);
}

proof fn signatures_are_tried_in_order(sigs: Seq<SignatureConfig>, w: Words, i: int, k: int)
    requires
        0 <= i <= k < sigs.len(),
        config::category_named(sigs[k].category@) is Some,
        signature_hits(sigs[k], w),
        forall|j: int|
            i <= j < k ==> config::category_named((#[trigger] sigs[j]).category@) is None
                || !signature_hits(sigs[j], w),
    ensures
        extra_from(sigs, w, i) == extra_from(sigs, w, k),
    decreases k - i,
{
    if i < k {
        assert(config::category_named(sigs[i].category@) is None || !signature_hits(sigs[i], w));
        signatures_are_tried_in_order(sigs, w, i + 1, k);
    }
}

/// A word is found where separators or the ends of the text stand around it:
/// a slash of either kind, a blank or a colon.
pub proof fn words_stand_between_separators(a: Seq<char>, w: Seq<char>, b: Seq<char>)
    requires
        a.len() == 0 || a.last() == '/' || a.last() == '\\' || a.last() == ' ' || a.last() == ':',
        b.len() == 0 || b[0] == '/' || b[0] == '\\' || b[0] == ' ' || b[0] == ':',
    ensures
        has_word(a + w + b, w),
{
    let hay = a + w + b;
    let i = a.len() as int;
    assert(hay.subrange(i, i + w.len()) =~= w);
    if a.len() > 0 {
        assert(hay[i - 1] == a.last());
    }
    if b.len() > 0 {
        assert(hay[i + w.len()] == b[0]);
    }
    assert(word_at(hay, w, i));
}

/// A text that runs on before or behind is no such word.
pub proof fn part_of_a_longer_word_is_no_word(hay: Seq<char>, w: Seq<char>) -> (i: int)
    requires
        has_word(hay, w),
    ensures
        0 <= i <= i + w.len() <= hay.len(),
        hay.subrange(i, i + w.len()) == w,
        i > 0 ==> hay[i - 1] == '/' || hay[i - 1] == '\\' || hay[i - 1] == ' ' || hay[i - 1] == ':',
        i + w.len() < hay.len() ==> hay[i + w.len()] == '/' || hay[i + w.len()] == '\\' || hay[i
            + w.len()] == ' ' || hay[i + w.len()] == ':',
{
    choose|i: int| word_at(hay, w, i)
}

/// `vite` and `vite.js` as words tell Vite too.
pub proof fn vite_is_told_as_a_word(w: Words)
    ensures
        has_word(w.hay, "vite"@) || has_word(w.hay, "vite.js"@) ==> looks_like_vite(w),
        looks_like_vite(w) ==> w.name == "vite"@ || w.argv0 == "vite"@ || text::contains(
            w.hay,
            "vite"@,
        ),
{
    reveal_strlit("vite");
    reveal_strlit("vite.js");
    reveal_strlit("node_modules/.bin/vite");
    reveal_strlit("node_modules/vite");
    reveal_strlit("/vite/bin/vite");
    reveal_strlit("vite/dist/node/cli");
    let v = "vite"@;
    if looks_like_vite(w) {
        if text::contains(w.hay, "node_modules/.bin/vite"@) {
            assert("node_modules/.bin/vite"@.subrange(18, 22) =~= v);
            holds_a_part(w.hay, "node_modules/.bin/vite"@, 18, v);
        } else if text::contains(w.hay, "node_modules/vite"@) {
            assert("node_modules/vite"@.subrange(13, 17) =~= v);
            holds_a_part(w.hay, "node_modules/vite"@, 13, v);
        } else if text::contains(w.hay, "/vite/bin/vite"@) {
            assert("/vite/bin/vite"@.subrange(1, 5) =~= v);
            holds_a_part(w.hay, "/vite/bin/vite"@, 1, v);
        } else if text::contains(w.hay, "vite/dist/node/cli"@) {
            assert("vite/dist/node/cli"@.subrange(0, 4) =~= v);
            holds_a_part(w.hay, "vite/dist/node/cli"@, 0, v);
        } else if has_word(w.hay, v) {
            let i = choose|i: int| word_at(w.hay, v, i);
            assert(text::occurs_at(w.hay, v, i));
        } else if has_word(w.hay, "vite.js"@) {
            let i = choose|i: int| word_at(w.hay, "vite.js"@, i);
            assert(text::occurs_at(w.hay, "vite.js"@, i));
            assert("vite.js"@.subrange(0, 4) =~= v);
            holds_a_part(w.hay, "vite.js"@, 0, v);
        }
    }
}

proof fn holds_a_part(hay: Seq<char>, x: Seq<char>, at: int, part: Seq<char>)
    requires
        text::contains(hay, x),
        0 <= at <= at + part.len() <= x.len(),
        x.subrange(at, at + part.len()) == part,
    ensures
        text::contains(hay, part),
{
    let i = choose|i: int| text::occurs_at(hay, x, i);
    let here = hay.subrange(i + at, i + at + part.len());
    assert forall|k: int| 0 <= k < part.len() implies #[trigger] here[k] == part[k] by {
        assert(hay.subrange(i, i + x.len())[at + k] == x[at + k]);
        assert(x.subrange(at, at + part.len())[k] == x[at + k]);
    }
    assert(here =~= part);
    assert(text::occurs_at(hay, part, i + at));
}

} // verus!
