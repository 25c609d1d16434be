//! Stable ids.

use crate::bytes;
use crate::digest;
use crate::digest::hash_hex;
use crate::model::runtime::Category;
use crate::text;
use crate::text::{chars_of, dec_of, hex_of, lowercased, string_of, tail_after};
use vstd::prelude::*;

verus! {

pub open spec fn kind_text(category: Category) -> Seq<char> {
    match category {
        Category::Agent => "agent"@,
        Category::Mcp => "mcp"@,
        Category::Browser => "browser"@,
        Category::DevServer => "dev_server"@,
        Category::DevService => "dev_service"@,
        Category::Database => "database"@,
        Category::Worker => "worker"@,
        Category::UnknownDev => "unknown"@,
        Category::LanguageServer => "service"@,
    }
}

pub fn kind_name(category: Category) -> (r: &'static str)
    ensures
        r@ == kind_text(category),
{
    match category {
        Category::Agent => "agent",
        Category::Mcp => "mcp",
        Category::Browser => "browser",
        Category::DevServer => "dev_server",
        Category::DevService => "dev_service",
        Category::Database => "database",
        Category::Worker => "worker",
        Category::UnknownDev => "unknown",
        Category::LanguageServer => "service",
    }
}

/// What a resource id is a digest of.
pub open spec fn id_input(
    kind: Seq<char>,
    start: u64,
    project: Seq<char>,
    name: Seq<char>,
) -> Seq<char> {
    kind + "|"@ + text::dec(start as nat) + "|"@ + project + "|"@ + name
}

pub open spec fn resource_key(
    kind: Seq<char>,
    start: u64,
    project: Seq<char>,
    name: Seq<char>,
) -> Seq<char> {
    "resource_"@ + digest::blake3_hex(bytes::utf8(id_input(kind, start, project, name))).take(12)
}

/// `resource_<12 hex>` over kind, root start time, project and display name.
/// A pid is never part of an identity: pids are reused.
pub fn resource_id(kind: &str, start_time: u64, project: &str, name: &str) -> (r: String)
    ensures
        r@ == resource_key(kind@, start_time, project@, name@),
{
    let input: String = kind.to_owned().concat("|").concat(dec_of(start_time).as_str()).concat(
        "|",
    ).concat(project).concat("|").concat(name);
    let hex: String = hash_hex(input.as_str().as_bytes());
    let v: Vec<char> = chars_of(hex.as_str());
    let short: String = string_of(&v, 0, 12);
    assert(short@ =~= digest::blake3_hex(bytes::utf8(input@)).take(12));
    "resource_".to_owned().concat(short.as_str())
}

/// The longest beginning of a text that takes at most `n` bytes.
pub open spec fn within_bytes(s: Seq<char>, n: nat) -> Seq<char>
    decreases s.len(),
{
    if s.len() == 0 || bytes::utf8(s).len() <= n {
        s
    } else {
        within_bytes(s.drop_last(), n)
    }
}

pub open spec fn container_key(docker_id: Seq<char>) -> Seq<char> {
    "container_"@ + within_bytes(docker_id, 12)
}

/// Docker ids reuse the engine id as it is, shortened for display.
pub fn container_id(docker_id: &str) -> (r: String)
    ensures
        r@ == container_key(docker_id@),
{
    let v: Vec<char> = chars_of(docker_id);
    let mut n: usize = v.len();
    let mut short: String = docker_id.to_owned();
    assert(v@.take(v@.len() as int) =~= docker_id@);
    while n > 0 && short.as_str().as_bytes().len() > 12
        invariant
            n <= v.len(),
            short@ == v@.take(n as int),
            within_bytes(docker_id@, 12) == within_bytes(v@.take(n as int), 12),
        decreases n,
    {
        assert(v@.take(n as int).drop_last() =~= v@.take(n - 1));
        n -= 1;
        short = string_of(&v, 0, n);
        assert(short@ =~= v@.take(n as int));
    }
    "container_".to_owned().concat(short.as_str())
}

pub open spec fn is_alnum(c: char) -> bool {
    ('0' <= c <= '9') || ('a' <= c <= 'z') || ('A' <= c <= 'Z')
}

/// Letters and digits as they stand; each run of anything else between them
/// is one dash.
pub open spec fn dashed(s: Seq<char>) -> Seq<char>
    decreases s.len(),
{
    if s.len() == 0 {
        Seq::empty()
    } else {
        let rest = dashed(s.drop_last());
        if is_alnum(s.last()) {
            rest.push(s.last())
        } else if rest.len() > 0 && rest.last() != '-' {
            rest.push('-')
        } else {
            rest
        }
    }
}

pub open spec fn without_dashes_behind(s: Seq<char>) -> Seq<char>
    decreases s.len(),
{
    if s.len() > 0 && s.last() == '-' {
        without_dashes_behind(s.drop_last())
    } else {
        s
    }
}

pub open spec fn slug_text(name: Seq<char>) -> Seq<char> {
    let s = without_dashes_behind(dashed(text::lowercase_text(name)));
    if s.len() == 0 {
        "project"@
    } else {
        s
    }
}

fn slug(name: &str) -> (r: String)
    ensures
        r@ == slug_text(name@),
{
    let low: String = lowercased(name);
    let v: Vec<char> = chars_of(low.as_str());
    let mut out: Vec<char> = Vec::new();
    let mut i: usize = 0;
    assert(v@.take(0) =~= Seq::<char>::empty());
    assert(out@ =~= Seq::<char>::empty());
    while i < v.len()
        invariant
            i <= v.len(),
            out@ == dashed(v@.take(i as int)),
        decreases v.len() - i,
    {
        assert(v@.take(i + 1).drop_last() =~= v@.take(i as int));
        let c: char = v[i];
        if ('0' <= c && c <= '9') || ('a' <= c && c <= 'z') || ('A' <= c && c <= 'Z') {
            out.push(c);
        } else if out.len() > 0 && out[out.len() - 1] != '-' {
            out.push('-');
        }
        i += 1;
    }
    assert(v@.take(v@.len() as int) =~= v@);
    let ghost full = out@;
    while out.len() > 0 && out[out.len() - 1] == '-'
        invariant
            without_dashes_behind(out@) == without_dashes_behind(full),
        decreases out.len(),
    {
        let ghost before = out@;
        let _ = out.pop();
        assert(out@ =~= before.drop_last());
    }
    if out.len() == 0 {
        "project".to_owned()
    } else {
        let n: usize = out.len();
        let r: String = string_of(&out, 0, n);
        assert(r@ =~= out@);
        r
    }
}

pub open spec fn project_key(name: Seq<char>) -> Seq<char> {
    "project_"@ + slug_text(name)
}

/// `project_<slug>` from the classifier's project name.
pub fn project_id(name: &str) -> (r: String)
    ensures
        r@ == project_key(name@),
{
    "project_".to_owned().concat(slug(name).as_str())
}

pub open spec fn session_key(key: u64) -> Seq<char> {
    "session_"@ + text::hex_fixed(key as nat, 16)
}

/// `session_<16 hex>` from the stable session key.
pub fn session_id(key: u64) -> (r: String)
    ensures
        r@ == session_key(key),
{
    "session_".to_owned().concat(hex_of(key as u128, 16).as_str())
}

/// The project id of a session's project path, by its last component.
pub open spec fn session_project(path: Seq<char>) -> Option<Seq<char>> {
    let base = path.skip(text::after_last(path, '/'));
    if base.len() == 0 {
        None
    } else {
        Some(project_key(base))
    }
}

/// Basename slug of a session project path (`~/Work/wyd` is `wyd`).
pub fn session_project_id(path: &str) -> (r: Option<String>)
    ensures
        text::text_of(r) == session_project(path@),
{
    let base: String = tail_after(path, '/');
    if base.as_str().unicode_len() == 0 {
        None
    } else {
        Some(project_id(base.as_str()))
    }
}

/// Resource ids, container ids, project ids and session ids never coincide:
/// each kind has a prefix of its own.
pub proof fn ids_of_different_kinds_differ(
    kind: Seq<char>,
    start: u64,
    project: Seq<char>,
    name: Seq<char>,
    docker_id: Seq<char>,
    other: Seq<char>,
    key: u64,
)
    ensures
        text::starts_with(resource_key(kind, start, project, name), "resource_"@),
        text::starts_with(container_key(docker_id), "container_"@),
        text::starts_with(project_key(other), "project_"@),
        text::starts_with(session_key(key), "session_"@),
        resource_key(kind, start, project, name) != container_key(docker_id),
        resource_key(kind, start, project, name) != project_key(other),
        resource_key(kind, start, project, name) != session_key(key),
        container_key(docker_id) != project_key(other),
        container_key(docker_id) != session_key(key),
        project_key(other) != session_key(key),
{
    reveal_strlit("resource_");
    reveal_strlit("container_");
    reveal_strlit("project_");
    reveal_strlit("session_");
    let a = resource_key(kind, start, project, name);
    let b = container_key(docker_id);
    let c = project_key(other);
    let d = session_key(key);
    assert(a.subrange(0, 9) =~= "resource_"@);
    assert(b.subrange(0, 10) =~= "container_"@);
    assert(c.subrange(0, 8) =~= "project_"@);
    assert(d.subrange(0, 8) =~= "session_"@);
    assert(a[0] == 'r' && b[0] == 'c' && c[0] == 'p' && d[0] == 's');
}

/// An engine id is cut to the longest beginning of at most twelve bytes.
pub proof fn an_engine_id_is_cut_to_twelve_bytes(s: Seq<char>) -> (n: int)
    ensures
        0 <= n <= s.len(),
        container_key(s) == "container_"@ + s.take(n),
        n == 0 || bytes::utf8(s.take(n)).len() <= 12,
        forall|m: int| n < m <= s.len() ==> bytes::utf8(#[trigger] s.take(m)).len() > 12,
{
    cut_facts(s, 12)
}

proof fn cut_facts(s: Seq<char>, limit: nat) -> (n: int)
    ensures
        0 <= n <= s.len(),
        within_bytes(s, limit) == s.take(n),
        n == 0 || bytes::utf8(s.take(n)).len() <= limit,
        forall|m: int| n < m <= s.len() ==> bytes::utf8(#[trigger] s.take(m)).len() > limit,
    decreases s.len(),
{
    assert(s.take(s.len() as int) =~= s);
    if s.len() == 0 || bytes::utf8(s).len() <= limit {
        s.len() as int
    } else {
        let front = s.drop_last();
        let n = cut_facts(front, limit);
        assert(front.take(n) =~= s.take(n));
        assert forall|m: int| n < m <= s.len() implies bytes::utf8(#[trigger] s.take(m)).len()
            > limit by {
            if m < s.len() {
                assert(front.take(m) =~= s.take(m));
            }
        }
        n
    }
}

proof fn dashed_facts(s: Seq<char>)
    ensures
        dashed(s).filter(|c: char| is_alnum(c)) == s.filter(|c: char| is_alnum(c)),
        forall|i: int| 0 <= i < dashed(s).len() ==> is_alnum(#[trigger] dashed(s)[i]) || dashed(s)[i]
            == '-',
        dashed(s).len() > 0 ==> is_alnum(dashed(s)[0]),
        forall|i: int|
            0 < i < dashed(s).len() && #[trigger] dashed(s)[i] == '-' ==> is_alnum(dashed(s)[i - 1]),
    decreases s.len(),
{
    reveal(Seq::filter);
    if s.len() > 0 {
        let front = s.drop_last();
        let rest = dashed(front);
        dashed_facts(front);
        let all = dashed(s);
        if is_alnum(s.last()) {
            assert(all.drop_last() =~= rest);
        } else if rest.len() > 0 && rest.last() != '-' {
            assert(all.drop_last() =~= rest);
            assert(!is_alnum('-'));
        }
        assert forall|i: int| 0 < i < all.len() && #[trigger] all[i] == '-' implies is_alnum(
            all[i - 1],
        ) by {
            if i < rest.len() {
                assert(rest[i] == all[i] && rest[i - 1] == all[i - 1]);
            } else {
                assert(all[i - 1] == rest[rest.len() - 1]);
            }
        }
    }
}

proof fn cut_dashes(s: Seq<char>) -> (n: int)
    ensures
        0 <= n <= s.len(),
        without_dashes_behind(s) == s.take(n),
        n > 0 ==> s[n - 1] != '-',
        without_dashes_behind(s).filter(|c: char| is_alnum(c)) == s.filter(|c: char| is_alnum(c)),
    decreases s.len(),
{
    reveal(Seq::filter);
    assert(s.take(s.len() as int) =~= s);
    if s.len() > 0 && s.last() == '-' {
        let front = s.drop_last();
        let n = cut_dashes(front);
        assert(front.take(n) =~= s.take(n));
        assert(!is_alnum('-'));
        n
    } else {
        s.len() as int
    }
}

/// A slug keeps the letters and digits of the lowercased name in their order;
/// what stands between them is one dash, and none stands at either end.
pub proof fn a_slug_keeps_letters_and_digits(name: Seq<char>)
    ensures
        ({
            let low = text::lowercase_text(name);
            let slug = slug_text(name);
            let kept = low.filter(|c: char| is_alnum(c));
            &&& kept.len() == 0 ==> slug == "project"@
            &&& kept.len() > 0 ==> slug.filter(|c: char| is_alnum(c)) == kept && slug.len() > 0
                && is_alnum(slug[0]) && is_alnum(slug.last()) && forall|i: int|
                0 < i < slug.len() && !is_alnum(#[trigger] slug[i]) ==> slug[i] == '-' && is_alnum(
                    slug[i - 1],
                )
        }),
{
    let low = text::lowercase_text(name);
    let d = dashed(low);
    let p = |c: char| is_alnum(c);
    dashed_facts(low);
    let n = cut_dashes(d);
    let t = without_dashes_behind(d);
    if t.len() > 0 {
        assert(t[0] == d[0]);
        assert(t.last() == d[n - 1]);
        assert(is_alnum(d[n - 1]) || d[n - 1] == '-');
        d.lemma_filter_contains(p, 0);
        assert(d.filter(p).contains(d[0]));
        assert(d.filter(p).len() > 0);
        assert forall|i: int| 0 < i < t.len() && !is_alnum(#[trigger] t[i]) implies t[i] == '-'
            && is_alnum(t[i - 1]) by {
            assert(t[i] == d[i] && t[i - 1] == d[i - 1]);
            assert(is_alnum(d[i]) || d[i] == '-');
        }
    } else {
        reveal(Seq::filter);
        assert(t =~= Seq::<char>::empty());
        assert(t.filter(p).len() == 0);
    }
}

} // verus!
