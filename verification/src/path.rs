//! Unix paths as texts.

use crate::text;
use crate::text::{chars_of, same, string_of, tail_after};
use vstd::prelude::*;

verus! {

/// The last ordinary component of a path. Trailing separators and `.`
/// components do not count; a path that ends in `..`, or has no component,
/// has none.
pub open spec fn base_name(s: Seq<char>) -> Option<Seq<char>>
    decreases s.len(),
    via base_name_decreases
{
    let k = text::after_last(s, '/');
    let last = s.skip(k);
    if s.len() == 0 {
        None
    } else if s.last() == '/' {
        base_name(s.drop_last())
    } else if last == seq!['.', '.'] {
        None
    } else if last == seq!['.'] {
        if k == 0 {
            None
        } else {
            base_name(s.take(k))
        }
    } else {
        Some(last)
    }
}

#[via_fn]
proof fn base_name_decreases(s: Seq<char>) {
    after_last_range(s, '/');
}

/// The place past the last separator lies in the text, and what follows it
/// holds no separator.
pub proof fn after_last_range(s: Seq<char>, sep: char)
    ensures
        0 <= text::after_last(s, sep) <= s.len(),
        text::after_last(s, sep) == s.len() <==> (s.len() == 0 || s.last() == sep),
        forall|i: int| text::after_last(s, sep) <= i < s.len() ==> s[i] != sep,
        text::after_last(s, sep) > 0 ==> s[text::after_last(s, sep) - 1] == sep,
    decreases s.len(),
{
    if s.len() > 0 && s.last() != sep {
        after_last_range(s.drop_last(), sep);
        assert forall|i: int| text::after_last(s, sep) <= i < s.len() implies s[i] != sep by {
            if i < s.len() - 1 {
                assert(s.drop_last()[i] == s[i]);
            }
        }
    }
}

/// The last ordinary component of `path`.
pub fn file_name(path: &str) -> (r: Option<String>)
    ensures
        text::text_of(r) == base_name(path@),
{
    let v: Vec<char> = chars_of(path);
    let mut end: usize = v.len();
    assert(v@.take(v@.len() as int) =~= v@);
    while end > 0
        invariant
            end <= v.len(),
            v@ == path@,
            base_name(path@) == base_name(v@.take(end as int)),
        decreases end,
    {
        let ghost t = v@.take(end as int);
        if v[end - 1] == '/' {
            assert(t.drop_last() =~= v@.take(end - 1));
            end -= 1;
        } else {
            let head: String = string_of(&v, 0, end);
            assert(head@ =~= t);
            let last: String = tail_after(head.as_str(), '/');
            proof {
                reveal_strlit("..");
                reveal_strlit(".");
                assert(".."@ =~= seq!['.', '.']);
                assert("."@ =~= seq!['.']);
            }
            if same(last.as_str(), "..") {
                return None;
            }
            if same(last.as_str(), ".") {
                proof {
                    after_last_range(t, '/');
                }
                if end == 1 {
                    return None;
                }
                assert(text::after_last(t, '/') == end - 1);
                assert(t.take(end - 1) =~= v@.take(end - 1));
                end -= 1;
            } else {
                return Some(last);
            }
        }
    }
    assert(v@.take(0).len() == 0);
    None
}

/// `rel` below `base`: an absolute `rel` stands alone, and exactly one
/// separator is put where the base does not end in one.
pub open spec fn joined(base: Seq<char>, rel: Seq<char>) -> Seq<char> {
    if rel.len() > 0 && rel[0] == '/' {
        rel
    } else if base.len() == 0 || base.last() == '/' {
        base + rel
    } else {
        base + seq!['/'] + rel
    }
}

/// `rel` below `base`.
pub fn join(base: &str, rel: &str) -> (r: String)
    ensures
        r@ == joined(base@, rel@),
{
    let b: Vec<char> = chars_of(base);
    let c: Vec<char> = chars_of(rel);
    if c.len() > 0 && c[0] == '/' {
        return rel.to_owned();
    }
    let mut r: String = base.to_owned();
    if b.len() > 0 && b[b.len() - 1] != '/' {
        r.push('/');
        assert(r@ =~= base@ + seq!['/']);
    }
    r.append(rel);
    r
}

/// A path without trailing separators and `.` components.
pub open spec fn trimmed(s: Seq<char>) -> Seq<char>
    decreases s.len(),
{
    if s.len() > 1 && s.last() == '/' {
        trimmed(s.drop_last())
    } else if s.len() > 1 && s.last() == '.' && s[s.len() - 2] == '/' {
        trimmed(s.drop_last())
    } else {
        s
    }
}

/// The directory that holds a path. The root and the empty path have none.
pub open spec fn parent_of(s: Seq<char>) -> Option<Seq<char>> {
    let t = trimmed(s);
    if t.len() == 0 || t == seq!['/'] {
        None
    } else {
        Some(trimmed(t.take(text::after_last(t, '/'))))
    }
}

/// Trimming never makes a path longer.
pub proof fn trimmed_shorter(s: Seq<char>)
    ensures
        trimmed(s).len() <= s.len(),
        trimmed(s).len() > 1 ==> trimmed(s).last() != '/',
    decreases s.len(),
{
    if s.len() > 1 && (s.last() == '/' || (s.last() == '.' && s[s.len() - 2] == '/')) {
        trimmed_shorter(s.drop_last());
    }
}

/// A parent is shorter than its path.
pub proof fn parent_shorter(s: Seq<char>)
    ensures
        match parent_of(s) {
            Some(p) => p.len() < s.len(),
            None => true,
        },
{
    let t = trimmed(s);
    trimmed_shorter(s);
    after_last_range(t, '/');
    if t.len() > 0 && t != seq!['/'] {
        let k = text::after_last(t, '/');
        trimmed_shorter(t.take(k));
        if t.len() == 1 {
            if t.last() == '/' {
                assert(t =~= seq!['/']);
            }
        }
        assert(k < t.len());
    }
}

fn trimmed_len(v: &Vec<char>, end: usize) -> (r: usize)
    requires
        end <= v.len(),
    ensures
        r <= end,
        v@.take(r as int) == trimmed(v@.take(end as int)),
{
    let mut n: usize = end;
    while n > 1 && (v[n - 1] == '/' || (v[n - 1] == '.' && v[n - 2] == '/'))
        invariant
            n <= end <= v.len(),
            trimmed(v@.take(n as int)) == trimmed(v@.take(end as int)),
        decreases n,
    {
        assert(v@.take(n as int).drop_last() =~= v@.take(n - 1));
        assert(v@.take(n as int).last() == v@[n - 1]);
        assert(v@.take(n as int)[n - 2] == v@[n - 2]);
        n -= 1;
    }
    if n > 1 {
        assert(v@.take(n as int).last() == v@[n - 1]);
        assert(v@.take(n as int)[n - 2] == v@[n - 2]);
    }
    n
}

/// The path without trailing separators and `.` components.
pub fn trim(path: &str) -> (r: String)
    ensures
        r@ == trimmed(path@),
{
    let v: Vec<char> = chars_of(path);
    let n: usize = trimmed_len(&v, v.len());
    assert(v@.take(v@.len() as int) =~= v@);
    let r: String = string_of(&v, 0, n);
    assert(v@.subrange(0, n as int) =~= v@.take(n as int));
    r
}

/// The directory that holds `path`.
pub fn parent(path: &str) -> (r: Option<String>)
    ensures
        text::text_of(r) == parent_of(path@),
{
    let v: Vec<char> = chars_of(path);
    let n: usize = trimmed_len(&v, v.len());
    assert(v@.take(v@.len() as int) =~= v@);
    let ghost t = v@.take(n as int);
    if n == 0 || (n == 1 && v[0] == '/') {
        assert(n == 1 ==> t =~= seq!['/']);
        return None;
    }
    assert(t.len() == 1 ==> t[0] == v@[0]);
    let mut k: usize = n;
    assert(t.take(n as int) =~= t);
    while k > 0 && v[k - 1] != '/'
        invariant
            k <= n <= v.len(),
            t == v@.take(n as int),
            text::after_last(t, '/') == text::after_last(t.take(k as int), '/'),
        decreases k,
    {
        assert(t.take(k as int).drop_last() =~= t.take(k - 1));
        assert(t.take(k as int).last() == v@[k - 1]);
        k -= 1;
    }
    if k > 0 {
        assert(t.take(k as int).last() == v@[k - 1]);
    }
    assert(text::after_last(t, '/') == k);
    let m: usize = trimmed_len(&v, k);
    assert(t.take(k as int) =~= v@.take(k as int));
    let r: String = string_of(&v, 0, m);
    assert(v@.subrange(0, m as int) =~= v@.take(m as int));
    Some(r)
}

/// Whether a path lies strictly below another one.
pub open spec fn below(path: Seq<char>, root: Seq<char>) -> bool {
    let t = trimmed(path);
    let b = trimmed(root);
    t != b && if b.len() == 0 {
        true
    } else if b.last() == '/' {
        text::starts_with(t, b)
    } else {
        text::starts_with(t, b + seq!['/'])
    }
}

/// Whether `path` lies strictly below `root`.
pub fn is_below(path: &str, root: &str) -> (r: bool)
    ensures
        r == below(path@, root@),
{
    let t: String = trim(path);
    let mut b: String = trim(root);
    if same(t.as_str(), b.as_str()) {
        return false;
    }
    let c: Vec<char> = chars_of(b.as_str());
    if c.len() == 0 {
        return true;
    }
    if c[c.len() - 1] != '/' {
        let ghost before = b@;
        b.push('/');
        assert(b@ =~= before + seq!['/']);
    }
    text::text_starts(t.as_str(), b.as_str())
}

proof fn past_the_only_separator(a: Seq<char>, b: Seq<char>)
    requires
        forall|i: int| 0 <= i < b.len() ==> #[trigger] b[i] != '/',
    ensures
        text::after_last(a + seq!['/'] + b, '/') == a.len() + 1,
    decreases b.len(),
{
    let s = a + seq!['/'] + b;
    if b.len() > 0 {
        let rest = b.drop_last();
        assert(s.last() == b[b.len() - 1]);
        assert(s.drop_last() =~= a + seq!['/'] + rest);
        assert forall|i: int| 0 <= i < rest.len() implies #[trigger] rest[i] != '/' by {
            assert(rest[i] == b[i]);
        }
        past_the_only_separator(a, rest);
    }
}

/// A name below a directory: the directory is its parent, the name its last
/// component, and it lies below the directory.
pub proof fn a_joined_name_comes_apart_again(dir: Seq<char>, name: Seq<char>)
    requires
        dir.len() > 0,
        dir.last() != '/',
        trimmed(dir) == dir,
        name.len() > 0,
        name != seq!['.'],
        forall|i: int| 0 <= i < name.len() ==> #[trigger] name[i] != '/',
    ensures
        joined(dir, name) == dir + seq!['/'] + name,
        parent_of(joined(dir, name)) == Some(dir),
        below(joined(dir, name), dir),
        !below(dir, joined(dir, name)),
        name != seq!['.', '.'] ==> base_name(joined(dir, name)) == Some(name),
{
    let s = dir + seq!['/'] + name;
    assert(name[0] != '/');
    past_the_only_separator(dir, name);
    assert(s.last() == name[name.len() - 1]);
    if s.last() == '.' {
        if name.len() == 1 {
            assert(name =~= seq!['.']);
        } else {
            assert(s[s.len() - 2] == name[name.len() - 2]);
        }
    }
    assert(trimmed(s) == s);
    let head = s.take(dir.len() as int + 1);
    assert(head =~= dir.push('/'));
    assert(head.drop_last() =~= dir);
    assert(trimmed(head) == dir);
    assert(s.skip(dir.len() as int + 1) =~= name);
    assert(s.subrange(0, dir.len() as int + 1) =~= dir + seq!['/']);
    assert(s != seq!['/']) by {
        assert(s.len() > 1);
    }
}

/// A path that starts at the root stands alone, whatever it is joined to.
pub proof fn an_absolute_path_stands_alone(dir: Seq<char>, rel: Seq<char>)
    requires
        rel.len() > 0,
        rel[0] == '/',
    ensures
        joined(dir, rel) == rel,
        parent_of("/"@) is None,
        parent_of(""@) is None,
{
    reveal_strlit("/");
    reveal_strlit("");
    assert("/"@ =~= seq!['/']);
}

/// Trailing separators mean nothing: with or without one, a path has the same
/// parent, name and place.
pub proof fn trailing_separators_mean_nothing(s: Seq<char>, root: Seq<char>)
    requires
        s.len() > 0,
    ensures
        trimmed(s.push('/')) == trimmed(s),
        parent_of(s.push('/')) == parent_of(s),
        base_name(s.push('/')) == base_name(s),
        below(s.push('/'), root) == below(s, root),
        below(root, s.push('/')) == below(root, s),
{
    assert(s.push('/').drop_last() =~= s);
    after_last_range(s.push('/'), '/');
}

} // verus!
