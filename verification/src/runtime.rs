//! Where the node runtime and the service's entry point are looked for, in
//! order of preference: the environment overrides (`DSH_NODE_BIN`,
//! `DSH_ENTRY`) first, then the bundled resources of an installed layout,
//! of a flat layout and of a development checkout, and last `node` on the
//! search path.
//!
//! This order follows the README, which documents both variables as
//! overrides (for debugging): a set variable is tried before any bundled
//! runtime, so a bundled runtime that is present never hides it.
use vstd::prelude::*;
use crate::manager::opt_view;
use crate::paths::{
    drive_at, drive_letter_at, first_found, is_component, lemma_first_found_wins,
    lemma_keep_components_push, lemma_keep_components_replace_last, lemma_windows_prefix_bounds,
    path_components, profile_modules_shape, verbatim_start, windows_prefix,
};
use crate::text::{
    lemma_split_by_append_plain, lemma_split_by_nonempty, lemma_split_by_push_separator, separates,
    split_by, Separator,
};

verus! {

/// The separator a path join inserts on the platform.
pub open spec fn path_separator(windows: bool) -> char {
    if windows {
        '\\'
    } else {
        '/'
    }
}

/// `base` ends with a separator of the platform: `/`, and on Windows also
/// `\`, except that a verbatim Windows path (`\\?\...`) takes only `\`.
pub open spec fn ends_with_separator(base: Seq<char>, windows: bool) -> bool {
    base.len() > 0 && if windows {
        base.last() == '\\' || (base.last() == '/' && !verbatim_start(base))
    } else {
        base.last() == '/'
    }
}

/// `base` is a Windows drive and nothing more: `C:` or `\\?\C:`.
pub open spec fn drive_only(base: Seq<char>, windows: bool) -> bool {
    windows && ((base.len() == 2 && drive_at(base, 0)) || (base.len() == 6 && verbatim_start(base)
        && drive_at(base, 4)))
}

/// `base` joined with the relative component `part`, as `Path::join` does: a
/// separator is put between them unless `base` is empty, already ends with
/// one, or is a Windows drive alone (`C:` joined with `a` is `C:a`, a path
/// relative to that drive's current directory). A verbatim Windows base is
/// taken to be written in the form that `Path` itself gives such paths, with
/// no empty components.
pub open spec fn join_path(base: Seq<char>, part: Seq<char>, windows: bool) -> Seq<char> {
    if base.len() == 0 {
        part
    } else if ends_with_separator(base, windows) || drive_only(base, windows) {
        base + part
    } else {
        base + seq![path_separator(windows)] + part
    }
}

/// The node executable under a runtime directory `base`.
pub open spec fn node_under(base: Seq<char>, windows: bool) -> Seq<char> {
    if windows {
        join_path(join_path(base, "node"@, windows), "node.exe"@, windows)
    } else {
        join_path(join_path(join_path(base, "node"@, windows), "bin"@, windows), "node"@, windows)
    }
}

/// The service's command-line entry point under a resource directory `base`.
pub open spec fn entry_under(base: Seq<char>, windows: bool) -> Seq<char> {
    join_path(
        join_path(
            join_path(
                join_path(join_path(join_path(base, "dsh"@, windows), "node_modules"@, windows), "@deepseek-ai"@, windows),
                "dsh"@,
                windows,
            ),
            "lib"@,
            windows,
        ),
        "bin.js"@,
        windows,
    )
}

/// The override from the environment, when one is set, as a list.
pub open spec fn env_first(env: Option<Seq<char>>) -> Seq<Seq<char>> {
    match env {
        Some(p) => seq![p],
        None => Seq::<Seq<char>>::empty(),
    }
}

/// Node runtimes to try, best first: the `DSH_NODE_BIN` override, the bundled
/// runtime of the installed layout (`resources/` under the resource
/// directory), of the flat layout and of the development checkout, and last
/// `node` from the search path.
pub open spec fn node_candidates(resource_dir: Seq<char>, dev_resources: Seq<char>, env: Option<Seq<char>>, windows: bool) -> Seq<Seq<char>> {
    env_first(env) + seq![
        node_under(join_path(resource_dir, "resources"@, windows), windows),
        node_under(resource_dir, windows),
        node_under(dev_resources, windows),
        "node"@,
    ]
}

/// Entry points to try, best first: the `DSH_ENTRY` override, then the
/// bundled package of the installed layout, of the flat layout and of the
/// development checkout.
pub open spec fn entry_candidates(resource_dir: Seq<char>, dev_resources: Seq<char>, env: Option<Seq<char>>, windows: bool) -> Seq<Seq<char>> {
    env_first(env) + seq![
        entry_under(join_path(resource_dir, "resources"@, windows), windows),
        entry_under(resource_dir, windows),
        entry_under(dev_resources, windows),
    ]
}

/// `base` joined with `part` (see `join_path`).
pub fn join(base: String, part: &str, windows: bool) -> (r: String)
    ensures
        r@ == join_path(base@, part@, windows),
{
    let cs = crate::text::chars_of(base.as_str());
    if cs.len() == 0 {
        return String::from_str(part);
    }
    let last = cs[cs.len() - 1];
    let drive = windows && ((cs.len() == 2 && drive_letter_at(&cs, 0)) || (cs.len() == 6 && cs[0] == '\\'
        && cs[1] == '\\' && cs[2] == '?' && cs[3] == '\\' && drive_letter_at(&cs, 4)));
    let mut r = base;
    let verbatim = windows && cs.len() >= 4 && cs[0] == '\\' && cs[1] == '\\' && cs[2] == '?' && cs[3] == '\\';
    let ends_with_sep = if windows {
        last == '\\' || (last == '/' && !verbatim)
    } else {
        last == '/'
    };
    if !(ends_with_sep || drive) {
        crate::text::push_char(&mut r, if windows { '\\' } else { '/' });
    }
    r.append(part);
    r
}

fn node_path(base: &str, windows: bool) -> (r: String)
    ensures
        r@ == node_under(base@, windows),
{
    let b = String::from_str(base);
    if windows {
        join(join(b, "node", windows), "node.exe", windows)
    } else {
        join(join(join(b, "node", windows), "bin", windows), "node", windows)
    }
}

fn entry_path(base: &str, windows: bool) -> (r: String)
    ensures
        r@ == entry_under(base@, windows),
{
    let b = String::from_str(base);
    let p = join(join(join(b, "dsh", windows), "node_modules", windows), "@deepseek-ai", windows);
    join(join(join(p, "dsh", windows), "lib", windows), "bin.js", windows)
}

/// The node runtimes and the entry points to try, in order (see
/// `node_candidates` and `entry_candidates`).
pub fn runtime_candidates(
    resource_dir: &str,
    dev_resources: &str,
    node_env: Option<String>,
    entry_env: Option<String>,
    windows: bool,
) -> (c: (Vec<String>, Vec<String>))
    ensures
        c.0@.map_values(|s: String| s@) == node_candidates(resource_dir@, dev_resources@, opt_view(node_env), windows),
        c.1@.map_values(|s: String| s@) == entry_candidates(resource_dir@, dev_resources@, opt_view(entry_env), windows),
{
    let installed = join(String::from_str(resource_dir), "resources", windows);
    let mut nodes: Vec<String> = Vec::new();
    match node_env {
        Some(p) => nodes.push(p),
        None => {},
    }
    nodes.push(node_path(installed.as_str(), windows));
    nodes.push(node_path(resource_dir, windows));
    nodes.push(node_path(dev_resources, windows));
    nodes.push(String::from_str("node"));
    let mut entries: Vec<String> = Vec::new();
    match entry_env {
        Some(p) => entries.push(p),
        None => {},
    }
    entries.push(entry_path(installed.as_str(), windows));
    entries.push(entry_path(resource_dir, windows));
    entries.push(entry_path(dev_resources, windows));
    assert(nodes@.map_values(|s: String| s@) =~= node_candidates(resource_dir@, dev_resources@, opt_view(node_env), windows));
    assert(entries@.map_values(|s: String| s@) =~= entry_candidates(resource_dir@, dev_resources@, opt_view(entry_env), windows));
    (nodes, entries)
}

/// A node candidate counts as found when it is a file, or when it is the bare
/// `node`, left for the search path to resolve.
pub fn node_usable(candidate: &str, is_file: bool) -> (b: bool)
    ensures
        b == (is_file || candidate@ == "node"@),
{
    if is_file {
        return true;
    }
    let cs = crate::text::chars_of(candidate);
    let node = crate::text::chars_of("node");
    if cs.len() != node.len() {
        return false;
    }
    let same = crate::text::starts_with_chars(&cs, &node);
    assert(cs@.take(node@.len() as int) =~= cs@);
    same
}

/// A name that joins as exactly one path component: not empty, neither `.`
/// nor `..`, and without `/` or `\`.
pub open spec fn plain_name(n: Seq<char>) -> bool {
    &&& n.len() > 0
    &&& n != seq!['.']
    &&& n != seq!['.', '.']
    &&& forall|i: int| 0 <= i < n.len() ==> n[i] != '/' && n[i] != '\\'
}

/// Joining `part` onto `base` leaves the Windows prefix of `base` as it is
/// (there is no prefix elsewhere).
pub open spec fn join_keeps_prefix(base: Seq<char>, part: Seq<char>, windows: bool) -> bool {
    !windows || windows_prefix(join_path(base, part, windows)) == windows_prefix(base)
}

/// Joining a plain name onto a path adds the name as the path's last
/// component, unless on Windows the join makes the name part of the path's
/// prefix (as joining onto `\\server` alone makes the name the share).
pub proof fn lemma_join_appends_component(base: Seq<char>, name: Seq<char>, windows: bool)
    requires
        plain_name(name),
        join_keeps_prefix(base, name, windows),
    ensures
        path_components(join_path(base, name, windows), windows) == path_components(base, windows).push(
            name,
        ),
{
    let q = join_path(base, name, windows);
    lemma_windows_prefix_bounds(base);
    let plen: int = if windows {
        windows_prefix(base).0
    } else {
        0
    };
    let v: bool = windows && windows_prefix(base).1;
    let sep = if !windows {
        Separator::Char('/')
    } else if v {
        Separator::Char('\\')
    } else {
        Separator::Path
    };
    assert(path_components(base, windows) == keep_components_of(base.skip(plen), sep, v)) by {
        assert(base.skip(0) =~= base);
    }
    assert(path_components(q, windows) == keep_components_of(q.skip(plen), sep, v)) by {
        assert(q.skip(0) =~= q);
    }
    assert(forall|i: int| 0 <= i < name.len() ==> !separates(sep, #[trigger] name[i]));
    assert(is_component(name, v));
    let s = base.skip(plen);
    let r = split_by(s, sep);
    lemma_split_by_nonempty(s, sep);
    if base.len() == 0 || ends_with_separator(base, windows) || drive_only(base, windows) {
        assert(q.skip(plen) =~= s + name);
        lemma_split_by_append_plain(s, name, sep);
        if s.len() == 0 {
            assert(s =~= Seq::<char>::empty());
            assert(r == seq![Seq::<char>::empty()]);
        } else {
            assert(s.last() == base.last());
            assert(separates(sep, s.last()));
            assert(s.drop_last().push(s.last()) =~= s);
            lemma_split_by_push_separator(s.drop_last(), s.last(), sep);
        }
        assert(r.last() + name =~= name);
        lemma_keep_components_replace_last(r, name, v);
    } else {
        let c = path_separator(windows);
        assert(q.skip(plen) =~= s.push(c) + name);
        lemma_split_by_push_separator(s, c, sep);
        lemma_split_by_append_plain(s.push(c), name, sep);
        let r2 = r.push(Seq::<char>::empty());
        assert(r2.update(r2.len() - 1, r2.last() + name) =~= r.push(name));
        lemma_keep_components_push(r, name, v);
    }
}

spec fn keep_components_of(s: Seq<char>, sep: Separator, keep_dot: bool) -> Seq<Seq<char>> {
    crate::paths::keep_components(split_by(s, sep), keep_dot)
}

/// The deployment directory that a data directory `home` gives:
/// `home/profiles/web/node_modules`.
pub open spec fn profile_modules_dir(home: Seq<char>, windows: bool) -> Seq<char> {
    join_path(join_path(join_path(home, "profiles"@, windows), "web"@, windows), "node_modules"@, windows)
}

/// The deployment directory built from any data directory passes the check
/// made before it is deleted, unless on Windows one of the joins makes a name
/// part of the path's prefix (a data directory such as `\\server`).
pub proof fn lemma_deployment_dir_passes_guard(home: Seq<char>, windows: bool)
    requires
        join_keeps_prefix(home, "profiles"@, windows),
        join_keeps_prefix(join_path(home, "profiles"@, windows), "web"@, windows),
        join_keeps_prefix(
            join_path(join_path(home, "profiles"@, windows), "web"@, windows),
            "node_modules"@,
            windows,
        ),
    ensures
        profile_modules_shape(profile_modules_dir(home, windows), windows),
{
    reveal_strlit("profiles");
    reveal_strlit("web");
    reveal_strlit("node_modules");
    let a = join_path(home, "profiles"@, windows);
    let b = join_path(a, "web"@, windows);
    lemma_join_appends_component(home, "profiles"@, windows);
    lemma_join_appends_component(a, "web"@, windows);
    lemma_join_appends_component(b, "node_modules"@, windows);
}

/// An environment override is the first candidate, so when it is found it
/// is the one used; the bare `node` is always the last node candidate.
pub proof fn lemma_overrides_take_precedence(
    resource_dir: Seq<char>,
    dev_resources: Seq<char>,
    node_env: Option<Seq<char>>,
    entry_env: Option<Seq<char>>,
    windows: bool,
    node_found: Seq<bool>,
    entry_found: Seq<bool>,
)
    ensures
        node_env matches Some(p) ==> node_candidates(resource_dir, dev_resources, node_env, windows)[0] == p,
        entry_env matches Some(p) ==> entry_candidates(resource_dir, dev_resources, entry_env, windows)[0] == p,
        node_candidates(resource_dir, dev_resources, node_env, windows).last() == "node"@,
        node_found.len() > 0 && node_found[0] ==> first_found(node_found) == Some(0int),
        entry_found.len() > 0 && entry_found[0] ==> first_found(entry_found) == Some(0int),
{
    if node_found.len() > 0 && node_found[0] {
        lemma_first_found_wins(node_found, 0);
    }
    if entry_found.len() > 0 && entry_found[0] {
        lemma_first_found_wins(entry_found, 0);
    }
}

} // verus!
