//! Path handling of the launcher: Windows verbatim prefixes, the shape check
//! that guards the deployment directory, where the service keeps its data,
//! and the markers and lookups of a deployment.
use vstd::prelude::*;
use crate::text::{
    chars_of, has_prefix, range_is, ranges_equal, ranges_match, split_by, split_ranges, string_of,
    string_of_range, trim, trim_range, Separator,
};

verus! {

/// Path of a file with its Windows verbatim prefix (`\\?\`) removed, when the
/// platform is Windows; other platforms keep paths as they are.
pub open spec fn deverbatim_path(p: Seq<char>, windows: bool) -> Seq<char> {
    if windows && has_prefix(p, "\\\\?\\"@) {
        p.skip(4)
    } else {
        p
    }
}

/// Removes the Windows verbatim prefix `\\?\` from `path` on Windows, so that
/// tools such as node do not read the entry point as a drive.
pub fn deverbatim(path: &str, windows: bool) -> (r: String)
    ensures
        r@ == deverbatim_path(path@, windows),
{
    let cs = chars_of(path);
    let prefix = chars_of("\\\\?\\");
    proof {
        reveal_strlit("\\\\?\\");
    }
    if windows && crate::text::starts_with_chars(&cs, &prefix) {
        let r = string_of_range(&cs, 4, cs.len());
        assert(cs@.subrange(4, cs@.len() as int) =~= cs@.skip(4));
        r
    } else {
        string_of(&cs)
    }
}

/// `c` is an ASCII letter, as a drive letter must be.
pub open spec fn is_ascii_letter(c: char) -> bool {
    ('a' <= c && c <= 'z') || ('A' <= c && c <= 'Z')
}

/// A drive designator such as `C:` stands at index `i` of `p`.
pub open spec fn drive_at(p: Seq<char>, i: int) -> bool {
    0 <= i && i + 2 <= p.len() && is_ascii_letter(p[i]) && p[i + 1] == ':'
}

/// `p` begins with the verbatim marker `\\?\`, written with backslashes.
pub open spec fn verbatim_start(p: Seq<char>) -> bool {
    p.len() >= 4 && p[0] == '\\' && p[1] == '\\' && p[2] == '?' && p[3] == '\\'
}

/// `c` separates Windows path components: `\` always, and `/` outside
/// verbatim paths.
pub open spec fn is_windows_sep(c: char, verbatim: bool) -> bool {
    c == '\\' || (!verbatim && c == '/')
}

/// Where the component that starts at index `from` of `p` ends: the index of
/// the next separator, or the length of `p` when none follows.
pub open spec fn component_end(p: Seq<char>, from: int, verbatim: bool) -> int
    decreases p.len() - from,
{
    if from >= p.len() {
        p.len() as int
    } else if is_windows_sep(p[from], verbatim) {
        from
    } else {
        component_end(p, from + 1, verbatim)
    }
}

/// Length of the Windows prefix of `p` (the part before the root and the
/// components), and whether it is a verbatim prefix, after which only `\`
/// separates components and `.` is kept. The prefixes are those of
/// `std::path::Prefix`: `\\?\UNC\server\share`, `\\?\C:`, `\\?\name`,
/// `\\.\device`, `\\server\share` and `C:`; in the markers `\\`, `UNC\`,
/// `.\` a `/` may stand for `\`, but not in the verbatim marker `\\?\`.
pub open spec fn windows_prefix(p: Seq<char>) -> (int, bool) {
    if verbatim_start(p) {
        if p.len() >= 8 && p[4] == 'U' && p[5] == 'N' && p[6] == 'C' && is_windows_sep(p[7], false) {
            let server_end = component_end(p, 8, true);
            if server_end < p.len() && component_end(p, server_end + 1, true) > server_end + 1 {
                (component_end(p, server_end + 1, true), true)
            } else {
                (server_end, true)
            }
        } else if drive_at(p, 4) && (p.len() == 6 || p[6] == '\\') {
            (6, true)
        } else {
            (component_end(p, 4, true), true)
        }
    } else if p.len() >= 2 && is_windows_sep(p[0], false) && is_windows_sep(p[1], false) {
        if p.len() >= 4 && p[2] == '.' && is_windows_sep(p[3], false) {
            (component_end(p, 4, false), false)
        } else {
            let server_end = component_end(p, 2, false);
            if 2 < server_end < p.len() && component_end(p, server_end + 1, false) > server_end + 1 {
                (component_end(p, server_end + 1, false), false)
            } else {
                (0, false)
            }
        }
    } else if drive_at(p, 0) {
        (2, false)
    } else {
        (0, false)
    }
}

/// A piece between separators that names a path component: not empty, and
/// not `.` unless the path is verbatim (where `.` stays a component).
pub open spec fn is_component(piece: Seq<char>, keep_dot: bool) -> bool {
    piece.len() > 0 && (keep_dot || piece != seq!['.'])
}

/// The pieces of `parts` that are components, in order.
pub open spec fn keep_components(parts: Seq<Seq<char>>, keep_dot: bool) -> Seq<Seq<char>>
    decreases parts.len(),
{
    if parts.len() == 0 {
        Seq::<Seq<char>>::empty()
    } else {
        keep_components(parts.drop_last(), keep_dot) + if is_component(parts.last(), keep_dot) {
            seq![parts.last()]
        } else {
            Seq::<Seq<char>>::empty()
        }
    }
}

/// Keeping the components of pieces with one more piece at the end keeps
/// that piece too when it is a component.
pub proof fn lemma_keep_components_push(parts: Seq<Seq<char>>, x: Seq<char>, keep_dot: bool)
    ensures
        keep_components(parts.push(x), keep_dot) == keep_components(parts, keep_dot) + if is_component(
            x,
            keep_dot,
        ) {
            seq![x]
        } else {
            Seq::<Seq<char>>::empty()
        },
{
    assert(parts.push(x).drop_last() =~= parts);
}

/// Replacing a last piece that is no component by `x` keeps `x` when it is one.
pub proof fn lemma_keep_components_replace_last(parts: Seq<Seq<char>>, x: Seq<char>, keep_dot: bool)
    requires
        parts.len() > 0,
        !is_component(parts.last(), keep_dot),
    ensures
        keep_components(parts.update(parts.len() - 1, x), keep_dot) == keep_components(parts, keep_dot)
            + if is_component(x, keep_dot) {
            seq![x]
        } else {
            Seq::<Seq<char>>::empty()
        },
{
    let u = parts.update(parts.len() - 1, x);
    assert(u.drop_last() =~= parts.drop_last());
    assert(u.last() == x);
    assert(keep_components(parts, keep_dot) =~= keep_components(parts.drop_last(), keep_dot));
}

/// A component that starts inside `p` ends inside it.
pub proof fn lemma_component_end_bounds(p: Seq<char>, from: int, verbatim: bool)
    requires
        0 <= from <= p.len(),
    ensures
        from <= component_end(p, from, verbatim) <= p.len(),
    decreases p.len() - from,
{
    if from < p.len() && !is_windows_sep(p[from], verbatim) {
        lemma_component_end_bounds(p, from + 1, verbatim);
    }
}

/// The Windows prefix lies within the path, and it is verbatim exactly when
/// the path starts with `\\?\`.
pub proof fn lemma_windows_prefix_bounds(p: Seq<char>)
    ensures
        0 <= windows_prefix(p).0 <= p.len(),
        windows_prefix(p).1 == verbatim_start(p),
{
    if p.len() >= 8 {
        lemma_component_end_bounds(p, 8, true);
        let e = component_end(p, 8, true);
        if e < p.len() {
            lemma_component_end_bounds(p, e + 1, true);
        }
    }
    if p.len() >= 4 {
        lemma_component_end_bounds(p, 4, true);
        lemma_component_end_bounds(p, 4, false);
    }
    if p.len() >= 2 {
        lemma_component_end_bounds(p, 2, false);
        let e = component_end(p, 2, false);
        if e < p.len() {
            lemma_component_end_bounds(p, e + 1, false);
        }
    }
}

/// The components of a path after its prefix and root, as `Path::components`
/// reads them. On Windows the prefix (such as `C:`) is set apart first and
/// both `/` and `\` separate components, only `\` after a verbatim prefix;
/// elsewhere there is no prefix and `/` alone separates them. Empty pieces
/// are skipped, and so is `.` outside verbatim paths.
pub open spec fn path_components(p: Seq<char>, windows: bool) -> Seq<Seq<char>> {
    if windows {
        let verbatim = windows_prefix(p).1;
        let sep = if verbatim {
            Separator::Char('\\')
        } else {
            Separator::Path
        };
        keep_components(split_by(p.skip(windows_prefix(p).0), sep), verbatim)
    } else {
        keep_components(split_by(p, Separator::Char('/')), false)
    }
}

/// The path has the shape `*/profiles/web/node_modules`: its last three
/// components are `profiles`, `web` and `node_modules`.
pub open spec fn profile_modules_shape(p: Seq<char>, windows: bool) -> bool {
    let c = path_components(p, windows);
    &&& c.len() >= 3
    &&& c[c.len() - 1] == "node_modules"@
    &&& c[c.len() - 2] == "web"@
    &&& c[c.len() - 3] == "profiles"@
}

fn windows_sep(c: char, verbatim: bool) -> (b: bool)
    ensures
        b == is_windows_sep(c, verbatim),
{
    c == '\\' || (!verbatim && c == '/')
}

fn ascii_letter(c: char) -> (b: bool)
    ensures
        b == is_ascii_letter(c),
{
    ('a' <= c && c <= 'z') || ('A' <= c && c <= 'Z')
}

/// Whether a drive designator such as `C:` stands at index `i` of `p`.
pub(crate) fn drive_letter_at(p: &Vec<char>, i: usize) -> (b: bool)
    ensures
        b == drive_at(p@, i as int),
{
    i < p.len() && p.len() - i >= 2 && ascii_letter(p[i]) && p[i + 1] == ':'
}

fn verbatim_start_exec(p: &Vec<char>) -> (b: bool)
    ensures
        b == verbatim_start(p@),
{
    p.len() >= 4 && p[0] == '\\' && p[1] == '\\' && p[2] == '?' && p[3] == '\\'
}

fn component_end_exec(p: &Vec<char>, from: usize, verbatim: bool) -> (e: usize)
    requires
        from <= p.len(),
    ensures
        e == component_end(p@, from as int, verbatim),
        from <= e <= p.len(),
{
    let mut i = from;
    while i < p.len() && !windows_sep(p[i], verbatim)
        invariant
            from <= i <= p.len(),
            component_end(p@, i as int, verbatim) == component_end(p@, from as int, verbatim),
        decreases p.len() - i,
    {
        i = i + 1;
    }
    i
}

/// The characters of `p` from index `from` on.
fn suffix(p: &Vec<char>, from: usize) -> (r: Vec<char>)
    requires
        from <= p.len(),
    ensures
        r@ == p@.skip(from as int),
{
    let mut r: Vec<char> = Vec::new();
    let mut i = from;
    while i < p.len()
        invariant
            from <= i <= p.len(),
            r@ == p@.subrange(from as int, i as int),
        decreases p.len() - i,
    {
        r.push(p[i]);
        assert(p@.subrange(from as int, i + 1) =~= p@.subrange(from as int, i as int).push(p@[i as int]));
        i = i + 1;
    }
    assert(p@.subrange(from as int, p.len() as int) =~= p@.skip(from as int));
    r
}

/// The Windows prefix of `p`, as `windows_prefix` gives it.
fn windows_prefix_exec(p: &Vec<char>) -> (r: (usize, bool))
    ensures
        r.0 as int == windows_prefix(p@).0,
        r.1 == windows_prefix(p@).1,
        r.0 <= p.len(),
{
    let n = p.len();
    if verbatim_start_exec(p) {
        if n >= 8 && p[4] == 'U' && p[5] == 'N' && p[6] == 'C' && windows_sep(p[7], false) {
            let server_end = component_end_exec(p, 8, true);
            if server_end < n {
                let share_end = component_end_exec(p, server_end + 1, true);
                if share_end > server_end + 1 {
                    return (share_end, true);
                }
            }
            (server_end, true)
        } else if drive_letter_at(p, 4) && (n == 6 || p[6] == '\\') {
            (6, true)
        } else {
            (component_end_exec(p, 4, true), true)
        }
    } else if n >= 2 && windows_sep(p[0], false) && windows_sep(p[1], false) {
        if n >= 4 && p[2] == '.' && windows_sep(p[3], false) {
            (component_end_exec(p, 4, false), false)
        } else {
            let server_end = component_end_exec(p, 2, false);
            if 2 < server_end && server_end < n {
                let share_end = component_end_exec(p, server_end + 1, false);
                if share_end > server_end + 1 {
                    return (share_end, false);
                }
            }
            (0, false)
        }
    } else if drive_letter_at(p, 0) {
        (2, false)
    } else {
        (0, false)
    }
}

/// Whether `path` has the shape `*/profiles/web/node_modules`, checked before
/// the deployment directory is deleted. The path text alone decides, read as
/// a path of Windows when `windows` holds and of Unix otherwise.
pub fn is_profile_modules_path(path: &str, windows: bool) -> (b: bool)
    ensures
        b == profile_modules_shape(path@, windows),
{
    let all = chars_of(path);
    let (plen, verbatim) = if windows {
        windows_prefix_exec(&all)
    } else {
        (0, false)
    };
    let cs = suffix(&all, plen);
    let sep = if !windows {
        Separator::Char('/')
    } else if verbatim {
        Separator::Char('\\')
    } else {
        Separator::Path
    };
    assert(path@.skip(0) =~= path@);
    let parts = split_ranges(&cs, sep);
    let ghost pieces = split_by(cs@, sep);
    let dot = chars_of(".");
    proof {
        reveal_strlit(".");
    }
    let mut kept: Vec<(usize, usize)> = Vec::new();
    let mut j: usize = 0;
    while j < parts.len()
        invariant
            pieces == split_by(cs@, sep),
            ranges_match(cs@, parts@, pieces),
            dot@ == seq!['.'],
            j <= parts.len(),
            ranges_match(cs@, kept@, keep_components(pieces.take(j as int), verbatim)),
        decreases parts.len() - j,
    {
        let (a, b) = parts[j];
        assert(cs@.subrange(a as int, b as int) == pieces[j as int]);
        assert(pieces.take(j + 1).drop_last() =~= pieces.take(j as int));
        assert(pieces.take(j + 1).last() == pieces[j as int]);
        if a < b && (verbatim || !range_is(&cs, a, b, &dot)) {
            kept.push((a, b));
        }
        j = j + 1;
    }
    assert(pieces.take(parts.len() as int) =~= pieces);
    let n = kept.len();
    if n < 3 {
        return false;
    }
    let (la, lb) = kept[n - 1];
    let (wa, wb) = kept[n - 2];
    let (pa, pb) = kept[n - 3];
    range_is(&cs, la, lb, &chars_of("node_modules")) && range_is(&cs, wa, wb, &chars_of("web"))
        && range_is(&cs, pa, pb, &chars_of("profiles"))
}

/// Where the service's data directory comes from.
#[derive(Debug)]
pub enum DshHome {
    /// The value of the `DSH_HOME` environment variable, as given.
    FromEnv(String),
    /// The directory `.dsh` under this home directory.
    UnderHome(String),
    /// The relative directory `.dsh`.
    Relative,
}

/// Name of the data directory under the user's home.
pub const DSH_HOME_DIR_NAME: &'static str = ".dsh";

/// The data directory: `DSH_HOME` when it is set to more than white space,
/// else `.dsh` under the user's home when that is known, else `.dsh`.
pub fn resolve_dsh_home(env_value: Option<String>, user_home: Option<String>) -> (h: DshHome)
    ensures
        match env_value {
            Some(v) if trim(v@).len() > 0 => h matches DshHome::FromEnv(p) && p@ == v@,
            _ => match user_home {
                Some(u) => h matches DshHome::UnderHome(p) && p@ == u@,
                None => h is Relative,
            },
        },
{
    if let Some(v) = env_value {
        let cs = chars_of(v.as_str());
        let (a, b) = trim_range(&cs);
        if a < b {
            return DshHome::FromEnv(v);
        }
    }
    match user_home {
        Some(u) => DshHome::UnderHome(u),
        None => DshHome::Relative,
    }
}

/// The marker written after a copied deployment: the installation directory
/// and the package version, one per line.
pub fn deploy_marker(install_dir: &str, version: &str) -> (m: String)
    ensures
        m@ == install_dir@ + seq!['\n'] + version@,
{
    let mut m = String::from_str(install_dir);
    crate::text::push_char(&mut m, '\n');
    m.append(version);
    m
}

/// A copied deployment is current: the package is present in it and the
/// marker found there matches the wanted one, ignoring surrounding white space.
pub fn deployment_current(package_present: bool, marker: Option<String>, want: &str) -> (b: bool)
    ensures
        b == (package_present && match marker {
            Some(m) => trim(m@) == trim(want@),
            None => false,
        }),
{
    if !package_present {
        return false;
    }
    match marker {
        Some(m) => {
            let mc = chars_of(m.as_str());
            let wc = chars_of(want);
            let rm = trim_range(&mc);
            let rw = trim_range(&wc);
            ranges_equal(&mc, rm, &wc, rw)
        },
        None => false,
    }
}

/// Index of the first `true` in `found`, if any.
pub open spec fn first_found(found: Seq<bool>) -> Option<int> {
    if exists|i: int| 0 <= i < found.len() && found[i] && forall|j: int| 0 <= j < i ==> !found[j] {
        Some(choose|i: int| 0 <= i < found.len() && found[i] && forall|j: int| 0 <= j < i ==> !found[j])
    } else {
        None
    }
}

fn first_true(found: &Vec<bool>) -> (r: Option<usize>)
    ensures
        match r {
            Some(i) => i < found.len() && found@[i as int] && forall|j: int| 0 <= j < i ==> !found@[j],
            None => forall|j: int| 0 <= j < found.len() ==> !found@[j],
        },
{
    let mut i: usize = 0;
    while i < found.len()
        invariant
            i <= found.len(),
            forall|j: int| 0 <= j < i ==> !found@[j],
        decreases found.len() - i,
    {
        if found[i] {
            return Some(i);
        }
        i = i + 1;
    }
    None
}

/// A candidate that is found is chosen over every later one; in particular
/// the first candidate is chosen whenever it is found.
pub proof fn lemma_first_found_wins(found: Seq<bool>, i: int)
    requires
        0 <= i < found.len(),
        found[i],
    ensures
        first_found(found) matches Some(k) && k <= i,
        found[0] ==> first_found(found) == Some(0int),
{
    let k = lemma_earliest_found(found, i);
    lemma_first_found(found, k);
}

proof fn lemma_earliest_found(found: Seq<bool>, i: int) -> (k: int)
    requires
        0 <= i < found.len(),
        found[i],
    ensures
        0 <= k <= i,
        found[k],
        forall|j: int| 0 <= j < k ==> !found[j],
    decreases i,
{
    if exists|j: int| 0 <= j < i && found[j] {
        let j = choose|j: int| 0 <= j < i && found[j];
        lemma_earliest_found(found, j)
    } else {
        i
    }
}

proof fn lemma_first_found(found: Seq<bool>, i: int)
    requires
        0 <= i < found.len(),
        found[i],
        forall|j: int| 0 <= j < i ==> !found[j],
    ensures
        first_found(found) == Some(i),
{
    let k = choose|k: int| 0 <= k < found.len() && found[k] && forall|j: int| 0 <= j < k ==> !found[j];
    assert(k == i) by {
        if k < i {
            assert(!found[k]);
        } else if i < k {
            assert(!found[i]);
        }
    }
}

/// Error when no node runtime is found.
pub open spec fn node_missing_message() -> Seq<char> {
    "未找到 Node 运行时，请先运行 scripts/prepare_runtime.ps1"@
}

/// Error when no entry point of the service's package is found.
pub open spec fn entry_missing_message() -> Seq<char> {
    "未找到 @deepseek-ai/dsh 包，请先运行 scripts/prepare_runtime.ps1"@
}

/// Picks the runtime among candidates checked in order of preference: the
/// first node runtime found and the first entry point found, by index.
pub fn select_runtime(node_found: &Vec<bool>, entry_found: &Vec<bool>) -> (r: Result<(usize, usize), String>)
    ensures
        match (first_found(node_found@), first_found(entry_found@)) {
            (Some(n), Some(e)) => r == Ok::<(usize, usize), String>((n as usize, e as usize)),
            (None, _) => r matches Err(m) && m@ == node_missing_message(),
            (Some(_), None) => r matches Err(m) && m@ == entry_missing_message(),
        },
{
    let n = first_true(node_found);
    proof {
        if let Some(i) = n {
            lemma_first_found(node_found@, i as int);
        }
    }
    let n = match n {
        Some(i) => i,
        None => {
            return Err(String::from_str("未找到 Node 运行时，请先运行 scripts/prepare_runtime.ps1"));
        },
    };
    let e = first_true(entry_found);
    proof {
        if let Some(i) = e {
            lemma_first_found(entry_found@, i as int);
        }
    }
    match e {
        Some(i) => Ok((n, i)),
        None => Err(String::from_str("未找到 @deepseek-ai/dsh 包，请先运行 scripts/prepare_runtime.ps1")),
    }
}

} // verus!
