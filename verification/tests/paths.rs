use dsh_desktop::paths::{
    deploy_marker, deployment_current, deverbatim, is_profile_modules_path, resolve_dsh_home,
    select_runtime, DshHome,
};

#[test]
fn deverbatim_strips_windows_prefix() {
    assert_eq!(deverbatim(r"\\?\C:\foo\bar", true), r"C:\foo\bar");
    assert_eq!(deverbatim(r"C:\plain", true), r"C:\plain");
    assert_eq!(deverbatim("/usr/bin/node", false), "/usr/bin/node");
    // other platforms keep the prefix
    assert_eq!(deverbatim(r"\\?\C:\foo", false), r"\\?\C:\foo");
}

#[test]
fn profile_modules_path_shape_check() {
    assert!(is_profile_modules_path(r"C:\Users\a\.dsh\profiles\web\node_modules", true));
    assert!(is_profile_modules_path("/home/a/.dsh/profiles/web/node_modules", false));
    // rejected: not web / not node_modules / anything else
    assert!(!is_profile_modules_path(r"C:\Users\a\.dsh\profiles\web", true));
    assert!(!is_profile_modules_path(r"C:\Users\a\.dsh\profiles\app\node_modules", true));
    assert!(!is_profile_modules_path(r"C:\Windows\System32", true));
    assert!(!is_profile_modules_path(r"C:\Users\a\.dsh\node_modules", true));
}

#[test]
fn profile_modules_path_needs_profiles_web_node_modules() {
    assert!(is_profile_modules_path("x/profiles/web/node_modules/", false));
    assert!(is_profile_modules_path("profiles//web/./node_modules", false));
    assert!(is_profile_modules_path(r"profiles\web/node_modules", true));
    assert!(!is_profile_modules_path(r"profiles\web/node_modules", false));
    assert!(!is_profile_modules_path("a/web/node_modules/", false));
    assert!(!is_profile_modules_path("web//node_modules", false));
    assert!(!is_profile_modules_path("node_modules", false));
    assert!(!is_profile_modules_path("a/profiles/web/../node_modules", false));
    assert!(!is_profile_modules_path("a/Profiles/web/node_modules", false));
    assert!(!is_profile_modules_path("", false));
    assert!(!is_profile_modules_path("", true));
}

#[test]
fn windows_prefixes_are_not_components() {
    // `C:` joined with `profiles` is `C:profiles`: the drive is a prefix
    assert!(is_profile_modules_path(r"C:profiles\web\node_modules", true));
    assert!(is_profile_modules_path("c:profiles/web/node_modules", true));
    assert!(!is_profile_modules_path(r"C:profiles\web\node_modules", false));
    // verbatim paths: only `\` separates, and `.` stays a component
    assert!(is_profile_modules_path(r"\\?\C:\Users\a\.dsh\profiles\web\node_modules", true));
    // after `\\?\` a drive counts only when `\` or the end follows it
    assert!(!is_profile_modules_path(r"\\?\C:profiles\web\node_modules", true));
    assert!(!is_profile_modules_path(r"\\?\C:\a\profiles\web/node_modules", true));
    assert!(!is_profile_modules_path(r"\\?\C:\a\profiles\web\node_modules\.", true));
    assert!(is_profile_modules_path(r"C:\a\profiles\web\node_modules\.", true));
    // a verbatim prefix that names no drive takes the first component
    assert!(!is_profile_modules_path(r"\\?\profiles\web\node_modules", true));
    assert!(is_profile_modules_path(r"\\?\x\profiles\web\node_modules", true));
    // server and share of UNC paths are part of the prefix
    assert!(!is_profile_modules_path(r"\\profiles\web\node_modules", true));
    assert!(is_profile_modules_path(r"\\srv\share\profiles\web\node_modules", true));
    assert!(!is_profile_modules_path(r"\\?\UNC\profiles\web\node_modules", true));
    assert!(is_profile_modules_path(r"\\?\UNC\srv\share\profiles\web\node_modules", true));
    // device namespace
    assert!(!is_profile_modules_path(r"\\.\profiles\web\node_modules", true));
    assert!(is_profile_modules_path(r"\\.\dev\profiles\web\node_modules", true));
    // `\\` with an empty server or share is no prefix
    assert!(is_profile_modules_path(r"\\\profiles\web\node_modules", true));
}

#[test]
fn empty_dsh_home_env_is_ignored_by_resolver_path() {
    let home = "/home/a".to_string();
    assert!(matches!(resolve_dsh_home(Some(String::new()), Some(home.clone())), DshHome::UnderHome(h) if h == home));
    assert!(matches!(resolve_dsh_home(Some(" \t".to_string()), Some(home.clone())), DshHome::UnderHome(h) if h == home));
    assert!(matches!(resolve_dsh_home(Some(" /data ".to_string()), Some(home.clone())), DshHome::FromEnv(p) if p == " /data "));
    assert!(matches!(resolve_dsh_home(None, None), DshHome::Relative));
    assert!(matches!(resolve_dsh_home(Some("\u{3000}".to_string()), None), DshHome::Relative));
}

#[test]
fn deployment_marker_matches_up_to_white_space() {
    let want = deploy_marker("/opt/dsh/node_modules", "1.2.3");
    assert_eq!(want, "/opt/dsh/node_modules\n1.2.3");
    assert!(deployment_current(true, Some(format!("{want}\n")), &want));
    assert!(!deployment_current(false, Some(want.clone()), &want));
    assert!(!deployment_current(true, None, &want));
    assert!(!deployment_current(true, Some("/opt/dsh/node_modules\n1.2.4".to_string()), &want));
}

#[test]
fn runtime_is_the_first_candidate_found() {
    assert_eq!(select_runtime(&vec![false, true, true], &vec![false, false, true]), Ok((1, 2)));
    assert_eq!(
        select_runtime(&vec![false, false], &vec![true]),
        Err("未找到 Node 运行时，请先运行 scripts/prepare_runtime.ps1".to_string())
    );
    assert_eq!(
        select_runtime(&vec![true], &vec![false, false]),
        Err("未找到 @deepseek-ai/dsh 包，请先运行 scripts/prepare_runtime.ps1".to_string())
    );
}
