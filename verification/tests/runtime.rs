use dsh_desktop::paths::{is_profile_modules_path, select_runtime};
use dsh_desktop::runtime::{join, node_usable, runtime_candidates};

#[test]
fn candidates_on_unix() {
    let (nodes, entries) = runtime_candidates("/opt/app", "/src/resources", None, None, false);
    assert_eq!(
        nodes,
        vec![
            "/opt/app/resources/node/bin/node",
            "/opt/app/node/bin/node",
            "/src/resources/node/bin/node",
            "node",
        ]
    );
    assert_eq!(
        entries,
        vec![
            "/opt/app/resources/dsh/node_modules/@deepseek-ai/dsh/lib/bin.js",
            "/opt/app/dsh/node_modules/@deepseek-ai/dsh/lib/bin.js",
            "/src/resources/dsh/node_modules/@deepseek-ai/dsh/lib/bin.js",
        ]
    );
}

#[test]
fn environment_overrides_come_first() {
    let (nodes, entries) = runtime_candidates(
        r"C:\App\",
        r"D:\src\resources",
        Some(r"E:\node.exe".to_string()),
        Some(r"E:\bin.js".to_string()),
        true,
    );
    assert_eq!(
        nodes,
        vec![r"E:\node.exe", r"C:\App\resources\node\node.exe", r"C:\App\node\node.exe", r"D:\src\resources\node\node.exe", "node"]
    );
    assert_eq!(entries[0], r"E:\bin.js");
    assert_eq!(entries[1], r"C:\App\resources\dsh\node_modules\@deepseek-ai\dsh\lib\bin.js");
    // an override that exists wins over the bundled runtime
    let found: Vec<bool> = nodes.iter().map(|n| node_usable(n, true)).collect();
    assert_eq!(select_runtime(&found, &vec![true, true, false, false]), Ok((0, 0)));
}

#[test]
fn joins_and_bare_node() {
    assert_eq!(join(String::new(), "a", false), "a");
    assert_eq!(join("/x/".to_string(), "a", false), "/x/a");
    assert_eq!(join(r"x\".to_string(), "a", false), r"x\/a");
    assert_eq!(join(r"x\".to_string(), "a", true), r"x\a");
    // a drive alone takes no separator
    assert_eq!(join("C:".to_string(), "profiles", true), "C:profiles");
    assert_eq!(join(r"\\?\D:".to_string(), "a", true), r"\\?\D:a");
    assert_eq!(join("C:".to_string(), "profiles", false), "C:/profiles");
    assert_eq!(join("1:".to_string(), "a", true), r"1:\a");
    assert_eq!(join(r"\\?\C:\x".to_string(), "a", true), r"\\?\C:\x\a");
    // a verbatim path takes only `\` as its separator
    assert_eq!(join(r"\\?\C:\a/".to_string(), "b", true), r"\\?\C:\a/\b");
    assert_eq!(join("C:/a/".to_string(), "b", true), "C:/a/b");
    assert!(node_usable("node", false));
    assert!(!node_usable("/usr/bin/node", false));
    assert!(node_usable("/usr/bin/node", true));
}

#[test]
fn deployment_dir_of_any_data_dir_passes_the_guard() {
    for (home, windows) in [
        ("C:", true),
        (r"C:\Users\a\.dsh", true),
        (r"\\?\C:\data\", true),
        (r"\\srv\share", true),
        ("", true),
        ("/home/a/.dsh", false),
        ("/", false),
        ("", false),
        (r"odd\name", false),
    ] {
        let dir = join(join(join(home.to_string(), "profiles", windows), "web", windows), "node_modules", windows);
        assert!(is_profile_modules_path(&dir, windows), "{dir}");
    }
    // a server without a share takes the first name as its share
    let dir = join(join(join(r"\\srv".to_string(), "profiles", true), "web", true), "node_modules", true);
    assert_eq!(dir, r"\\srv\profiles\web\node_modules");
    assert!(!is_profile_modules_path(&dir, true));
}
