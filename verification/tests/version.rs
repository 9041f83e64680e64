use dsh_desktop::version::{split_ver, ver_gt};

#[test]
fn version_comparison_works() {
    // major / minor / patch bumps
    assert!(ver_gt("0.1.2", "0.1.1"));
    assert!(ver_gt("0.2.0", "0.1.9"));
    assert!(ver_gt("1.0.0", "0.9.9"));
    // a release is newer than its pre-release
    assert!(ver_gt("0.1.1", "0.1.1-rc.2"));
    assert!(ver_gt("0.1.1-rc.3", "0.1.1-rc.2"));
    // equal / older
    assert!(!ver_gt("0.1.1", "0.1.1"));
    assert!(!ver_gt("0.1.1-rc.2", "0.1.1"));
    assert!(!ver_gt("0.1.1", "0.1.2"));
    assert!(!ver_gt("0.1.1-rc.2", "0.1.2"));
}

#[test]
fn version_split_handles_pre_release() {
    assert_eq!(split_ver("0.1.1"), (vec![0, 1, 1], String::new()));
    assert_eq!(split_ver("0.1.1-rc.2"), (vec![0, 1, 1], "rc.2".to_string()));
    assert_eq!(split_ver("1.0.0-beta.10"), (vec![1, 0, 0], "beta.10".to_string()));
}

#[test]
fn split_ver_drops_pieces_that_are_not_numbers() {
    assert_eq!(split_ver("1.x.2"), (vec![1, 2], String::new()));
    assert_eq!(split_ver("+3.04"), (vec![3, 4], String::new()));
    assert_eq!(split_ver(""), (vec![], String::new()));
    assert_eq!(split_ver("1..2."), (vec![1, 2], String::new()));
    assert_eq!(split_ver("-rc"), (vec![], "rc".to_string()));
    assert_eq!(split_ver("1.0-a-b"), (vec![1, 0], "a-b".to_string()));
    assert_eq!(split_ver("1-"), (vec![1], String::new()));
}

#[test]
fn split_ver_handles_u64_limits() {
    assert_eq!(split_ver("18446744073709551615"), (vec![u64::MAX], String::new()));
    assert_eq!(split_ver("18446744073709551616.7"), (vec![7], String::new()));
    assert_eq!(split_ver("99999999999999999999999.1"), (vec![1], String::new()));
    assert_eq!(split_ver("+.1"), (vec![1], String::new()));
    assert_eq!(split_ver("-1.2"), (vec![], "1.2".to_string()));
}

#[test]
fn longer_number_list_is_newer() {
    assert!(ver_gt("1.0.0.1", "1.0.0"));
    assert!(!ver_gt("1.0", "1.0.0"));
    // both pre-releases compare as strings
    assert!(ver_gt("1.0.0-rc.9", "1.0.0-rc.10"));
    assert!(ver_gt("1.0.0-beta", "1.0.0-alpha"));
    assert!(ver_gt("1.0.0-rc.1", "1.0.0-rc"));
}

#[test]
fn version_order_is_strict() {
    let vs = ["0.1.1", "0.1.1-rc.2", "0.1.1-rc.3", "0.2.0", "1.0.0", "1.0.0-beta", "0.9.9", "1.x.0", "1.0"];
    for a in vs {
        assert!(!ver_gt(a, a));
        for b in vs {
            assert!(!(ver_gt(a, b) && ver_gt(b, a)));
            for c in vs {
                if ver_gt(a, b) && ver_gt(b, c) {
                    assert!(ver_gt(a, c));
                }
            }
            if split_ver(a) != split_ver(b) {
                assert!(ver_gt(a, b) || ver_gt(b, a));
            }
        }
    }
}
