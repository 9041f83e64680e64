use dsh_desktop::manager::ManagerInner;
use dsh_desktop::update::{
    check_update, install_failure_message, npm_missing_message, latest_version, npm_install_failure, npm_package_spec,
    package_version, UpdateEvent, UpdateInfo,
};

#[test]
fn update_offered_only_for_newer_versions() {
    let info = check_update(Ok("0.1.1".to_string()), Ok("0.1.2".to_string()));
    assert!(info.has_update);
    assert_eq!((info.current.as_str(), info.latest.as_str()), ("0.1.1", "0.1.2"));
    assert_eq!(info.error, None);
    assert!(!check_update(Ok("0.1.2".to_string()), Ok("0.1.2".to_string())).has_update);
    assert!(!check_update(Ok("0.1.2".to_string()), Ok("0.1.1".to_string())).has_update);
    assert!(!check_update(Ok("0.1.2".to_string()), Ok(String::new())).has_update);
}

#[test]
fn failed_checks_are_reported() {
    let info = check_update(Err("读取失败".to_string()), Err("网络请求失败".to_string()));
    assert_eq!(info.current, "未知（读取失败）");
    assert_eq!(info.latest, "");
    assert!(!info.has_update);
    assert_eq!(info.error.as_deref(), Some("网络请求失败"));
    // an unknown current version is older than any numbered release
    assert!(check_update(Err("x".to_string()), Ok("0.0.1".to_string())).has_update);
}

#[test]
fn versions_are_read_from_json() {
    assert_eq!(package_version(r#"{"name":"@deepseek-ai/dsh","version":"0.3.1"}"#), Ok("0.3.1".to_string()));
    assert_eq!(package_version(r#"{"name":"x"}"#), Ok("unknown".to_string()));
    assert_eq!(package_version(r#"{"version":3}"#), Ok("unknown".to_string()));
    assert!(package_version("not json").unwrap_err().starts_with("解析 package.json 失败: "));
    assert_eq!(latest_version(r#"{"version":"1.0.0"}"#), Ok("1.0.0".to_string()));
    assert_eq!(latest_version("{}"), Err("响应缺少 version 字段".to_string()));
    assert!(latest_version("").unwrap_err().starts_with("解析响应失败: "));
}

#[test]
fn one_update_at_a_time() {
    let mut m = ManagerInner::new();
    let info = UpdateInfo { current: "0.1.0".to_string(), latest: "0.2.0".to_string(), has_update: true, error: None };
    assert_eq!(m.begin_update(&info), Ok("0.2.0".to_string()));
    assert!(m.updating);
    assert_eq!(m.begin_update(&info), Err("更新正在进行中，请稍候".to_string()));
    m.finish_update();
    assert!(!m.updating);
    let none = UpdateInfo { current: "0.2.0".to_string(), latest: "0.2.0".to_string(), has_update: false, error: None };
    assert_eq!(m.begin_update(&none), Err("当前已是最新版本".to_string()));
    let bad = UpdateInfo { current: "0.2.0".to_string(), latest: String::new(), has_update: false, error: Some("离线".to_string()) };
    assert_eq!(m.begin_update(&bad), Err("检查更新失败：离线".to_string()));
    assert!(!m.updating);
}

#[test]
fn update_messages() {
    assert_eq!(npm_package_spec("1.2.3"), "@deepseek-ai/dsh@1.2.3");
    assert_eq!(npm_missing_message("/n/npm-cli.js"), "未找到便携 npm（/n/npm-cli.js）");
    let e = UpdateEvent::started("1.2.3");
    assert_eq!((e.kind, e.message.as_str()), ("started", "开始更新到 @deepseek-ai/dsh@1.2.3…"));
    let e = UpdateEvent::succeeded();
    assert_eq!((e.kind, e.message.as_str()), ("success", "更新完成，服务已重启"));
    let e = UpdateEvent::failed("x".to_string());
    assert_eq!((e.kind, e.message.as_str()), ("error", "x"));
}

#[test]
fn install_failure_names_last_nonblank_line() {
    assert_eq!(
        install_failure_message("npm ERR! code E404\nnpm ERR! 404 Not Found\n\n  \n"),
        "npm install 失败：npm ERR! 404 Not Found（请检查网络后重试）"
    );
    assert_eq!(install_failure_message(" \n\t\n"), "npm install 失败：未知错误（请检查网络后重试）");
    assert_eq!(npm_install_failure(b"oops  \r\n"), "npm install 失败：oops  （请检查网络后重试）");
}
