use dsh_desktop::service::{check_cleanup_target, deploy_log_line, start_log_line, dsh_command_args, dsh_url, kill_command, plan_port, PortPlan};

#[test]
fn port_plan_reuses_or_moves() {
    assert_eq!(plan_port(true, true), PortPlan::Default);
    assert_eq!(plan_port(false, false), PortPlan::Default);
    assert_eq!(plan_port(false, true), PortPlan::Free);
}

#[test]
fn service_command_line() {
    assert_eq!(dsh_url(3080), "http://127.0.0.1:3080");
    assert_eq!(
        dsh_command_args("/r/bin.js", 40123),
        vec!["/r/bin.js", "web", "--host", "127.0.0.1", "--port", "40123", "--no-open"]
    );
    assert_eq!(kill_command(1234, true), ("taskkill".to_string(), vec!["/PID".to_string(), "1234".to_string(), "/T".to_string(), "/F".to_string()]));
    assert_eq!(kill_command(1234, false), ("kill".to_string(), vec!["-TERM".to_string(), "-1234".to_string()]));
}

#[test]
fn cleanup_only_of_profile_modules() {
    assert_eq!(check_cleanup_target("/h/.dsh/profiles/web/node_modules", false), Ok(()));
    assert!(check_cleanup_target("/h/.dsh/web/node_modules", false).is_err());
    assert_eq!(
        check_cleanup_target("/etc", false),
        Err("拒绝清理非 profile 运行时路径: /etc".to_string())
    );
    // a data directory of `C:` puts the deployment at `C:profiles\web\node_modules`
    assert_eq!(check_cleanup_target(r"C:profiles\web\node_modules", true), Ok(()));
    assert_eq!(
        check_cleanup_target(r"C:\Windows", true),
        Err(r"拒绝清理非 profile 运行时路径: C:\Windows".to_string())
    );
}

#[test]
fn log_lines() {
    assert_eq!(start_log_line("/n/node"), "[dsh-desktop] 启动 dsh 服务 (node=/n/node)");
    assert_eq!(
        deploy_log_line("/h/p/web/node_modules"),
        "[dsh-desktop] 部署 dsh 运行时组件到 /h/p/web/node_modules（当前环境不支持目录链接，采用复制模式）"
    );
}
