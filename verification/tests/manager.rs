use dsh_desktop::manager::{
    DshState, ManagerInner, MonitorAction, MonitorEvent, AUTO_NAV_TIMEOUT_NS, DEFAULT_PORT,
    START_TIMEOUT_NS,
};

fn ev(child_exited: bool, healthy: bool, since_start_ns: u64, now_ns: u64) -> MonitorEvent {
    MonitorEvent { child_exited, healthy, since_start_ns, now_ns }
}

#[test]
fn new_manager_is_starting_on_default_port() {
    let m = ManagerInner::new();
    assert_eq!(m.port, DEFAULT_PORT);
    assert_eq!(m.port, 3080);
    assert_eq!(m.state, DshState::Starting);
    assert_eq!(m.stage, "starting");
    assert_eq!(m.pid, None);
    assert_eq!(m.error, None);
    assert!(!m.updating && !m.nav_claimed);
}

#[test]
fn watcher_turns_ready_then_navigates_after_timeout() {
    let mut m = ManagerInner::new();
    m.record_spawn(Some(42), 3080, "/tmp/dsh.log".to_string());
    assert_eq!(m.monitor_step(ev(false, false, 0, 0)), MonitorAction { navigate_dsh: false, finished: false });
    assert_eq!(m.state, DshState::Starting);
    let a = m.monitor_step(ev(false, true, 300, 1_000));
    assert_eq!(a, MonitorAction { navigate_dsh: false, finished: false });
    assert_eq!(m.state, DshState::Ready);
    assert_eq!(m.stage, "ready");
    assert_eq!(m.ready_since, Some(1_000));
    let a = m.monitor_step(ev(false, true, 600, 1_000 + AUTO_NAV_TIMEOUT_NS - 1));
    assert!(!a.navigate_dsh);
    let a = m.monitor_step(ev(false, true, 900, 1_000 + AUTO_NAV_TIMEOUT_NS));
    assert!(a.navigate_dsh);
    assert!(m.nav_claimed);
    // never again
    let a = m.monitor_step(ev(false, true, 1_200, 1_000 + 2 * AUTO_NAV_TIMEOUT_NS));
    assert!(!a.navigate_dsh && !a.finished);
    assert_eq!(m.pid, Some(42));
}

#[test]
fn watcher_fails_on_exit_timeout_or_lost_connection() {
    let mut m = ManagerInner::new();
    let a = m.monitor_step(ev(true, true, 0, 0));
    assert!(a.finished);
    assert_eq!(m.state, DshState::Failed);
    assert_eq!(m.error.as_deref(), Some("dsh 进程意外退出"));

    let mut m = ManagerInner::new();
    assert!(!m.monitor_step(ev(false, false, START_TIMEOUT_NS, 0)).finished);
    assert!(m.monitor_step(ev(false, false, START_TIMEOUT_NS + 1, 0)).finished);
    assert_eq!(m.stage, "failed");
    assert_eq!(m.error.as_deref(), Some("启动超时（60 秒未就绪）"));

    let mut m = ManagerInner::new();
    m.set_ready(4000);
    assert_eq!(m.port, 4000);
    assert!(m.monitor_step(ev(false, false, 0, 0)).finished);
    assert_eq!(m.error.as_deref(), Some("dsh 服务连接丢失"));
}

#[test]
fn claimed_navigation_is_not_repeated() {
    let mut m = ManagerInner::new();
    m.set_ready(3080);
    assert_eq!(m.claim_navigation(), 3080);
    let a = m.monitor_step(ev(false, true, 0, 100 * AUTO_NAV_TIMEOUT_NS));
    assert!(!a.navigate_dsh);
    assert_eq!(m.ready_since, None);
}

#[test]
fn stop_and_restart_update_the_record() {
    let mut m = ManagerInner::new();
    m.record_spawn(Some(7), 3080, "dsh.log".to_string());
    assert_eq!(m.take_pid(), Some(7));
    assert_eq!(m.pid, None);
    m.mark_stopped();
    assert_eq!(m.state, DshState::Failed);
    assert_eq!(m.stage, "stopped");
    assert_eq!(m.error.as_deref(), Some("服务已停止"));
    assert!(m.monitor_step(ev(false, true, 0, 0)).finished);
    m.begin_restart();
    assert_eq!(m.state, DshState::Starting);
    assert_eq!(m.stage, "starting");
    m.set_deploying();
    assert_eq!(m.stage, "deploying");
    m.mark_failed("boom".to_string());
    assert_eq!(m.stage, "failed");
    assert_eq!(m.error.as_deref(), Some("boom"));
    m.set_starting(5000);
    assert_eq!((m.port, m.state, m.error.clone()), (5000, DshState::Starting, None));
}

#[test]
fn settled_port_decides_whether_to_spawn() {
    let mut m = ManagerInner::new();
    assert!(!m.settle_port(3080, true));
    assert_eq!((m.port, m.state, m.stage.as_str()), (3080, DshState::Ready, "ready"));
    assert!(m.settle_port(41000, false));
    assert_eq!((m.port, m.state, m.stage.as_str()), (41000, DshState::Starting, "starting"));
}
