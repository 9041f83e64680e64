//! The launcher's record of the service: its state, the stage shown to the
//! user, and the decisions taken on it when the service is started, watched,
//! stopped, navigated to and updated.
use vstd::prelude::*;

verus! {

/// Default port of the service's web interface.
pub const DEFAULT_PORT: u16 = 3080;

/// How long the service may take to become ready, in nanoseconds (60 s).
pub const START_TIMEOUT_NS: u64 = 60_000_000_000;

/// How long after readiness the launcher navigates to the workbench itself
/// when the page has not done so, in nanoseconds (8 s).
pub const AUTO_NAV_TIMEOUT_NS: u64 = 8_000_000_000;

/// Pause between two health probes of the watcher, in milliseconds.
pub const POLL_INTERVAL_MS: u64 = 300;

/// State of the service as the user sees it.
#[derive(Clone, Copy, Debug, PartialEq, Eq, Structural)]
pub enum DshState {
    Starting,
    Ready,
    Failed,
}

/// What the launcher knows of the service. Times are nanoseconds on one
/// monotonic clock kept by the caller.
pub struct ManagerInner {
    /// Process id of the running service, while there is one.
    pub pid: Option<u32>,
    /// Port the service listens on.
    pub port: u16,
    pub state: DshState,
    /// Current stage shown to the user (deploying / starting / ready / failed / stopped).
    pub stage: String,
    pub error: Option<String>,
    /// Path of the service's log file.
    pub log_path: String,
    /// Address of the start page to go back to when the service fails.
    pub fallback_url: Option<String>,
    /// An update of the service's package is running.
    pub updating: bool,
    /// Navigation to the workbench has been taken over (by the page, or by the
    /// launcher after the timeout), so the launcher does not navigate again.
    pub nav_claimed: bool,
    /// When the service was first seen ready.
    pub ready_since: Option<u64>,
}

/// The model of `ManagerInner`: the same fields, strings as character sequences.
pub struct ManagerView {
    pub pid: Option<u32>,
    pub port: u16,
    pub state: DshState,
    pub stage: Seq<char>,
    pub error: Option<Seq<char>>,
    pub log_path: Seq<char>,
    pub fallback_url: Option<Seq<char>>,
    pub updating: bool,
    pub nav_claimed: bool,
    pub ready_since: Option<u64>,
}

/// An optional string as an optional character sequence.
pub open spec fn opt_view(s: Option<String>) -> Option<Seq<char>> {
    match s {
        Some(t) => Some(t@),
        None => None,
    }
}

impl View for ManagerInner {
    type V = ManagerView;

    open spec fn view(&self) -> ManagerView {
        ManagerView {
            pid: self.pid,
            port: self.port,
            state: self.state,
            stage: self.stage@,
            error: opt_view(self.error),
            log_path: self.log_path@,
            fallback_url: opt_view(self.fallback_url),
            updating: self.updating,
            nav_claimed: self.nav_claimed,
            ready_since: self.ready_since,
        }
    }
}

impl ManagerView {
    /// The same record with a new state, stage and error.
    pub open spec fn with_status(self, state: DshState, stage: Seq<char>, error: Option<Seq<char>>) -> ManagerView {
        ManagerView { state, stage, error, ..self }
    }
}

/// One observation of the watcher: whether the service's process has exited,
/// whether its port answered as the service, how long ago watching began and
/// the current time.
#[derive(Clone, Copy, Debug)]
pub struct MonitorEvent {
    pub child_exited: bool,
    pub healthy: bool,
    pub since_start_ns: u64,
    pub now_ns: u64,
}

/// What the watcher does after an observation: navigate to the workbench, and
/// whether it stops watching (after going back to the start page).
#[derive(Clone, Copy, Debug, PartialEq, Eq, Structural)]
pub struct MonitorAction {
    pub navigate_dsh: bool,
    pub finished: bool,
}

/// The state, stage and error after an observation.
pub open spec fn observed(v: ManagerView, ev: MonitorEvent) -> ManagerView {
    if ev.child_exited {
        v.with_status(DshState::Failed, "failed"@, Some("dsh 进程意外退出"@))
    } else if v.state == DshState::Starting {
        if ev.healthy {
            v.with_status(DshState::Ready, "ready"@, None)
        } else if ev.since_start_ns > START_TIMEOUT_NS {
            v.with_status(DshState::Failed, "failed"@, Some("启动超时（60 秒未就绪）"@))
        } else {
            v
        }
    } else if v.state == DshState::Ready && !ev.healthy {
        v.with_status(DshState::Failed, "failed"@, Some("dsh 服务连接丢失"@))
    } else {
        v
    }
}

/// One step of the watcher: the record after an observation and what to do.
/// Once the service is ready and navigation is not taken over, the launcher
/// notes when readiness began and navigates itself once 8 s have passed.
pub open spec fn monitor_next(v: ManagerView, ev: MonitorEvent) -> (ManagerView, MonitorAction) {
    let s = observed(v, ev);
    if s.state == DshState::Ready && !s.nav_claimed {
        let since = match s.ready_since {
            Some(t) => t,
            None => ev.now_ns,
        };
        let due = ev.now_ns - since >= AUTO_NAV_TIMEOUT_NS;
        (
            ManagerView { ready_since: Some(since), nav_claimed: due, ..s },
            MonitorAction { navigate_dsh: due, finished: false },
        )
    } else {
        (s, MonitorAction { navigate_dsh: false, finished: s.state == DshState::Failed })
    }
}

impl ManagerInner {
    /// The record before the service is started: port 3080, starting, nothing
    /// running, no error.
    pub fn new() -> (m: ManagerInner)
        ensures
            m@ == (ManagerView {
                pid: None,
                port: DEFAULT_PORT,
                state: DshState::Starting,
                stage: "starting"@,
                error: None,
                log_path: Seq::<char>::empty(),
                fallback_url: None,
                updating: false,
                nav_claimed: false,
                ready_since: None,
            }),
    {
        ManagerInner {
            pid: None,
            port: DEFAULT_PORT,
            state: DshState::Starting,
            stage: "starting".to_owned(),
            error: None,
            log_path: String::new(),
            fallback_url: None,
            updating: false,
            nav_claimed: false,
            ready_since: None,
        }
    }

    /// Takes the process id out of the record before the process is ended.
    pub fn take_pid(&mut self) -> (pid: Option<u32>)
        ensures
            pid == old(self).pid,
            final(self)@ == (ManagerView { pid: None, ..old(self)@ }),
    {
        let pid = self.pid;
        self.pid = None;
        pid
    }

    /// A service already answers on `port`: it is ready there.
    pub fn set_ready(&mut self, port: u16)
        ensures
            final(self)@ == (ManagerView { port, ..old(self)@ }).with_status(DshState::Ready, "ready"@, None),
    {
        self.port = port;
        self.state = DshState::Ready;
        self.stage = "ready".to_owned();
        self.error = None;
    }

    /// The service is about to be started on `port`.
    pub fn set_starting(&mut self, port: u16)
        ensures
            final(self)@ == (ManagerView { port, ..old(self)@ }).with_status(DshState::Starting, "starting"@, None),
    {
        self.port = port;
        self.state = DshState::Starting;
        self.stage = "starting".to_owned();
        self.error = None;
    }

    /// After probing the planned `port`: a service that already `answering`
    /// there is taken as ready and nothing is to be started; otherwise the
    /// service is about to be started there.
    pub fn settle_port(&mut self, port: u16, answering: bool) -> (spawn: bool)
        ensures
            spawn == !answering,
            answering ==> final(self)@ == (ManagerView { port, ..old(self)@ }).with_status(
                DshState::Ready,
                "ready"@,
                None,
            ),
            !answering ==> final(self)@ == (ManagerView { port, ..old(self)@ }).with_status(
                DshState::Starting,
                "starting"@,
                None,
            ),
    {
        if answering {
            self.set_ready(port);
            false
        } else {
            self.set_starting(port);
            true
        }
    }

    /// The service's process was started with id `pid` on `port`, logging to `log_path`.
    pub fn record_spawn(&mut self, pid: Option<u32>, port: u16, log_path: String)
        ensures
            final(self)@ == (ManagerView { pid, port, log_path: log_path@, ..old(self)@ }).with_status(
                DshState::Starting,
                "starting"@,
                None,
            ),
    {
        self.pid = pid;
        self.port = port;
        self.state = DshState::Starting;
        self.stage = "starting".to_owned();
        self.error = None;
        self.log_path = log_path;
    }

    /// The service's runtime is being copied into its data directory.
    pub fn set_deploying(&mut self)
        ensures
            final(self)@ == (ManagerView { stage: "deploying"@, ..old(self)@ }),
    {
        self.stage = "deploying".to_owned();
    }

    /// A restart was asked for: the service is starting again.
    pub fn begin_restart(&mut self)
        ensures
            final(self)@ == (ManagerView { state: DshState::Starting, stage: "starting"@, ..old(self)@ }),
    {
        self.state = DshState::Starting;
        self.stage = "starting".to_owned();
    }

    /// The service was stopped (its process ended beforehand).
    pub fn mark_stopped(&mut self)
        ensures
            final(self)@ == old(self)@.with_status(DshState::Failed, "stopped"@, Some("服务已停止"@)),
    {
        self.state = DshState::Failed;
        self.stage = "stopped".to_owned();
        self.error = Some("服务已停止".to_owned());
    }

    /// Starting the service failed with `error`.
    pub fn mark_failed(&mut self, error: String)
        ensures
            final(self)@ == old(self)@.with_status(DshState::Failed, "failed"@, Some(error@)),
    {
        self.state = DshState::Failed;
        self.stage = "failed".to_owned();
        self.error = Some(error);
    }

    /// The page takes over navigation to the workbench; the port to go to.
    pub fn claim_navigation(&mut self) -> (port: u16)
        ensures
            port == old(self).port,
            final(self)@ == (ManagerView { nav_claimed: true, ..old(self)@ }),
    {
        self.nav_claimed = true;
        self.port
    }

    /// Applies one observation of the watcher (see `monitor_next`).
    pub fn monitor_step(&mut self, ev: MonitorEvent) -> (action: MonitorAction)
        ensures
            (final(self)@, action) == monitor_next(old(self)@, ev),
    {
        if ev.child_exited {
            self.state = DshState::Failed;
            self.stage = "failed".to_owned();
            self.error = Some("dsh 进程意外退出".to_owned());
        } else if self.state == DshState::Starting {
            if ev.healthy {
                self.state = DshState::Ready;
                self.stage = "ready".to_owned();
                self.error = None;
            } else if ev.since_start_ns > START_TIMEOUT_NS {
                self.state = DshState::Failed;
                self.stage = "failed".to_owned();
                self.error = Some("启动超时（60 秒未就绪）".to_owned());
            }
        } else if self.state == DshState::Ready && !ev.healthy {
            self.state = DshState::Failed;
            self.stage = "failed".to_owned();
            self.error = Some("dsh 服务连接丢失".to_owned());
        }
        if self.state == DshState::Ready && !self.nav_claimed {
            let since = match self.ready_since {
                Some(t) => t,
                None => ev.now_ns,
            };
            self.ready_since = Some(since);
            let due = ev.now_ns >= since && ev.now_ns - since >= AUTO_NAV_TIMEOUT_NS;
            self.nav_claimed = due;
            MonitorAction { navigate_dsh: due, finished: false }
        } else {
            MonitorAction { navigate_dsh: false, finished: self.state == DshState::Failed }
        }
    }
}

// ---------------------------------------------------------------------------
// Laws of the watcher
// ---------------------------------------------------------------------------

/// The watcher stops exactly when the service has failed, and a failed
/// service stays failed and ends the watch whatever is observed.
pub proof fn lemma_monitor_finishes_on_failure(v: ManagerView, ev: MonitorEvent)
    ensures
        monitor_next(v, ev).1.finished <==> monitor_next(v, ev).0.state == DshState::Failed,
        v.state == DshState::Failed ==> monitor_next(v, ev).0.state == DshState::Failed
            && monitor_next(v, ev).1.finished,
{
}

/// The service is reported ready only after a healthy probe while its process
/// is alive.
pub proof fn lemma_ready_only_when_healthy(v: ManagerView, ev: MonitorEvent)
    ensures
        monitor_next(v, ev).0.state == DshState::Ready ==> ev.healthy && !ev.child_exited,
        v.state != DshState::Ready && monitor_next(v, ev).0.state == DshState::Ready
            ==> v.state == DshState::Starting,
{
}

/// Once navigation is taken over it stays taken over, and the launcher never
/// navigates on its own after that.
pub proof fn lemma_claimed_navigation_is_final(v: ManagerView, ev: MonitorEvent)
    requires
        v.nav_claimed,
    ensures
        monitor_next(v, ev).0.nav_claimed,
        !monitor_next(v, ev).1.navigate_dsh,
{
}

/// The launcher navigates to the workbench at most once: after a step that
/// navigates, no later step navigates.
pub proof fn lemma_auto_navigation_at_most_once(v: ManagerView, first: MonitorEvent, later: MonitorEvent)
    requires
        monitor_next(v, first).1.navigate_dsh,
    ensures
        !v.nav_claimed,
        !monitor_next(monitor_next(v, first).0, later).1.navigate_dsh,
{
}

/// The launcher navigates on its own only to a ready service that has been
/// ready for at least 8 s.
pub proof fn lemma_auto_navigation_waits(v: ManagerView, ev: MonitorEvent)
    requires
        monitor_next(v, ev).1.navigate_dsh,
    ensures
        monitor_next(v, ev).0.state == DshState::Ready,
        monitor_next(v, ev).0.ready_since matches Some(t) && ev.now_ns - t >= AUTO_NAV_TIMEOUT_NS,
{
}

/// Watching never changes which process, port, log or start page the
/// launcher knows, nor whether an update runs.
pub proof fn lemma_monitor_keeps_identity(v: ManagerView, ev: MonitorEvent)
    ensures
        monitor_next(v, ev).0.pid == v.pid,
        monitor_next(v, ev).0.port == v.port,
        monitor_next(v, ev).0.log_path == v.log_path,
        monitor_next(v, ev).0.fallback_url == v.fallback_url,
        monitor_next(v, ev).0.updating == v.updating,
{
}

/// After the service is stopped, the next observation ends the watch.
pub proof fn lemma_stop_ends_watch(v: ManagerView, ev: MonitorEvent)
    ensures
        monitor_next(v.with_status(DshState::Failed, "stopped"@, Some("服务已停止"@)), ev).1.finished,
{
}

/// The start timeout counts from when watching began, never from the
/// caller's clock: two observations that differ only in the current time give
/// the same state, stage and error. A starting service whose process lives
/// and that has not answered fails, timed out, exactly when more than 60 s
/// have passed since watching began, and otherwise stays as it was.
pub proof fn lemma_start_timeout_counts_from_watch_start(v: ManagerView, ev: MonitorEvent, other: MonitorEvent)
    requires
        other.child_exited == ev.child_exited,
        other.healthy == ev.healthy,
        other.since_start_ns == ev.since_start_ns,
    ensures
        monitor_next(v, ev).0.state == monitor_next(v, other).0.state,
        monitor_next(v, ev).0.stage == monitor_next(v, other).0.stage,
        monitor_next(v, ev).0.error == monitor_next(v, other).0.error,
        v.state == DshState::Starting && !ev.child_exited && !ev.healthy ==> {
            &&& (monitor_next(v, ev).0.state == DshState::Failed <==> ev.since_start_ns > START_TIMEOUT_NS)
            &&& ev.since_start_ns > START_TIMEOUT_NS ==> monitor_next(v, ev).0.error == Some(
                "启动超时（60 秒未就绪）"@,
            )
            &&& ev.since_start_ns <= START_TIMEOUT_NS ==> monitor_next(v, ev).0.state == DshState::Starting
                && monitor_next(v, ev).0.stage == v.stage && monitor_next(v, ev).0.error == v.error
                && !monitor_next(v, ev).1.finished && !monitor_next(v, ev).1.navigate_dsh
        },
{
}

} // verus!
