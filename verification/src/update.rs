//! Updates of the service's package: reading the installed and the published
//! version, deciding whether an update is offered, letting one update run at a
//! time, and the messages shown while it runs.
use vstd::prelude::*;
use crate::health::{decode_lossy, result_view, utf8_lossy};
use crate::manager::{ManagerInner, ManagerView};
use crate::text::{chars_of, line_ranges, text_lines, trim, trim_range, string_of_range};
use crate::version::{lemma_version_gt_irreflexive, version_gt, ver_gt};

verus! {

/// Name of the service's npm package.
pub const PKG_NAME: &'static str = "@deepseek-ai/dsh";

/// What `serde_json` makes of the JSON text `raw` when asked for its top-level
/// string field `key`: an error text when `raw` is not JSON, no value when
/// the field is missing or not a string.
pub uninterp spec fn json_string_field(raw: Seq<char>, key: Seq<char>) -> Result<Option<Seq<char>>, Seq<char>>;

/// An optional string field, seen through the views of its strings.
pub open spec fn field_view(r: Result<Option<String>, String>) -> Result<Option<Seq<char>>, Seq<char>> {
    match r {
        Ok(Some(s)) => Ok(Some(s@)),
        Ok(None) => Ok(None),
        Err(e) => Err(e@),
    }
}

/// Parses `raw` with `serde_json::from_str` into a `serde_json::Value` and
/// reads its field `key` when that is a JSON string (`Value::get`, then the
/// `Value::String` case); a parse error gives the error's text.
#[verifier::external_body]
fn parse_string_field(raw: &str, key: &str) -> (r: Result<Option<String>, String>)
    ensures
        field_view(r) == json_string_field(raw@, key@),
{
    match serde_json::from_str::<serde_json::Value>(raw) {
        Ok(v) => match v.get(key) {
            Some(serde_json::Value::String(s)) => Ok(Some(s.clone())),
            _ => Ok(None),
        },
        Err(e) => Err(e.to_string()),
    }
}

/// The installed version named by a package manifest's `version` field.
pub open spec fn installed_version(field: Result<Option<Seq<char>>, Seq<char>>) -> Result<Seq<char>, Seq<char>> {
    match field {
        Err(e) => Err("解析 package.json 失败: "@ + e),
        Ok(Some(v)) => Ok(v),
        Ok(None) => Ok("unknown"@),
    }
}

/// The version of a package manifest from its `version` field: the field
/// when it is a string, `unknown` when it is not, an error when the manifest
/// is not JSON.
pub fn package_version_from_field(field: Result<Option<String>, String>) -> (r: Result<String, String>)
    ensures
        result_view(r) == installed_version(field_view(field)),
{
    match field {
        Err(e) => {
            let mut m = String::from_str("解析 package.json 失败: ");
            m.append(e.as_str());
            Err(m)
        },
        Ok(Some(v)) => Ok(v),
        Ok(None) => Ok(String::from_str("unknown")),
    }
}

/// The installed version of the service's package from the text of its
/// `package.json`.
pub fn package_version(raw: &str) -> (r: Result<String, String>)
    ensures
        result_view(r) == installed_version(json_string_field(raw@, "version"@)),
{
    let field = parse_string_field(raw, "version");
    package_version_from_field(field)
}

/// The published version named by the registry's reply.
pub open spec fn published_version(field: Result<Option<Seq<char>>, Seq<char>>) -> Result<Seq<char>, Seq<char>> {
    match field {
        Err(e) => Err("解析响应失败: "@ + e),
        Ok(Some(v)) => Ok(v),
        Ok(None) => Err("响应缺少 version 字段"@),
    }
}

/// The latest version from the registry's reply's `version` field.
pub fn latest_version_from_field(field: Result<Option<String>, String>) -> (r: Result<String, String>)
    ensures
        result_view(r) == published_version(field_view(field)),
{
    match field {
        Err(e) => {
            let mut m = String::from_str("解析响应失败: ");
            m.append(e.as_str());
            Err(m)
        },
        Ok(Some(v)) => Ok(v),
        Ok(None) => Err(String::from_str("响应缺少 version 字段")),
    }
}

/// The latest published version from the text of the registry's reply.
pub fn latest_version(reply: &str) -> (r: Result<String, String>)
    ensures
        result_view(r) == published_version(json_string_field(reply@, "version"@)),
{
    let field = parse_string_field(reply, "version");
    latest_version_from_field(field)
}

/// Result of a version check.
pub struct UpdateInfo {
    /// Installed version.
    pub current: String,
    /// Latest published version.
    pub latest: String,
    /// An update is offered.
    pub has_update: bool,
    /// Why the check failed (offline, network error and the like).
    pub error: Option<String>,
}

/// The model of `UpdateInfo`.
pub struct UpdateInfoView {
    pub current: Seq<char>,
    pub latest: Seq<char>,
    pub has_update: bool,
    pub error: Option<Seq<char>>,
}

impl View for UpdateInfo {
    type V = UpdateInfoView;

    open spec fn view(&self) -> UpdateInfoView {
        UpdateInfoView {
            current: self.current@,
            latest: self.latest@,
            has_update: self.has_update,
            error: crate::manager::opt_view(self.error),
        }
    }
}

/// The installed version as shown: the version, or why it is unknown.
pub open spec fn shown_current(current: Result<Seq<char>, Seq<char>>) -> Seq<char> {
    match current {
        Ok(c) => c,
        Err(e) => "未知（"@ + e + "）"@,
    }
}

/// The outcome of a version check from the installed version (or why it could
/// not be read) and the latest version (or why it could not be fetched): an
/// update is offered when the latest version is non-empty, differs from the
/// installed one and is newer than it.
pub open spec fn update_check(current: Result<Seq<char>, Seq<char>>, latest: Result<Seq<char>, Seq<char>>) -> UpdateInfoView {
    let cur = shown_current(current);
    match latest {
        Ok(l) => UpdateInfoView {
            current: cur,
            latest: l,
            has_update: l.len() != 0 && l != cur && version_gt(l, cur),
            error: None,
        },
        Err(e) => UpdateInfoView { current: cur, latest: Seq::<char>::empty(), has_update: false, error: Some(e) },
    }
}

/// Compares the installed version with the latest one (see `update_check`).
pub fn check_update(current: Result<String, String>, latest: Result<String, String>) -> (info: UpdateInfo)
    ensures
        info@ == update_check(result_view(current), result_view(latest)),
{
    let cur = match current {
        Ok(c) => c,
        Err(e) => {
            let mut m = String::from_str("未知（");
            m.append(e.as_str());
            m.append("）");
            m
        },
    };
    match latest {
        Ok(l) => {
            let has_update = !l.as_str().is_empty() && l != cur && ver_gt(l.as_str(), cur.as_str());
            UpdateInfo { current: cur, latest: l, has_update, error: None }
        },
        Err(e) => UpdateInfo { current: cur, latest: String::new(), has_update: false, error: Some(e) },
    }
}

/// The outcome of asking for an update with the check `info`: refused when the
/// check failed, when no update is offered, or while another update runs;
/// otherwise the version to install, with the update marked as running.
pub open spec fn update_start(v: ManagerView, info: UpdateInfoView) -> (ManagerView, Result<Seq<char>, Seq<char>>) {
    match info.error {
        Some(e) => (v, Err("检查更新失败："@ + e)),
        None => if !info.has_update {
            (v, Err("当前已是最新版本"@))
        } else if v.updating {
            (v, Err("更新正在进行中，请稍候"@))
        } else {
            (ManagerView { updating: true, ..v }, Ok(info.latest))
        },
    }
}

impl ManagerInner {
    /// Starts an update after the check `info` (see `update_start`); the
    /// version to install.
    pub fn begin_update(&mut self, info: &UpdateInfo) -> (r: Result<String, String>)
        ensures
            (final(self)@, result_view(r)) == update_start(old(self)@, info@),
    {
        if let Some(e) = &info.error {
            let mut m = String::from_str("检查更新失败：");
            m.append(e.as_str());
            return Err(m);
        }
        if !info.has_update {
            return Err(String::from_str("当前已是最新版本"));
        }
        if self.updating {
            return Err(String::from_str("更新正在进行中，请稍候"));
        }
        self.updating = true;
        Ok(info.latest.clone())
    }

    /// The update has ended, whether it succeeded or not.
    pub fn finish_update(&mut self)
        ensures
            final(self)@ == (ManagerView { updating: false, ..old(self)@ }),
    {
        self.updating = false;
    }
}

/// Only one update runs at a time: once one has started, asking again is
/// refused until it ends, and a refused request changes nothing.
pub proof fn lemma_one_update_at_a_time(v: ManagerView, first: UpdateInfoView, second: UpdateInfoView)
    ensures
        update_start(v, first).1 is Err ==> update_start(v, first).0 == v,
        update_start(v, first).1 is Ok ==> !v.updating && update_start(v, first).0.updating
            && update_start(update_start(v, first).0, second).1 is Err,
{
}

/// An update is offered only to a newer version, never to the installed one.
pub proof fn lemma_update_only_to_newer(current: Result<Seq<char>, Seq<char>>, latest: Result<Seq<char>, Seq<char>>)
    ensures
        update_check(current, latest).has_update ==> version_gt(
            update_check(current, latest).latest,
            update_check(current, latest).current,
        ) && !version_gt(update_check(current, latest).current, update_check(current, latest).latest),
        update_check(current, Ok(shown_current(current))).has_update == false,
{
    let info = update_check(current, latest);
    crate::version::lemma_version_gt_asymmetric(info.latest, info.current);
}

/// Progress of an update, as sent to the page.
pub struct UpdateEvent {
    /// `started`, `success` or `error`.
    pub kind: &'static str,
    pub message: String,
}

/// Error when the running service could not be stopped before an update.
pub const SERVICE_STILL_RUNNING: &'static str = "现有 dsh 服务无法停止，更新已中止";

/// Error when the directory that holds the package cannot be found.
pub const PACKAGE_DIR_MISSING: &'static str = "无法定位 dsh 包目录";

/// Error when the bundled npm is missing at `path`.
pub fn npm_missing_message(path: &str) -> (m: String)
    ensures
        m@ == "未找到便携 npm（"@ + path@ + "）"@,
{
    let mut m = String::from_str("未找到便携 npm（");
    m.append(path);
    m.append("）");
    m
}

/// The npm package argument that installs version `latest`.
pub fn npm_package_spec(latest: &str) -> (s: String)
    ensures
        s@ == PKG_NAME@ + "@"@ + latest@,
{
    let mut s = String::from_str(PKG_NAME);
    s.append("@");
    s.append(latest);
    s
}

impl UpdateEvent {
    /// The update to version `latest` has started.
    pub fn started(latest: &str) -> (ev: UpdateEvent)
        ensures
            ev.kind@ == "started"@,
            ev.message@ == "开始更新到 "@ + PKG_NAME@ + "@"@ + latest@ + "…"@,
    {
        let mut m = String::from_str("开始更新到 ");
        m.append(PKG_NAME);
        m.append("@");
        m.append(latest);
        m.append("…");
        UpdateEvent { kind: "started", message: m }
    }

    /// The update succeeded and the service was restarted.
    pub fn succeeded() -> (ev: UpdateEvent)
        ensures
            ev.kind@ == "success"@,
            ev.message@ == "更新完成，服务已重启"@,
    {
        UpdateEvent { kind: "success", message: String::from_str("更新完成，服务已重启") }
    }

    /// The update failed with `message`.
    pub fn failed(message: String) -> (ev: UpdateEvent)
        ensures
            ev.kind@ == "error"@,
            ev.message@ == message@,
    {
        UpdateEvent { kind: "error", message }
    }
}

/// The last line of `lines` that is not blank, if any.
pub open spec fn last_nonblank(lines: Seq<Seq<char>>) -> Option<Seq<char>>
    decreases lines.len(),
{
    if lines.len() == 0 {
        None
    } else if trim(lines.last()).len() != 0 {
        Some(lines.last())
    } else {
        last_nonblank(lines.drop_last())
    }
}

/// The message for a failed package install, from what the installer wrote
/// to its error output: its last non-blank line, or "unknown error".
pub open spec fn install_failure_text(stderr: Seq<char>) -> Seq<char> {
    let tail = match last_nonblank(text_lines(stderr)) {
        Some(l) => l,
        None => "未知错误"@,
    };
    "npm install 失败："@ + tail + "（请检查网络后重试）"@
}

/// The message for a failed package install from the installer's error text.
pub fn install_failure_message(stderr: &str) -> (m: String)
    ensures
        m@ == install_failure_text(stderr@),
{
    let cs = chars_of(stderr);
    let lines = line_ranges(&cs);
    let ghost ls = text_lines(cs@);
    let mut k = lines.len();
    assert(ls.take(k as int) =~= ls);
    while k > 0
        invariant
            k <= lines.len() == ls.len(),
            ls == text_lines(cs@),
            cs@ == stderr@,
            forall|j: int|
                0 <= j < lines.len() ==> (#[trigger] lines@[j]).0 <= lines@[j].1 <= cs.len()
                    && cs@.subrange(lines@[j].0 as int, lines@[j].1 as int) == ls[j],
            last_nonblank(ls) == last_nonblank(ls.take(k as int)),
        decreases k,
    {
        let (a, b) = lines[k - 1];
        let line = string_of_range(&cs, a, b);
        let lc = chars_of(line.as_str());
        let (ta, tb) = trim_range(&lc);
        assert(ls.take(k as int).last() == ls[k - 1]);
        assert(lc@ == ls[k - 1]);
        assert(trim(lc@).len() == tb - ta);
        if ta < tb {
            assert(last_nonblank(ls.take(k as int)) == Some(ls[k - 1]));
            let mut m = String::from_str("npm install 失败：");
            m.append(line.as_str());
            m.append("（请检查网络后重试）");
            assert(line@ == ls[k - 1]);
            assert(last_nonblank(text_lines(stderr@)) == Some(line@));
            return m;
        }
        assert(ls.take(k as int).drop_last() =~= ls.take(k - 1));
        k = k - 1;
    }
    let mut m = String::from_str("npm install 失败：");
    m.append("未知错误");
    m.append("（请检查网络后重试）");
    m
}

/// The message for a failed package install from the installer's raw error
/// output (decoded, invalid UTF-8 replaced).
pub fn npm_install_failure(stderr: &[u8]) -> (m: String)
    ensures
        m@ == install_failure_text(utf8_lossy(stderr@)),
{
    let text = decode_lossy(stderr);
    install_failure_message(text.as_str())
}

/// With both versions known, an update is offered exactly when the published
/// version is non-empty, differs from the installed one and is newer by the
/// version order; how long either version string is plays no part. So every
/// non-empty published version newer than the installed one is offered.
pub proof fn lemma_update_offered_iff_newer(installed: Seq<char>, published: Seq<char>)
    ensures
        update_check(Ok(installed), Ok(published)).has_update == (published.len() != 0 && published
            != installed && version_gt(published, installed)),
        published.len() != 0 && version_gt(published, installed) ==> update_check(
            Ok(installed),
            Ok(published),
        ).has_update,
        update_check(Ok(installed), Ok(published)).current == installed,
        update_check(Ok(installed), Ok(published)).latest == published,
        update_check(Ok(installed), Ok(published)).error is None,
{
    lemma_version_gt_irreflexive(installed);
}

} // verus!
