//! How the service is started, addressed and ended: the port it gets, its
//! address, its command line, and the command that ends its process tree.
use vstd::prelude::*;
use crate::paths::profile_modules_shape;
use crate::text::{decimal, has_prefix, push_decimal};
use crate::version::{lemma_parse_decimal, parse_u64};

verus! {

/// Which port the service is started on.
#[derive(Clone, Copy, Debug, PartialEq, Eq, Structural)]
pub enum PortPlan {
    /// The default port: a service already answers there, or it is free.
    Default,
    /// A free port chosen by the system: the default one is taken by
    /// something else.
    Free,
}

/// The port plan: keep the default port when the service already answers on
/// it or when it is free, otherwise take a free one.
pub fn plan_port(default_healthy: bool, default_in_use: bool) -> (p: PortPlan)
    ensures
        p == (if !default_healthy && default_in_use { PortPlan::Free } else { PortPlan::Default }),
{
    if default_healthy {
        PortPlan::Default
    } else if default_in_use {
        PortPlan::Free
    } else {
        PortPlan::Default
    }
}

/// Address of the service's web interface on `port`.
pub open spec fn dsh_address(port: u16) -> Seq<char> {
    "http://127.0.0.1:"@ + decimal(port as nat)
}

/// The address of the workbench served on `port`.
pub fn dsh_url(port: u16) -> (url: String)
    ensures
        url@ == dsh_address(port),
{
    let mut url = String::from_str("http://127.0.0.1:");
    push_decimal(&mut url, port as u64);
    url
}

/// The arguments given to node to run the service's web interface on `port`
/// from the entry point `cli_entry`, bound to the loopback address and not
/// opening a browser.
pub fn dsh_command_args(cli_entry: &str, port: u16) -> (args: Vec<String>)
    ensures
        args.len() == 7,
        args[0]@ == cli_entry@,
        args[1]@ == "web"@,
        args[2]@ == "--host"@,
        args[3]@ == "127.0.0.1"@,
        args[4]@ == "--port"@,
        args[5]@ == decimal(port as nat),
        args[6]@ == "--no-open"@,
{
    let mut port_text = String::new();
    push_decimal(&mut port_text, port as u64);
    let mut args: Vec<String> = Vec::new();
    args.push(String::from_str(cli_entry));
    args.push(String::from_str("web"));
    args.push(String::from_str("--host"));
    args.push(String::from_str("127.0.0.1"));
    args.push(String::from_str("--port"));
    args.push(port_text);
    args.push(String::from_str("--no-open"));
    args
}

/// The program and arguments that end the process tree of `pid`: `taskkill`
/// of the tree on Windows, a `TERM` signal to the process group elsewhere
/// (the service runs in a group of its own).
pub fn kill_command(pid: u32, windows: bool) -> (cmd: (String, Vec<String>))
    ensures
        windows ==> cmd.0@ == "taskkill"@ && cmd.1.len() == 4 && cmd.1[0]@ == "/PID"@
            && cmd.1[1]@ == decimal(pid as nat) && cmd.1[2]@ == "/T"@ && cmd.1[3]@ == "/F"@,
        !windows ==> cmd.0@ == "kill"@ && cmd.1.len() == 2 && cmd.1[0]@ == "-TERM"@
            && cmd.1[1]@ == "-"@ + decimal(pid as nat),
{
    let mut args: Vec<String> = Vec::new();
    if windows {
        let mut id = String::new();
        push_decimal(&mut id, pid as u64);
        args.push(String::from_str("/PID"));
        args.push(id);
        args.push(String::from_str("/T"));
        args.push(String::from_str("/F"));
        (String::from_str("taskkill"), args)
    } else {
        let mut group = String::from_str("-");
        push_decimal(&mut group, pid as u64);
        args.push(String::from_str("-TERM"));
        args.push(group);
        (String::from_str("kill"), args)
    }
}

/// Error when the installation directory cannot be derived from the entry point.
pub const INSTALL_DIR_MISSING: &'static str = "无法解析 dsh 安装目录";

/// The log line written when the service is started with the node at `node`.
pub fn start_log_line(node: &str) -> (line: String)
    ensures
        line@ == "[dsh-desktop] 启动 dsh 服务 (node="@ + node@ + ")"@,
{
    let mut line = String::from_str("[dsh-desktop] 启动 dsh 服务 (node=");
    line.append(node);
    line.append(")");
    line
}

/// The log line written when the runtime is copied to `target` because
/// directory links cannot be followed.
pub fn deploy_log_line(target: &str) -> (line: String)
    ensures
        line@ == "[dsh-desktop] 部署 dsh 运行时组件到 "@ + target@ + "（当前环境不支持目录链接，采用复制模式）"@,
{
    let mut line = String::from_str("[dsh-desktop] 部署 dsh 运行时组件到 ");
    line.append(target);
    line.append("（当前环境不支持目录链接，采用复制模式）");
    line
}

/// Accepts `target` for deletion only when it has the shape of a profile's
/// `profiles/web/node_modules` directory (read as a Windows path when
/// `windows` holds), so that a stray data directory setting never deletes
/// anything else.
pub fn check_cleanup_target(target: &str, windows: bool) -> (r: Result<(), String>)
    ensures
        profile_modules_shape(target@, windows) ==> r is Ok,
        !profile_modules_shape(target@, windows) ==> (r matches Err(m) && m@ == "拒绝清理非 profile 运行时路径: "@ + target@),
{
    if crate::paths::is_profile_modules_path(target, windows) {
        Ok(())
    } else {
        let mut m = String::from_str("拒绝清理非 profile 运行时路径: ");
        m.append(target);
        Err(m)
    }
}

/// The address names the port it is given: after `http://127.0.0.1:` comes
/// text that `str::parse::<u64>` reads as exactly that port, so two different
/// ports always give two different addresses.
pub proof fn lemma_address_names_its_port(port: u16, other: u16)
    ensures
        has_prefix(dsh_address(port), "http://127.0.0.1:"@),
        parse_u64(dsh_address(port).skip(17)) == Some(port as u64),
        port != other ==> dsh_address(port) != dsh_address(other),
{
    reveal_strlit("http://127.0.0.1:");
    let pre = "http://127.0.0.1:"@;
    assert(pre.len() == 17);
    assert(dsh_address(port).skip(17) =~= decimal(port as nat));
    assert(dsh_address(other).skip(17) =~= decimal(other as nat));
    assert(dsh_address(port).take(17) =~= pre);
    lemma_parse_decimal(port as u64);
    lemma_parse_decimal(other as u64);
}

} // verus!
