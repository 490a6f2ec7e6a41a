//! The reverse SSH tunnel: when it may start, the `ssh` command line it runs
//! and the states it reports.
use vstd::prelude::*;
use crate::models::{Settings, TunnelStatus};
use crate::text::{
    append_str, decimal, is_blank, join, join_strings, lemma_views_push, owned, push_decimal,
    same_text, trim, trimmed, views,
};

verus! {

pub open spec fn missing_params_message() -> Seq<char> {
    "隧道参数不完整（主机地址或远端端口为空）"@
}

pub open spec fn password_auth_message() -> Seq<char> {
    "密码认证需要交互式 ssh，建议改用私钥认证"@
}

/// The remote forward `bind:port:127.0.0.1:port`; a blank bind address means 127.0.0.1.
pub open spec fn forward_spec(bind: Seq<char>, port: u16) -> Seq<char> {
    (if trim(bind).len() == 0 {
        "127.0.0.1"@
    } else {
        bind
    }) + ":"@ + decimal(port as nat) + ":127.0.0.1:"@ + decimal(port as nat)
}

/// The arguments of `ssh` for the tunnel that the settings describe: no
/// remote command, the remote forward, the SSH port unless it is 22, the key
/// file when one is given, then `user@host`.
pub open spec fn ssh_args_spec(s: Settings) -> Seq<Seq<char>> {
    seq!["-N"@, "-R"@, forward_spec(s.tunnel_remote_bind@, s.tunnel_remote_port)] + (if s.tunnel_ssh_port
        != 22 {
        seq!["-p"@, decimal(s.tunnel_ssh_port as nat)]
    } else {
        Seq::empty()
    }) + (if trim(s.tunnel_private_key@).len() > 0 {
        seq!["-i"@, trim(s.tunnel_private_key@)]
    } else {
        Seq::empty()
    }) + seq![trim(s.tunnel_user@) + "@"@ + trim(s.tunnel_host@)]
}

/// The settings lack what a tunnel needs: a host and a remote port.
pub open spec fn lacks_params(s: Settings) -> bool {
    trim(s.tunnel_host@).len() == 0 || s.tunnel_remote_port == 0
}

fn push_arg(args: &mut Vec<String>, a: String)
    ensures
        views(final(args)@) == views(old(args)@).push(a@),
{
    proof {
        lemma_views_push(args@, a);
    }
    args.push(a);
}

/// The `ssh` arguments for the tunnel, or why it cannot start: the host or
/// the remote port is missing, or password authentication is chosen (ssh
/// would ask for the password interactively).
pub fn ssh_args(s: &Settings) -> (res: Result<Vec<String>, String>)
    ensures
        res is Ok <==> !lacks_params(*s) && s.tunnel_auth_method@ != "password"@,
        res matches Ok(a) ==> views(a@) == ssh_args_spec(*s),
        res matches Err(e) ==> e@ == (if lacks_params(*s) {
            missing_params_message()
        } else {
            password_auth_message()
        }),
{
    if is_blank(s.tunnel_host.as_str()) || s.tunnel_remote_port == 0 {
        return Err(owned("隧道参数不完整（主机地址或远端端口为空）"));
    }
    if same_text(s.tunnel_auth_method.as_str(), "password") {
        return Err(owned("密码认证需要交互式 ssh，建议改用私钥认证"));
    }
    let mut args: Vec<String> = Vec::new();
    push_arg(&mut args, owned("-N"));
    push_arg(&mut args, owned("-R"));
    let mut fwd = if is_blank(s.tunnel_remote_bind.as_str()) {
        owned("127.0.0.1")
    } else {
        s.tunnel_remote_bind.clone()
    };
    append_str(&mut fwd, ":");
    push_decimal(&mut fwd, s.tunnel_remote_port as u64);
    append_str(&mut fwd, ":127.0.0.1:");
    push_decimal(&mut fwd, s.tunnel_remote_port as u64);
    assert(fwd@ =~= forward_spec(s.tunnel_remote_bind@, s.tunnel_remote_port));
    push_arg(&mut args, fwd);
    let ghost first = views(args@);
    assert(first =~= seq!["-N"@, "-R"@, forward_spec(s.tunnel_remote_bind@, s.tunnel_remote_port)]);
    if s.tunnel_ssh_port != 22 {
        push_arg(&mut args, owned("-p"));
        let mut p = String::new();
        push_decimal(&mut p, s.tunnel_ssh_port as u64);
        push_arg(&mut args, p);
    }
    let ghost second = views(args@);
    assert(second =~= first + (if s.tunnel_ssh_port != 22 {
        seq!["-p"@, decimal(s.tunnel_ssh_port as nat)]
    } else {
        Seq::<Seq<char>>::empty()
    }));
    if !is_blank(s.tunnel_private_key.as_str()) {
        push_arg(&mut args, owned("-i"));
        push_arg(&mut args, trimmed(s.tunnel_private_key.as_str()));
    }
    let ghost third = views(args@);
    assert(third =~= second + (if trim(s.tunnel_private_key@).len() > 0 {
        seq!["-i"@, trim(s.tunnel_private_key@)]
    } else {
        Seq::<Seq<char>>::empty()
    }));
    let mut user_host = trimmed(s.tunnel_user.as_str());
    append_str(&mut user_host, "@");
    let h = trimmed(s.tunnel_host.as_str());
    append_str(&mut user_host, h.as_str());
    push_arg(&mut args, user_host);
    assert(views(args@) =~= ssh_args_spec(*s));
    Ok(args)
}

/// The command line shown for a running tunnel: `ssh` and its arguments.
pub fn ssh_command_line(args: &Vec<String>) -> (res: String)
    ensures
        res@ == "ssh "@ + join(views(args@), " "@),
{
    let mut res = owned("ssh ");
    let rest = join_strings(args, " ");
    append_str(&mut res, rest.as_str());
    res
}

/// The state when no tunnel runs.
pub fn stopped_status() -> (res: TunnelStatus)
    ensures
        !res.running,
        res.pid is None,
        res.command@.len() == 0,
        res.started_at is None,
        res.last_error is None,
{
    TunnelStatus {
        running: false,
        pid: None,
        command: String::new(),
        started_at: None,
        last_error: None,
    }
}

/// The state of a tunnel that has just started.
pub fn running_status(pid: u32, command: String, started_at: String) -> (res: TunnelStatus)
    ensures
        res.running,
        res.pid == Some(pid),
        res.command@ == command@,
        res.started_at matches Some(t) && t@ == started_at@,
        res.last_error is None,
{
    TunnelStatus {
        running: true,
        pid: Some(pid),
        command,
        started_at: Some(started_at),
        last_error: None,
    }
}

/// The state after the `ssh` process has exited by itself.
pub fn exited_status() -> (res: TunnelStatus)
    ensures
        !res.running,
        res.pid is None,
        res.command@.len() == 0,
        res.started_at is None,
        res.last_error matches Some(e) && e@ == "ssh 进程已退出"@,
{
    TunnelStatus {
        running: false,
        pid: None,
        command: String::new(),
        started_at: None,
        last_error: Some(owned("ssh 进程已退出")),
    }
}

} // verus!
