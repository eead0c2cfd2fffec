//! The status the launcher reports, the URLs it opens, and the decisions
//! that lead to starting dbx.
use vstd::prelude::*;

use crate::http::{discover_dbx, is_dbx_server, serving_code, DBX_PORT};
use crate::numbers::{decimal, push_decimal};

verus! {

/// The address dbx listens on locally.
pub open spec fn dbx_host() -> Seq<char> {
    "127.0.0.1"@
}

/// The URL of the web interface at `host:port`.
pub open spec fn url_for(host: Seq<char>, port: u16) -> Seq<char> {
    "http://"@ + host + ":"@ + decimal(port as nat)
}

/// The URL of the local dbx: on `port` when one was found, else on the
/// fixed port 4224.
pub fn dbx_url(port: Option<u16>) -> (url: String)
    ensures
        url@ == url_for(dbx_host(), port.unwrap_or(DBX_PORT)),
{
    let p = match port {
        Some(p) => p,
        None => DBX_PORT,
    };
    let mut url = "http://".to_owned();
    url.append("127.0.0.1");
    url.append(":");
    push_decimal(&mut url, p);
    url
}

/// The URL of the web interface at `host:port`.
pub fn url_of(host: &str, port: u16) -> (url: String)
    ensures
        url@ == url_for(host@, port),
{
    let mut url = "http://".to_owned();
    url.append(host);
    url.append(":");
    push_decimal(&mut url, port);
    url
}

/// What the launcher tells its front end.
pub struct DbxStatus {
    pub running: bool,
    pub installed: bool,
    pub url: String,
}

/// The status of the local dbx, from the probe of its port and whether it
/// is installed: running when the probe found it, and its URL.
pub fn check_dbx(reply: &Option<(u16, Vec<u8>)>, installed: bool) -> (status: DbxStatus)
    ensures
        status.running == (*reply matches Some((code, _)) && serving_code(code)),
        status.installed == installed,
        status.url@ == url_for(dbx_host(), DBX_PORT),
{
    let port = discover_dbx(reply);
    DbxStatus { running: port.is_some(), installed, url: dbx_url(port) }
}

/// The status of a dbx at a remote `host:port`, from the probe of it: the
/// URL is reported whether or not a server answered.
pub fn remote_status(host: &str, port: u16, reply: &Option<(u16, Vec<u8>)>) -> (status: DbxStatus)
    ensures
        status.running == (*reply matches Some((code, _)) && serving_code(code)),
        status.installed,
        status.url@ == url_for(host@, port),
{
    DbxStatus { running: is_dbx_server(reply), installed: true, url: url_of(host, port) }
}

/// The message shown when no dbx command is found.
pub open spec fn install_hint_text() -> Seq<char> {
    "本机未检测到 dbx 命令。请确认 dbx 已加入系统 PATH，安装完成后点击重试。"@
}

/// The message shown when no dbx command is found.
pub fn install_hint() -> (r: String)
    ensures
        r@ == install_hint_text(),
{
    "本机未检测到 dbx 命令。请确认 dbx 已加入系统 PATH，安装完成后点击重试。".to_owned()
}

/// What the launcher asks about, in turn, before it starts dbx.
#[derive(PartialEq, Eq, Structural, Clone, Copy)]
pub enum StartQuestion {
    /// Does a server answer on the dbx port?
    Serving,
    /// Is the dbx command installed?
    Installed,
    /// Is a dbx process running (perhaps still booting)?
    Running,
    /// Did this launcher already start one?
    Spawned,
}

/// What the launcher does next.
#[derive(PartialEq, Eq, Structural, Clone, Copy)]
pub enum StartStep {
    /// Find out the answer to this question.
    Ask(StartQuestion),
    /// Start nothing: dbx serves, is booting, or was started already.
    Wait,
    /// Report that dbx is not installed.
    NotInstalled,
    /// Start dbx.
    Spawn,
}

/// The question the launcher asks first.
pub fn first_start_question() -> (q: StartQuestion)
    ensures
        q == StartQuestion::Serving,
{
    StartQuestion::Serving
}

/// The step after `answer` was found to `question`.
pub open spec fn start_step(question: StartQuestion, answer: bool) -> StartStep {
    match question {
        StartQuestion::Serving => if answer {
            StartStep::Wait
        } else {
            StartStep::Ask(StartQuestion::Installed)
        },
        StartQuestion::Installed => if answer {
            StartStep::Ask(StartQuestion::Running)
        } else {
            StartStep::NotInstalled
        },
        StartQuestion::Running => if answer {
            StartStep::Wait
        } else {
            StartStep::Ask(StartQuestion::Spawned)
        },
        StartQuestion::Spawned => if answer {
            StartStep::Wait
        } else {
            StartStep::Spawn
        },
    }
}

/// Decides how starting dbx goes on once `answer` is known to `question`:
/// nothing is started while a server answers, a dbx process is booting, or
/// this launcher already started one; a missing dbx is reported.
pub fn ensure_started(question: StartQuestion, answer: bool) -> (step: StartStep)
    ensures
        step == start_step(question, answer),
{
    match question {
        StartQuestion::Serving => if answer {
            StartStep::Wait
        } else {
            StartStep::Ask(StartQuestion::Installed)
        },
        StartQuestion::Installed => if answer {
            StartStep::Ask(StartQuestion::Running)
        } else {
            StartStep::NotInstalled
        },
        StartQuestion::Running => if answer {
            StartStep::Wait
        } else {
            StartStep::Ask(StartQuestion::Spawned)
        },
        StartQuestion::Spawned => if answer {
            StartStep::Wait
        } else {
            StartStep::Spawn
        },
    }
}

/// Where the start decisions end, when the answers are `serving`,
/// `installed`, `running` and `spawned`.
pub open spec fn start_outcome(serving: bool, installed: bool, running: bool, spawned: bool) -> StartStep {
    let answer = |q: StartQuestion|
        match q {
            StartQuestion::Serving => serving,
            StartQuestion::Installed => installed,
            StartQuestion::Running => running,
            StartQuestion::Spawned => spawned,
        };
    let s1 = start_step(StartQuestion::Serving, answer(StartQuestion::Serving));
    let s2 = match s1 {
        StartStep::Ask(q) => start_step(q, answer(q)),
        other => other,
    };
    let s3 = match s2 {
        StartStep::Ask(q) => start_step(q, answer(q)),
        other => other,
    };
    match s3 {
        StartStep::Ask(q) => start_step(q, answer(q)),
        other => other,
    }
}

/// The pid the launcher keeps after starting dbx as `pid`: the first one it
/// started; a kept pid is never replaced.
pub open spec fn kept_after_spawn(kept: Option<u32>, pid: u32) -> Option<u32> {
    match kept {
        Some(p) => Some(p),
        None => Some(pid),
    }
}

/// Records that the launcher started dbx as `pid`.
pub fn record_spawn(kept: Option<u32>, pid: u32) -> (r: Option<u32>)
    ensures
        r == kept_after_spawn(kept, pid),
{
    match kept {
        Some(p) => Some(p),
        None => Some(pid),
    }
}

/// The process the launcher stops when it exits: the dbx it started, if
/// any; a dbx started by the user is left running.
pub fn on_exit(kept: Option<u32>) -> (stop: Option<u32>)
    ensures
        stop == kept,
{
    kept
}

} // verus!
