//! The MCP server's decisions: who is answered, and with what.
//!
//! A request line is read as JSON by the caller; what the server looks at is
//! held in `McpRequest`. The reply is decided here and written as JSON-RPC by
//! the caller.
use vstd::prelude::*;
use crate::models::McpServerStatus;
use crate::text::{
    append_str, join, join_strings, lemma_views_push, opt_view, owned, same_text, trim, trimmed, views,
};

verus! {

/// What the server reads of a JSON-RPC request line.
#[derive(Debug, Clone)]
pub struct McpRequest {
    /// The request's `id` as JSON text, when it has one.
    pub id: Option<String>,
    /// `method`, when it is a string.
    pub method: Option<String>,
    /// `params.token`, when it is a string.
    pub token: Option<String>,
    /// `params.name`, when it is a string.
    pub tool: Option<String>,
    /// `params.arguments.text`, when it is a string.
    pub text: Option<String>,
}

/// The result of a request that succeeds.
#[derive(Debug, Clone)]
pub enum McpBody {
    /// The server's protocol version, capabilities and name.
    Initialize,
    /// The tools and their descriptions.
    ToolsList,
    /// A tool's text result.
    Text(String),
    /// The `now` tool: the current time, which the caller reads.
    Now,
    /// The `list_serial_ports` tool: the ports, which the caller lists.
    PortList,
    /// An empty object (`ping`).
    Empty,
}

/// The reply to one request line.
#[derive(Debug, Clone)]
pub enum McpReply {
    Success { id: Option<String>, body: McpBody },
    Failure { id: Option<String>, code: i64, message: String },
}

/// What the server reads of a request, as text: its `id` (JSON text),
/// `method`, `params.token`, `params.name` and `params.arguments.text`, each
/// absent when the request does not hold it as a string (the id: at all).
pub open spec fn request_view(r: McpRequest) -> (
    Option<Seq<char>>,
    Option<Seq<char>>,
    Option<Seq<char>>,
    Option<Seq<char>>,
    Option<Seq<char>>,
) {
    (opt_view(r.id), opt_view(r.method), opt_view(r.token), opt_view(r.tool), opt_view(r.text))
}

/// The fields of a request line that was read, or `None` for a line that is not JSON.
pub open spec fn request_fields(req: Option<McpRequest>) -> Option<
    (Option<Seq<char>>, Option<Seq<char>>, Option<Seq<char>>, Option<Seq<char>>, Option<Seq<char>>),
> {
    match req {
        Some(r) => Some(request_view(r)),
        None => None,
    }
}

/// What `serde_json::from_str::<serde_json::Value>` makes of a request line,
/// read as `request_fields`: `None` when the line is not JSON.
pub uninterp spec fn json_request(line: Seq<char>) -> Option<
    (Option<Seq<char>>, Option<Seq<char>>, Option<Seq<char>>, Option<Seq<char>>, Option<Seq<char>>),
>;

/// Reads a request line with `serde_json::from_str::<serde_json::Value>`,
/// then its `id` (as JSON text), `method`, `params.token`, `params.name` and
/// `params.arguments.text` (each kept only when it is a string). The result
/// is stated to be `json_request` of the line; nothing is stated of which
/// lines are JSON.
#[verifier::external_body]
pub(crate) fn parse_request(line: &str) -> (res: Option<McpRequest>)
    ensures
        request_fields(res) == json_request(line@),
{
    let v: serde_json::Value = serde_json::from_str(line).ok()?;
    let params = v.get("params");
    let text_of = |x: Option<&serde_json::Value>| x.and_then(|t| t.as_str()).map(|t| t.to_string());
    Some(McpRequest {
        id: v.get("id").map(|i| i.to_string()),
        method: text_of(v.get("method")),
        token: text_of(params.and_then(|p| p.get("token"))),
        tool: text_of(params.and_then(|p| p.get("name"))),
        text: text_of(params.and_then(|p| p.get("arguments")).and_then(|a| a.get("text"))),
    })
}

/// The text of an optional text, empty when absent.
pub open spec fn or_empty(s: Option<Seq<char>>) -> Seq<char> {
    match s {
        Some(t) => t,
        None => Seq::empty(),
    }
}

/// The id of an optional string, as its view.
pub open spec fn id_view(s: Option<String>) -> Option<Seq<char>> {
    opt_view(s)
}

/// The request may be served: no token is set, or it carries the token.
pub open spec fn authorized(
    req: (Option<Seq<char>>, Option<Seq<char>>, Option<Seq<char>>, Option<Seq<char>>, Option<Seq<char>>),
    stored: Seq<char>,
) -> bool {
    stored.len() == 0 || req.2 == Some(stored)
}

/// The reply's error code and message, or `None` when the request succeeds.
pub open spec fn failure_of(
    req: Option<
        (Option<Seq<char>>, Option<Seq<char>>, Option<Seq<char>>, Option<Seq<char>>, Option<Seq<char>>),
    >,
    stored: Seq<char>,
) -> Option<(i64, Seq<char>)> {
    match req {
        None => Some((-32700i64, "Invalid JSON"@)),
        Some(r) => if !authorized(r, stored) {
            Some((-32000i64, "无效的访问令牌"@))
        } else {
            let m = or_empty(r.1);
            if m == "initialize"@ || m == "tools/list"@ || m == "ping"@ {
                None
            } else if m == "tools/call"@ {
                let t = or_empty(r.3);
                if t == "echo"@ || t == "now"@ || t == "list_serial_ports"@ {
                    None
                } else {
                    Some((-32602i64, "未知工具："@ + t))
                }
            } else {
                Some((-32601i64, "未知方法："@ + m))
            }
        },
    }
}

/// The reply is the one owed to the request read as `req` (`None`: not
/// JSON) when the set token is `stored`: the failure code and message with
/// the request's id, or success with the request's id and the body the
/// method asks for, the `echo` tool giving back `arguments.text`.
pub open spec fn is_reply_to(
    res: McpReply,
    req: Option<
        (Option<Seq<char>>, Option<Seq<char>>, Option<Seq<char>>, Option<Seq<char>>, Option<Seq<char>>),
    >,
    stored: Seq<char>,
) -> bool {
    match failure_of(req, stored) {
        Some((code, message)) => res matches McpReply::Failure { id, code: c, message: m } && c
            == code && m@ == message && id_view(id) == (match req {
            Some(r) => r.0,
            None => None,
        }),
        None => res matches McpReply::Success { id, body } && id_view(id) == req->Some_0.0 && ({
            let r = req->Some_0;
            let m = or_empty(r.1);
            let t = or_empty(r.3);
            if m == "initialize"@ {
                body is Initialize
            } else if m == "tools/list"@ {
                body is ToolsList
            } else if m == "ping"@ {
                body is Empty
            } else if t == "echo"@ {
                body matches McpBody::Text(x) && x@ == or_empty(r.4)
            } else if t == "now"@ {
                body is Now
            } else {
                body is PortList
            }
        }),
    }
}

fn opt_text(s: &Option<String>) -> (res: String)
    ensures
        res@ == or_empty(opt_view(*s)),
{
    match s {
        Some(t) => t.clone(),
        None => String::new(),
    }
}

fn copy_id(s: &Option<String>) -> (res: Option<String>)
    ensures
        id_view(res) == id_view(*s),
{
    match s {
        Some(t) => Some(t.clone()),
        None => None,
    }
}

/// Decides the reply to a request: `None` stands for a line that is not
/// JSON. A set token must be carried by every request; then `initialize`,
/// `tools/list`, `ping` and `tools/call` of `echo`, `now` or
/// `list_serial_ports` succeed, and anything else is an unknown method or tool.
pub fn dispatch(req: &Option<McpRequest>, stored_token: &str) -> (res: McpReply)
    ensures
        is_reply_to(res, request_fields(*req), stored_token@),
{
    let r = match req {
        None => {
            return McpReply::Failure { id: None, code: -32700, message: owned("Invalid JSON") };
        },
        Some(r) => r,
    };
    let id = copy_id(&r.id);
    let allowed = stored_token.is_empty() || match &r.token {
        Some(t) => same_text(t.as_str(), stored_token),
        None => false,
    };
    if !allowed {
        return McpReply::Failure { id, code: -32000, message: owned("无效的访问令牌") };
    }
    let m = opt_text(&r.method);
    if same_text(m.as_str(), "initialize") {
        McpReply::Success { id, body: McpBody::Initialize }
    } else if same_text(m.as_str(), "tools/list") {
        McpReply::Success { id, body: McpBody::ToolsList }
    } else if same_text(m.as_str(), "ping") {
        McpReply::Success { id, body: McpBody::Empty }
    } else if same_text(m.as_str(), "tools/call") {
        let t = opt_text(&r.tool);
        if same_text(t.as_str(), "echo") {
            McpReply::Success { id, body: McpBody::Text(opt_text(&r.text)) }
        } else if same_text(t.as_str(), "now") {
            McpReply::Success { id, body: McpBody::Now }
        } else if same_text(t.as_str(), "list_serial_ports") {
            McpReply::Success { id, body: McpBody::PortList }
        } else {
            let mut msg = owned("未知工具：");
            append_str(&mut msg, t.as_str());
            McpReply::Failure { id, code: -32602, message: msg }
        }
    } else {
        let mut msg = owned("未知方法：");
        append_str(&mut msg, m.as_str());
        McpReply::Failure { id, code: -32601, message: msg }
    }
}

/// Answers one line that a client sent: a blank line gets no reply; any
/// other line, trimmed, is read as JSON and answered as `dispatch` answers
/// the request it holds.
pub fn answer_line(line: &str, stored_token: &str) -> (res: Option<McpReply>)
    ensures
        res is None <==> trim(line@).len() == 0,
        res matches Some(reply) ==> is_reply_to(reply, json_request(trim(line@)), stored_token@),
{
    let t = trimmed(line);
    if t.as_str().is_empty() {
        return None;
    }
    let req = parse_request(t.as_str());
    Some(dispatch(&req, stored_token))
}

/// A request without the set token is refused with code -32000, whatever it asks.
pub proof fn lemma_refused_without_token(
    req: (Option<Seq<char>>, Option<Seq<char>>, Option<Seq<char>>, Option<Seq<char>>, Option<Seq<char>>),
    stored: Seq<char>,
)
    requires
        stored.len() > 0,
        req.2 != Some(stored),
    ensures
        failure_of(Some(req), stored) == Some((-32000i64, "无效的访问令牌"@)),
{
}

/// The tools the server offers, with their descriptions.
pub open spec fn tool_table() -> Seq<(Seq<char>, Seq<char>)> {
    seq![
        ("echo"@, "原样返回输入文本"@),
        ("now"@, "返回当前时间"@),
        ("list_serial_ports"@, "列出本机串口"@),
    ]
}

/// The tools the server offers, with their descriptions.
pub fn mcp_tools() -> (res: Vec<(String, String)>)
    ensures
        res@.len() == tool_table().len(),
        forall|i: int|
            0 <= i < res@.len() ==> (#[trigger] res@[i]).0@ == tool_table()[i].0 && res@[i].1@
                == tool_table()[i].1,
{
    let mut v: Vec<(String, String)> = Vec::new();
    v.push((owned("echo"), owned("原样返回输入文本")));
    v.push((owned("now"), owned("返回当前时间")));
    v.push((owned("list_serial_ports"), owned("列出本机串口")));
    v
}

/// The names of the tools the server offers.
pub fn tool_names() -> (res: Vec<String>)
    ensures
        views(res@) == seq!["echo"@, "now"@, "list_serial_ports"@],
{
    let mut v: Vec<String> = Vec::new();
    let a = owned("echo");
    proof {
        lemma_views_push(v@, a);
    }
    v.push(a);
    let b = owned("now");
    proof {
        lemma_views_push(v@, b);
    }
    v.push(b);
    let c = owned("list_serial_ports");
    proof {
        lemma_views_push(v@, c);
    }
    v.push(c);
    assert(views(v@) =~= seq!["echo"@, "now"@, "list_serial_ports"@]);
    v
}

/// The text of the `list_serial_ports` tool: the port names joined by `, `.
pub fn port_list_text(ports: &Vec<String>) -> (res: String)
    ensures
        res@ == join(views(ports@), ", "@),
{
    join_strings(ports, ", ")
}

/// What the server reports of itself: whether it runs, its port, whether a
/// token is required (one is set), and its tools.
pub fn server_status(running: bool, port: u16, token: &str) -> (res: McpServerStatus)
    ensures
        res.running == running,
        res.port == port,
        res.token_required == (token@.len() > 0),
        views(res.tools@) == seq!["echo"@, "now"@, "list_serial_ports"@],
        res.error is None,
{
    McpServerStatus {
        running,
        port,
        token_required: !token.is_empty(),
        tools: tool_names(),
        error: None,
    }
}

} // verus!
