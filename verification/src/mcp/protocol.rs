//! JSON-RPC 2.0 as the tool server speaks it: requests, and responses that
//! carry either a result or an error.
use vstd::prelude::*;
use crate::browser::json::{
    jarr, jnum_text, jstr, json_parse, json_view, json_views, lemma_json_views, member, obj2, obj3, parse_json,
    push_json, JsonValue, JsonView,
};
use crate::cdp::session::jstr_v;
use crate::text::trim_start;

verus! {

pub const PROTOCOL_VERSION: &'static str = "2024-11-05";

pub const SERVER_NAME: &'static str = "bose-browser";

pub const SERVER_VERSION: &'static str = "0.4.0";

/// A request: its id (absent for a notification), method and parameters.
pub struct JsonRpcRequest {
    pub id: Option<JsonValue>,
    pub method: String,
    pub params: Option<JsonValue>,
}

pub struct ReqView {
    pub id: Option<JsonView>,
    pub method: Seq<char>,
    pub params: Option<JsonView>,
}

impl View for JsonRpcRequest {
    type V = ReqView;

    open spec fn view(&self) -> ReqView {
        ReqView { id: opt_json(self.id), method: self.method@, params: opt_json(self.params) }
    }
}

pub open spec fn reqs_view(s: Seq<JsonRpcRequest>) -> Seq<ReqView> {
    s.map_values(|q: JsonRpcRequest| q@)
}

/// Why a JSON value is not a request.
#[derive(Clone, Copy, PartialEq, Eq, Structural)]
pub enum RpcError {
    /// The value is not an object.
    NotObject,
    /// The object has no `method`.
    MissingMethod,
    /// Its `method` is not a string.
    MethodNotString,
}

pub open spec fn rpc_error_text(e: RpcError) -> Seq<char> {
    match e {
        RpcError::NotObject => "invalid type: expected struct JsonRpcRequest"@,
        RpcError::MissingMethod => "missing field `method`"@,
        RpcError::MethodNotString => "invalid type: expected a string"@,
    }
}

impl RpcError {
    /// The account of what is wrong, as the reply gives it.
    pub fn message(&self) -> (r: String)
        ensures
            r@ == rpc_error_text(*self),
    {
        match self {
            RpcError::NotObject => "invalid type: expected struct JsonRpcRequest".to_owned(),
            RpcError::MissingMethod => "missing field `method`".to_owned(),
            RpcError::MethodNotString => "invalid type: expected a string".to_owned(),
        }
    }
}

/// A member that is absent or `null` counts as absent.
pub open spec fn present(o: Option<JsonView>) -> Option<JsonView> {
    match o {
        Some(JsonView::Null) => None,
        _ => o,
    }
}

/// A request read from a JSON value: an object whose `method` is a string;
/// `id` and `params` are kept unless absent or `null`; other members are
/// ignored.
pub open spec fn request_view(v: JsonView) -> Result<ReqView, RpcError> {
    match v {
        JsonView::Object(ms) => match member(ms, "method"@) {
            None => Err(RpcError::MissingMethod),
            Some(JsonView::Str(m)) => Ok(
                ReqView { id: present(member(ms, "id"@)), method: m, params: present(member(ms, "params"@)) },
            ),
            Some(_) => Err(RpcError::MethodNotString),
        },
        _ => Err(RpcError::NotObject),
    }
}

/// The requests of a batch, or the error of the first element that is not one.
pub open spec fn requests_view(items: Seq<JsonView>) -> Result<Seq<ReqView>, RpcError>
    decreases items.len(),
{
    if items.len() == 0 {
        Ok(Seq::empty())
    } else {
        match request_view(items[0]) {
            Err(e) => Err(e),
            Ok(r) => match requests_view(items.drop_first()) {
                Ok(rs) => Ok(seq![r] + rs),
                Err(e) => Err(e),
            },
        }
    }
}

/// What a request body comes to: one request, a batch of them, or the reply
/// to send at once.
pub enum RpcInput {
    One(JsonRpcRequest),
    Many(Vec<JsonRpcRequest>),
    Reply(JsonValue),
}

pub enum RpcInputView {
    One(ReqView),
    Many(Seq<ReqView>),
    Reply(JsonView),
}

impl View for RpcInput {
    type V = RpcInputView;

    open spec fn view(&self) -> RpcInputView {
        match self {
            RpcInput::One(q) => RpcInputView::One(q@),
            RpcInput::Many(qs) => RpcInputView::Many(reqs_view(qs@)),
            RpcInput::Reply(v) => RpcInputView::Reply(v@),
        }
    }
}

/// The reply to a body that is not a request: a parse error without id.
pub open spec fn parse_error_view(detail: Seq<char>) -> JsonView {
    err_view(None, RpcErrorCode::ParseError, "Parse error: "@ + detail)
}

/// What a body comes to, given what `serde_json` makes of it: a body whose
/// first character after white space is `[` is a batch, answered as a
/// whole with a one-element array when any part fails; any other body is
/// one request.
pub open spec fn rpc_input(body: Seq<char>, parsed: Result<JsonView, Seq<char>>) -> RpcInputView {
    let t = trim_start(body);
    if t.len() > 0 && t[0] == '[' {
        match parsed {
            Err(m) => RpcInputView::Reply(JsonView::Array(seq![parse_error_view(m)])),
            Ok(JsonView::Array(items)) => match requests_view(items) {
                Ok(rs) => RpcInputView::Many(rs),
                Err(e) => RpcInputView::Reply(JsonView::Array(seq![parse_error_view(rpc_error_text(e))])),
            },
            Ok(_) => RpcInputView::Reply(
                JsonView::Array(seq![parse_error_view("invalid type: expected a sequence"@)]),
            ),
        }
    } else {
        match parsed {
            Err(m) => RpcInputView::Reply(parse_error_view(m)),
            Ok(v) => match request_view(v) {
                Ok(r) => RpcInputView::One(r),
                Err(e) => RpcInputView::Reply(parse_error_view(rpc_error_text(e))),
            },
        }
    }
}

/// The error codes the server answers with.
#[derive(Clone, Copy, PartialEq, Eq, Structural)]
pub enum RpcErrorCode {
    ParseError,
    MethodNotFound,
    InvalidParams,
}

pub open spec fn code_text(c: RpcErrorCode) -> Seq<char> {
    match c {
        RpcErrorCode::ParseError => "-32700"@,
        RpcErrorCode::MethodNotFound => "-32601"@,
        RpcErrorCode::InvalidParams => "-32602"@,
    }
}

/// The id member: the request's id, `null` without one.
pub open spec fn id_view(id: Option<JsonView>) -> JsonView {
    match id {
        Some(v) => v,
        None => JsonView::Null,
    }
}

pub open spec fn opt_json(o: Option<JsonValue>) -> Option<JsonView> {
    match o {
        Some(v) => Some(v@),
        None => None,
    }
}

/// `{"id": id, "jsonrpc": "2.0", "result": result}`.
pub open spec fn ok_view(id: Option<JsonView>, result: JsonView) -> JsonView {
    JsonView::Object(seq![("id"@, id_view(id)), ("jsonrpc"@, jstr_v("2.0"@)), ("result"@, result)])
}

/// `{"error": {"code": code, "message": message}, "id": id, "jsonrpc": "2.0"}`.
pub open spec fn err_view(id: Option<JsonView>, code: RpcErrorCode, message: Seq<char>) -> JsonView {
    JsonView::Object(
        seq![
            (
                "error"@,
                JsonView::Object(seq![("code"@, JsonView::Number(code_text(code))), ("message"@, jstr_v(message))]),
            ),
            ("id"@, id_view(id)),
            ("jsonrpc"@, jstr_v("2.0"@)),
        ],
    )
}

fn id_value(id: Option<JsonValue>) -> (r: JsonValue)
    ensures
        r@ == id_view(opt_json(id)),
{
    match id {
        Some(v) => v,
        None => JsonValue::Null,
    }
}

/// A response carrying `result`.
pub fn rpc_ok(id: Option<JsonValue>, result: JsonValue) -> (r: JsonValue)
    ensures
        r@ == ok_view(opt_json(id), result@),
{
    obj3("id", id_value(id), "jsonrpc", jstr("2.0"), "result", result)
}

/// A response carrying an error.
pub fn rpc_err(id: Option<JsonValue>, code: RpcErrorCode, message: String) -> (r: JsonValue)
    ensures
        r@ == err_view(opt_json(id), code, message@),
{
    let c = match code {
        RpcErrorCode::ParseError => jnum_text("-32700"),
        RpcErrorCode::MethodNotFound => jnum_text("-32601"),
        RpcErrorCode::InvalidParams => jnum_text("-32602"),
    };
    obj3("error", obj2("code", c, "message", JsonValue::Str(message)), "id", id_value(id), "jsonrpc", jstr("2.0"))
}

fn present_exec(o: Option<&JsonValue>) -> (r: Option<JsonValue>)
    ensures
        opt_json(r) == present(match o {
            Some(x) => Some(x@),
            None => None,
        }),
{
    match o {
        Some(JsonValue::Null) => None,
        Some(x) => Some(x.duplicate()),
        None => None,
    }
}

/// Reads a request from a JSON value; see `request_view`.
pub fn request_of(v: &JsonValue) -> (r: Result<JsonRpcRequest, RpcError>)
    ensures
        match r {
            Ok(q) => request_view(v@) == Ok::<ReqView, RpcError>(q@),
            Err(e) => request_view(v@) == Err::<ReqView, RpcError>(e),
        },
{
    match v {
        JsonValue::Object(_) => {
            match v.get_key("method") {
                None => Err(RpcError::MissingMethod),
                Some(m) => match m.as_str() {
                    Some(s) => {
                        let id = present_exec(v.get_key("id"));
                        let params = present_exec(v.get_key("params"));
                        Ok(JsonRpcRequest { id, method: s.to_owned(), params })
                    },
                    None => Err(RpcError::MethodNotString),
                },
            }
        },
        _ => Err(RpcError::NotObject),
    }
}

/// The parse-error reply with `detail` after `Parse error: `.
pub fn parse_error_reply(detail: &str) -> (r: JsonValue)
    ensures
        r@ == parse_error_view(detail@),
{
    let mut m = "Parse error: ".to_owned();
    m.append(detail);
    rpc_err(None, RpcErrorCode::ParseError, m)
}

/// Reads the requests of a body; see `rpc_input`.
pub fn read_rpc(body: &str) -> (r: RpcInput)
    ensures
        r@ == rpc_input(body@, json_parse(body@)),
{
    let batch = crate::mcp::server::is_batch(body);
    let parsed = parse_json(body);
    if batch {
        match parsed {
            Err(m) => {
                let mut a: Vec<JsonValue> = Vec::new();
                push_json(&mut a, parse_error_reply(m.as_str()));
                proof { lemma_json_views(a@); }
                let r = jarr(a);
                assert(r@ == JsonView::Array(seq![parse_error_view(m@)]));
                RpcInput::Reply(r)
            },
            Ok(JsonValue::Array(items)) => {
                let ghost iv = json_views(items@);
                proof { lemma_json_views(items@); }
                let mut out: Vec<JsonRpcRequest> = Vec::new();
                let mut i: usize = 0;
                assert(json_parse(body@) == Ok::<JsonView, Seq<char>>(JsonView::Array(iv)));
                proof {
                    assert(iv.skip(0) =~= iv);
                    assert(reqs_view(out@) =~= Seq::<ReqView>::empty());
                    match requests_view(iv) {
                        Ok(rs) => assert(reqs_view(out@) + rs =~= rs),
                        Err(_) => {},
                    }
                }
                while i < items.len()
                    invariant
                        i <= items@.len(),
                        out@.len() == i,
                        batch == (trim_start(body@).len() > 0 && trim_start(body@)[0] == '['),
                        batch,
                        json_parse(body@) == Ok::<JsonView, Seq<char>>(JsonView::Array(iv)),
                        iv == json_views(items@),
                        iv.len() == items@.len(),
                        forall|j: int| 0 <= j < items@.len() ==> #[trigger] iv[j] == json_view(items@[j]),
                        requests_view(iv) == match requests_view(iv.skip(i as int)) {
                            Ok(rs) => Ok(reqs_view(out@) + rs),
                            Err(e) => Err::<Seq<ReqView>, RpcError>(e),
                        },
                    decreases items@.len() - i,
                {
                    assert(iv.skip(i as int)[0] == iv[i as int]);
                    assert(iv.skip(i as int).drop_first() =~= iv.skip(i + 1));
                    assert(items@[i as int]@ == iv[i as int]);
                    match request_of(&items[i]) {
                        Ok(q) => {
                            let ghost before = reqs_view(out@);
                            out.push(q);
                            assert(reqs_view(out@) =~= before.push(out@[i as int]@));
                            proof {
                                match requests_view(iv.skip(i + 1)) {
                                    Ok(rs) => {
                                        assert(before + (seq![out@[i as int]@] + rs) =~= reqs_view(out@) + rs);
                                    },
                                    Err(_) => {},
                                }
                            }
                        },
                        Err(e) => {
                            let mut a: Vec<JsonValue> = Vec::new();
                            let msg = e.message();
                            push_json(&mut a, parse_error_reply(msg.as_str()));
                            proof { lemma_json_views(a@); }
                            let r = jarr(a);
                            assert(r@ == JsonView::Array(seq![parse_error_view(rpc_error_text(e))]));
                            return RpcInput::Reply(r);
                        },
                    }
                    i = i + 1;
                }
                assert(iv.skip(i as int) =~= Seq::<JsonView>::empty());
                assert(reqs_view(out@) + Seq::<ReqView>::empty() =~= reqs_view(out@));
                RpcInput::Many(out)
            },
            Ok(_) => {
                let mut a: Vec<JsonValue> = Vec::new();
                push_json(&mut a, parse_error_reply("invalid type: expected a sequence"));
                proof { lemma_json_views(a@); }
                let r = jarr(a);
                RpcInput::Reply(r)
            },
        }
    } else {
        match parsed {
            Err(m) => RpcInput::Reply(parse_error_reply(m.as_str())),
            Ok(v) => match request_of(&v) {
                Ok(q) => RpcInput::One(q),
                Err(e) => {
                    let msg = e.message();
                    RpcInput::Reply(parse_error_reply(msg.as_str()))
                },
            },
        }
    }
}

} // verus!
