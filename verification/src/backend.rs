//! Backend selection and the wire messages of text generation.
//!
//! A summary is produced by one of two backends: the local model server
//! or a remote chat-completion API.  Which one runs is a pure function
//! of the configuration, decided once per invocation — there is no
//! fallback.  This module builds the request bodies, validates the
//! remote configuration before any I/O, and interprets status codes and
//! response bodies; the HTTP transport itself lives outside the crate.

use crate::errors::AppError;
use crate::json::{enc, encode_json, jview, lemma_jview_composite, parse_json, parse_json_str,
    Json, JsonV};
use crate::text::str_eq;
use vstd::prelude::*;

verus! {

/// The two text-generation backends.
#[derive(Debug, Clone, Copy, PartialEq, Eq, Structural)]
pub enum BackendKind {
    Local,
    Remote,
}

/// Which backend a configuration selects.
pub fn select_backend(use_local: bool) -> (r: BackendKind)
    ensures
        r == (if use_local {
            BackendKind::Local
        } else {
            BackendKind::Remote
        }),
{
    if use_local {
        BackendKind::Local
    } else {
        BackendKind::Remote
    }
}

/// Rejects a remote configuration missing its endpoint or credential,
/// before any I/O happens.
pub fn validate_remote_config(url: &str, key: &str) -> (r: Result<(), AppError>)
    ensures
        r is Ok <==> url@.len() > 0 && key@.len() > 0,
        r matches Err(e) ==> e matches AppError::ConfigurationError { .. },
{
    if url.is_empty() || key.is_empty() {
        Err(
            AppError::ConfigurationError {
                detail: String::from_str("remote API URL and key must both be configured"),
            },
        )
    } else {
        Ok(())
    }
}

/// Accepts a success status and turns any other into the backend error
/// carrying it.
pub fn check_status(status: u16) -> (r: Result<(), AppError>)
    ensures
        r is Ok <==> 200 <= status < 300,
        !(200 <= status < 300) ==> r == Err::<(), AppError>(AppError::BackendError { status }),
{
    if 200 <= status && status < 300 {
        Ok(())
    } else {
        Err(AppError::BackendError { status })
    }
}

/// The request body for the local model server.
pub open spec fn local_request_jv(
    model: Seq<char>,
    prompt: Seq<char>,
    system: Seq<char>,
    stream: bool,
) -> JsonV {
    JsonV::Obj(
        seq![
            ("model"@, JsonV::Str(model)),
            ("prompt"@, JsonV::Str(prompt)),
            ("system"@, JsonV::Str(system)),
            ("stream"@, JsonV::Bool(stream)),
        ],
    )
}

/// Renders the local model request.
pub fn local_request_body(model: &str, prompt: &str, system: &str, stream: bool) -> (r: String)
    ensures
        r@ == enc(local_request_jv(model@, prompt@, system@, stream)),
{
    let mut ms: Vec<(String, Json)> = Vec::new();
    ms.push((String::from_str("model"), Json::Str(String::from_str(model))));
    ms.push((String::from_str("prompt"), Json::Str(String::from_str(prompt))));
    ms.push((String::from_str("system"), Json::Str(String::from_str(system))));
    ms.push((String::from_str("stream"), Json::Bool(stream)));
    let j = Json::Obj(ms);
    proof {
        lemma_jview_composite(j);
        assert(j@->Obj_0 =~= local_request_jv(model@, prompt@, system@, stream)->Obj_0);
    }
    encode_json(&j)
}

/// One chat message.
pub open spec fn chat_message_jv(role: Seq<char>, content: Seq<char>) -> JsonV {
    JsonV::Obj(seq![("role"@, JsonV::Str(role)), ("content"@, JsonV::Str(content))])
}

/// The request body for the remote chat API: a system message followed
/// by the user prompt.
pub open spec fn remote_request_jv(
    model: Seq<char>,
    system: Seq<char>,
    prompt: Seq<char>,
) -> JsonV {
    JsonV::Obj(
        seq![
            ("model"@, JsonV::Str(model)),
            (
                "messages"@,
                JsonV::Arr(
                    seq![chat_message_jv("system"@, system), chat_message_jv("user"@, prompt)],
                ),
            ),
        ],
    )
}

/// Renders the remote chat request.
pub fn remote_request_body(model: &str, system: &str, prompt: &str) -> (r: String)
    ensures
        r@ == enc(remote_request_jv(model@, system@, prompt@)),
{
    let mut m1: Vec<(String, Json)> = Vec::new();
    m1.push((String::from_str("role"), Json::Str(String::from_str("system"))));
    m1.push((String::from_str("content"), Json::Str(String::from_str(system))));
    let msg1 = Json::Obj(m1);
    let mut m2: Vec<(String, Json)> = Vec::new();
    m2.push((String::from_str("role"), Json::Str(String::from_str("user"))));
    m2.push((String::from_str("content"), Json::Str(String::from_str(prompt))));
    let msg2 = Json::Obj(m2);
    proof {
        lemma_jview_composite(msg1);
        lemma_jview_composite(msg2);
        assert(msg1@->Obj_0 =~= chat_message_jv("system"@, system@)->Obj_0);
        assert(msg2@->Obj_0 =~= chat_message_jv("user"@, prompt@)->Obj_0);
    }
    let mut arr: Vec<Json> = Vec::new();
    arr.push(msg1);
    arr.push(msg2);
    let msgs = Json::Arr(arr);
    proof {
        lemma_jview_composite(msgs);
        assert(msgs@->Arr_0 =~= seq![
            chat_message_jv("system"@, system@),
            chat_message_jv("user"@, prompt@),
        ]);
    }
    let mut ms: Vec<(String, Json)> = Vec::new();
    ms.push((String::from_str("model"), Json::Str(String::from_str(model))));
    ms.push((String::from_str("messages"), msgs));
    let j = Json::Obj(ms);
    proof {
        lemma_jview_composite(j);
        assert(j@->Obj_0 =~= remote_request_jv(model@, system@, prompt@)->Obj_0);
    }
    encode_json(&j)
}

/// The first member of an object carrying `key`, if any.
pub open spec fn obj_get(ms: Seq<(Seq<char>, JsonV)>, key: Seq<char>) -> Option<JsonV>
    decreases ms.len(),
{
    if ms.len() == 0 {
        None
    } else if ms[0].0 == key {
        Some(ms[0].1)
    } else {
        obj_get(ms.drop_first(), key)
    }
}

/// `obj_get` finds a key at `i` when the members before `i` miss it.
pub proof fn lemma_obj_get_at(ms: Seq<(Seq<char>, JsonV)>, key: Seq<char>, i: int)
    requires
        0 <= i < ms.len(),
        ms[i].0 == key,
        forall|k: int| 0 <= k < i ==> (#[trigger] ms[k]).0 != key,
    ensures
        obj_get(ms, key) == Some(ms[i].1),
    decreases i,
{
    if i > 0 {
        assert(forall|k: int|
            0 <= k < ms.drop_first().len() ==> #[trigger] ms.drop_first()[k] == ms[k + 1]);
        lemma_obj_get_at(ms.drop_first(), key, i - 1);
    }
}

/// `obj_get` misses when every member does.
pub proof fn lemma_obj_get_none(ms: Seq<(Seq<char>, JsonV)>, key: Seq<char>)
    requires
        forall|k: int| 0 <= k < ms.len() ==> (#[trigger] ms[k]).0 != key,
    ensures
        obj_get(ms, key) is None,
    decreases ms.len(),
{
    if ms.len() > 0 {
        assert(forall|k: int|
            0 <= k < ms.drop_first().len() ==> #[trigger] ms.drop_first()[k] == ms[k + 1]);
        lemma_obj_get_none(ms.drop_first(), key);
    }
}

/// Looks a key up in an object value.
fn obj_get_x<'a>(j: &'a Json, key: &str) -> (r: Option<&'a Json>)
    ensures
        (match r {
            Some(v) => j@ is Obj && obj_get(j@->Obj_0, key@) == Some(jview(*v)),
            None => !(j@ is Obj) || obj_get(j@->Obj_0, key@) is None,
        }),
{
    proof {
        lemma_jview_composite(*j);
    }
    match j {
        Json::Obj(ms) => {
            let ghost msv = j@->Obj_0;
            let n = ms.len();
            let mut i: usize = 0;
            while i < n
                invariant
                    n == ms@.len(),
                    n == msv.len(),
                    i <= n,
                    jview(*j) == JsonV::Obj(msv),
                    forall|k: int|
                        0 <= k < n ==> #[trigger] msv[k] == (ms@[k].0@, jview(ms@[k].1)),
                    forall|k: int| 0 <= k < i ==> (#[trigger] msv[k]).0 != key@,
                decreases n - i,
            {
                if str_eq(ms[i].0.as_str(), key) {
                    proof {
                        lemma_obj_get_at(msv, key@, i as int);
                    }
                    return Some(&ms[i].1);
                }
                i = i + 1;
            }
            proof {
                lemma_obj_get_none(msv, key@);
            }
            None
        }
        _ => None,
    }
}

/// The text of a local model response: its `response` member.
pub open spec fn local_response_text(j: JsonV) -> Option<Seq<char>> {
    match j {
        JsonV::Obj(ms) => match obj_get(ms, "response"@) {
            Some(JsonV::Str(t)) => Some(t),
            _ => None,
        },
        _ => None,
    }
}

/// What parsing a local response body yields.
pub open spec fn parse_local_response_spec(s: Seq<char>) -> Option<Seq<char>> {
    match parse_json(s) {
        Some(j) => local_response_text(j),
        None => None,
    }
}

/// Extracts the generated text from a local model response body.
/// Fails exactly when the body is not JSON or lacks a string `response`.
pub fn parse_local_response(body: &str) -> (r: Result<String, AppError>)
    ensures
        (match r {
            Ok(t) => parse_local_response_spec(body@) == Some(t@),
            Err(e) => parse_local_response_spec(body@) is None
                && e is BackendResponseError,
        }),
{
    let parsed = match parse_json_str(body) {
        Some(j) => j,
        None => {
            return Err(AppError::BackendResponseError);
        }
    };
    match obj_get_x(&parsed, "response") {
        Some(v) => match v {
            Json::Str(t) => Ok(t.clone()),
            _ => Err(AppError::BackendResponseError),
        },
        None => Err(AppError::BackendResponseError),
    }
}

/// The text of a remote chat response: the content of the first
/// choice's message.
pub open spec fn remote_response_text(j: JsonV) -> Option<Seq<char>> {
    match j {
        JsonV::Obj(ms) => match obj_get(ms, "choices"@) {
            Some(JsonV::Arr(cs)) => if cs.len() > 0 {
                match cs[0] {
                    JsonV::Obj(cms) => match obj_get(cms, "message"@) {
                        Some(JsonV::Obj(mms)) => match obj_get(mms, "content"@) {
                            Some(JsonV::Str(t)) => Some(t),
                            _ => None,
                        },
                        _ => None,
                    },
                    _ => None,
                }
            } else {
                None
            },
            _ => None,
        },
        _ => None,
    }
}

/// What parsing a remote response body yields.
pub open spec fn parse_remote_response_spec(s: Seq<char>) -> Option<Seq<char>> {
    match parse_json(s) {
        Some(j) => remote_response_text(j),
        None => None,
    }
}

/// Extracts the assistant's reply from a remote chat response body.
/// Fails exactly when the body is not JSON or the expected shape —
/// `choices[0].message.content`, a string — is absent.
pub fn parse_remote_response(body: &str) -> (r: Result<String, AppError>)
    ensures
        (match r {
            Ok(t) => parse_remote_response_spec(body@) == Some(t@),
            Err(e) => parse_remote_response_spec(body@) is None
                && e is BackendResponseError,
        }),
{
    let parsed = match parse_json_str(body) {
        Some(j) => j,
        None => {
            return Err(AppError::BackendResponseError);
        }
    };
    let choices = match obj_get_x(&parsed, "choices") {
        Some(v) => v,
        None => {
            return Err(AppError::BackendResponseError);
        }
    };
    let first = match choices {
        Json::Arr(cs) => {
            if cs.len() == 0 {
                return Err(AppError::BackendResponseError);
            }
            proof {
                lemma_jview_composite(*choices);
                assert(jview(*choices)->Arr_0[0] == jview(cs@[0]));
            }
            &cs[0]
        }
        _ => {
            return Err(AppError::BackendResponseError);
        }
    };
    let message = match obj_get_x(first, "message") {
        Some(v) => v,
        None => {
            return Err(AppError::BackendResponseError);
        }
    };
    let content = match obj_get_x(message, "content") {
        Some(v) => v,
        None => {
            return Err(AppError::BackendResponseError);
        }
    };
    match content {
        Json::Str(t) => Ok(t.clone()),
        _ => Err(AppError::BackendResponseError),
    }
}

/// What a backend invocation yields once the HTTP exchange is done: the
/// generated text, or nothing on a bad status or a malformed body.
pub open spec fn response_outcome(kind: BackendKind, status: u16, body: Seq<char>) -> Option<
    Seq<char>,
> {
    if !(200 <= status < 300) {
        None
    } else {
        match kind {
            BackendKind::Local => parse_local_response_spec(body),
            BackendKind::Remote => parse_remote_response_spec(body),
        }
    }
}

/// Interprets a backend's HTTP answer: a non-success status becomes the
/// backend error carrying it and nothing else is looked at; a success
/// status has its body read per the backend's shape.
pub fn accept_response(kind: BackendKind, status: u16, body: &str) -> (r: Result<
    String,
    AppError,
>)
    ensures
        (match r {
            Ok(t) => response_outcome(kind, status, body@) == Some(t@),
            Err(e) => response_outcome(kind, status, body@) is None,
        }),
        !(200 <= status < 300) ==> r == Err::<String, AppError>(
            AppError::BackendError { status },
        ),
        (200 <= status < 300) && r is Err ==> r == Err::<String, AppError>(
            AppError::BackendResponseError,
        ),
{
    match check_status(status) {
        Ok(()) => {}
        Err(e) => {
            return Err(e);
        }
    }
    match kind {
        BackendKind::Local => parse_local_response(body),
        BackendKind::Remote => parse_remote_response(body),
    }
}

/// A failing HTTP status yields a backend error and no generated text at
/// all — nothing exists to persist.
pub proof fn lemma_error_status_yields_nothing(kind: BackendKind, status: u16, body: Seq<char>)
    requires
        !(200 <= status < 300),
    ensures
        response_outcome(kind, status, body) is None,
{
}

} // verus!
