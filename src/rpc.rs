//! The JSON-RPC surface of the service: request validation, the four `Surf.*` methods and
//! their results, over a JSON value model.
use vstd::prelude::*;
use crate::engine::{ScanConfig, StatusSnapshot};
use crate::size::parse_size_for_service;
use crate::tasks::{observed_state, text_equal, TaskInfo, TaskManager, TaskState};
use crate::text::concat_str;

verus! {

pub const PARSE_ERROR: i32 = -32700;
pub const INVALID_REQUEST: i32 = -32600;
pub const METHOD_NOT_FOUND: i32 = -32601;
pub const INVALID_PARAMS: i32 = -32602;
pub const TASK_NOT_FOUND: i32 = -32001;
pub const INTERNAL_ERROR: i32 = -32603;

/// A JSON value as the dispatcher reads it. Numbers are kept when they are integers;
/// other numbers only as being numbers.
#[derive(Debug)]
pub enum Json {
    Null,
    Bool(bool),
    UInt(u64),
    NegInt(i64),
    Float,
    Str(String),
    Array(Vec<Json>),
    Object(Vec<(String, Json)>),
}

/// The error object of a response: code, message and an optional detail text.
#[derive(Debug, Clone)]
pub struct JsonRpcError {
    pub code: i32,
    pub message: String,
    /// the `detail` text of the error's data
    pub data: Option<String>,
}

impl JsonRpcError {
    pub fn new(code: i32, message: &str, data: Option<String>) -> (r: JsonRpcError)
        ensures
            r.code == code,
            r.message@ == message@,
            r.data == data,
    {
        JsonRpcError { code, message: message.to_string(), data }
    }

    pub fn parse_error(detail: Option<String>) -> (r: JsonRpcError)
        ensures
            r.code == PARSE_ERROR,
            r.message@ == "PARSE_ERROR"@,
            r.data == detail,
    {
        JsonRpcError::new(PARSE_ERROR, "PARSE_ERROR", detail)
    }

    pub fn invalid_request(detail: Option<String>) -> (r: JsonRpcError)
        ensures
            r.code == INVALID_REQUEST,
            r.message@ == "INVALID_REQUEST"@,
            r.data == detail,
    {
        JsonRpcError::new(INVALID_REQUEST, "INVALID_REQUEST", detail)
    }

    pub fn method_not_found(detail: Option<String>) -> (r: JsonRpcError)
        ensures
            r.code == METHOD_NOT_FOUND,
            r.message@ == "METHOD_NOT_FOUND"@,
            r.data == detail,
    {
        JsonRpcError::new(METHOD_NOT_FOUND, "METHOD_NOT_FOUND", detail)
    }

    pub fn invalid_params(detail: Option<String>) -> (r: JsonRpcError)
        ensures
            r.code == INVALID_PARAMS,
            r.message@ == "INVALID_PARAMS"@,
            r.data == detail,
    {
        JsonRpcError::new(INVALID_PARAMS, "INVALID_PARAMS", detail)
    }

    pub fn task_not_found(detail: Option<String>) -> (r: JsonRpcError)
        ensures
            r.code == TASK_NOT_FOUND,
            r.message@ == "TASK_NOT_FOUND"@,
            r.data == detail,
    {
        JsonRpcError::new(TASK_NOT_FOUND, "TASK_NOT_FOUND", detail)
    }
}

fn detail(text: &str) -> (r: Option<String>)
    ensures
        r is Some && r->0@ == text@,
{
    Some(text.to_string())
}

/// Parameters of `Surf.Scan`.
#[derive(Debug, Clone)]
pub struct SurfScanParams {
    pub path: String,
    /// a size literal; a number of bytes arrives as its decimal text
    pub min_size: Option<String>,
    pub threads: Option<usize>,
    pub limit: Option<usize>,
    pub exclude_patterns: Option<Vec<String>>,
    pub tag: Option<String>,
}

/// Parameters of `Surf.GetResults`.
#[derive(Debug, Clone)]
pub struct SurfGetResultsParams {
    pub task_id: String,
    pub mode: Option<String>,
    pub limit: Option<usize>,
}

/// A validated request.
#[derive(Debug)]
pub enum RpcCall {
    Scan(SurfScanParams),
    /// `Surf.Status` for every queued or running task
    StatusAll,
    /// `Surf.Status` for one task
    StatusOne(String),
    Cancel(String),
    GetResults(SurfGetResultsParams),
}

/// The value of the last `key` member of `fields` (JSON objects keep the last duplicate).
pub open spec fn member(fields: Seq<(String, Json)>, key: Seq<char>) -> Option<Json>
    decreases fields.len(),
{
    if fields.len() == 0 {
        None
    } else if fields.last().0@ == key {
        Some(fields.last().1)
    } else {
        member(fields.drop_last(), key)
    }
}

/// The last `key` member of `fields`.
pub fn get_member<'a>(fields: &'a Vec<(String, Json)>, key: &str) -> (r: Option<&'a Json>)
    ensures
        match member(fields@, key@) {
            Some(v) => r is Some && *r->0 == v,
            None => r is None,
        },
{
    let mut i: usize = fields.len();
    assert(fields@.take(i as int) =~= fields@);
    while i > 0
        invariant
            i <= fields@.len(),
            member(fields@, key@) == member(fields@.take(i as int), key@),
        decreases i,
    {
        let ghost t = fields@.take(i as int);
        assert(t.drop_last() =~= fields@.take(i - 1));
        assert(t.last() == fields@[i - 1]);
        if text_equal(&fields[i - 1].0, key) {
            return Some(&fields[i - 1].1);
        }
        i = i - 1;
    }
    assert(fields@.take(0) =~= Seq::<(String, Json)>::empty());
    None
}

pub open spec fn is_text(v: Json, t: Seq<char>) -> bool {
    v matches Json::Str(s) && s@ == t
}

/// The method names the service knows.
pub open spec fn known_method(m: Seq<char>) -> bool {
    m == "Surf.Scan"@ || m == "Surf.Status"@ || m == "Surf.GetResults"@ || m == "Surf.Cancel"@
}

/// The error code the validation pipeline gives a request before its method's own
/// parameters are looked at, if any: not an object or a version other than "2.0" is an
/// invalid request, a missing or unknown method is not found.
pub open spec fn envelope_error(v: Json) -> Option<i32> {
    match v {
        Json::Object(fields) => {
            let version = member(fields@, "jsonrpc"@);
            let method = member(fields@, "method"@);
            if !(version is Some && is_text(version->0, "2.0"@)) || !(method is Some && method->0 is Str) {
                Some(INVALID_REQUEST)
            } else if !known_method(method->0->Str_0@) {
                Some(METHOD_NOT_FOUND)
            } else {
                None
            }
        },
        _ => Some(INVALID_REQUEST),
    }
}

/// The method of a request that passed the envelope checks.
pub open spec fn method_of(v: Json) -> Seq<char> {
    member(v->Object_0@, "method"@)->0->Str_0@
}

/// The `params` of a request, `Null` when absent.
pub open spec fn params_of(v: Json) -> Json {
    match member(v->Object_0@, "params"@) {
        Some(p) => p,
        None => Json::Null,
    }
}

pub open spec fn task_id_member(p: Json) -> Option<Json> {
    member(p->Object_0@, "task_id"@)
}

fn text_of(s: &str) -> (r: String)
    ensures
        r@ == s@,
{
    s.to_string()
}

fn copy_text(s: &String) -> (r: String)
    ensures
        r@ == s@,
{
    s.clone()
}

/// An optional member that must be an unsigned integer fitting in `usize`.
fn opt_usize(fields: &Vec<(String, Json)>, key: &str) -> (r: Result<Option<usize>, ()>)
    ensures
        match member(fields@, key@) {
            None => r == Ok::<Option<usize>, ()>(None),
            Some(Json::Null) => r == Ok::<Option<usize>, ()>(None),
            Some(Json::UInt(n)) => if n <= usize::MAX { r == Ok::<Option<usize>, ()>(Some(n as usize)) } else { r is Err },
            Some(_) => r is Err,
        },
{
    match get_member(fields, key) {
        None => Ok(None),
        Some(Json::Null) => Ok(None),
        Some(Json::UInt(n)) => if *n <= usize::MAX as u64 { Ok(Some(*n as usize)) } else { Err(()) },
        Some(_) => Err(()),
    }
}

/// An optional member that must be a string.
fn opt_text(fields: &Vec<(String, Json)>, key: &str) -> (r: Result<Option<String>, ()>)
    ensures
        match member(fields@, key@) {
            None => r is Ok && r->Ok_0 is None,
            Some(Json::Null) => r is Ok && r->Ok_0 is None,
            Some(Json::Str(s)) => r is Ok && r->Ok_0 is Some && r->Ok_0->0@ == s@,
            Some(_) => r is Err,
        },
{
    match get_member(fields, key) {
        None => Ok(None),
        Some(Json::Null) => Ok(None),
        Some(Json::Str(s)) => Ok(Some(copy_text(s))),
        Some(_) => Err(()),
    }
}

/// `min_size`: a size literal, or a number of bytes (kept as its decimal text).
fn opt_size(fields: &Vec<(String, Json)>) -> (r: Result<Option<String>, ()>)
    ensures
        match member(fields@, "min_size"@) {
            None => r is Ok && r->Ok_0 is None,
            Some(Json::Null) => r is Ok && r->Ok_0 is None,
            Some(Json::Str(s)) => r is Ok && r->Ok_0 is Some && r->Ok_0->0@ == s@,
            Some(Json::UInt(n)) => r is Ok && r->Ok_0 is Some && r->Ok_0->0@ == crate::text::decimal(n as nat),
            Some(_) => r is Err,
        },
{
    match get_member(fields, "min_size") {
        None => Ok(None),
        Some(Json::Null) => Ok(None),
        Some(Json::Str(s)) => Ok(Some(copy_text(s))),
        Some(Json::UInt(n)) => Ok(Some(crate::text::decimal_string(*n))),
        Some(_) => Err(()),
    }
}

/// `exclude_patterns`: an array of strings.
fn opt_patterns(fields: &Vec<(String, Json)>) -> (r: Result<Option<Vec<String>>, ()>)
    ensures
        match member(fields@, "exclude_patterns"@) {
            None => r is Ok && r->Ok_0 is None,
            Some(Json::Null) => r is Ok && r->Ok_0 is None,
            Some(Json::Array(items)) => (forall|i: int| 0 <= i < items@.len() ==> #[trigger] items@[i] is Str)
                ==> r is Ok && r->Ok_0 is Some && r->Ok_0->0@.len() == items@.len(),
            Some(_) => r is Err,
        },
        r is Err ==> member(fields@, "exclude_patterns"@) is Some,
{
    match get_member(fields, "exclude_patterns") {
        None => Ok(None),
        Some(Json::Null) => Ok(None),
        Some(Json::Array(items)) => {
            let mut out: Vec<String> = Vec::new();
            let mut i: usize = 0;
            while i < items.len()
                invariant
                    member(fields@, "exclude_patterns"@) matches Some(Json::Array(its)) && its@ == items@,
                    i <= items@.len(),
                    out@.len() == i,
                    forall|j: int| 0 <= j < i ==> #[trigger] items@[j] is Str,
                decreases items@.len() - i,
            {
                match &items[i] {
                    Json::Str(s) => out.push(copy_text(s)),
                    _ => {
                        return Err(());
                    },
                }
                i = i + 1;
            }
            Ok(Some(out))
        },
        Some(_) => Err(()),
    }
}

/// `stale_days`: an optional non-negative integer.
fn stale_days_ok(fields: &Vec<(String, Json)>) -> (r: bool)
    ensures
        r == match member(fields@, "stale_days"@) {
            None => true,
            Some(Json::Null) => true,
            Some(Json::UInt(_)) => true,
            Some(_) => false,
        },
{
    match get_member(fields, "stale_days") {
        None => true,
        Some(Json::Null) => true,
        Some(Json::UInt(_)) => true,
        Some(_) => false,
    }
}

pub open spec fn opt_uint_ok(v: Option<Json>) -> bool {
    match v {
        None => true,
        Some(Json::Null) => true,
        Some(Json::UInt(n)) => n <= usize::MAX,
        Some(_) => false,
    }
}

pub open spec fn opt_text_ok(v: Option<Json>) -> bool {
    match v {
        None => true,
        Some(Json::Null) => true,
        Some(Json::Str(_)) => true,
        Some(_) => false,
    }
}

/// The members of `Surf.Scan` parameters have their types: `path` a string, `min_size` a
/// string or a number, `threads` and `limit` unsigned integers, `exclude_patterns` an
/// array of strings, `stale_days` an unsigned integer, `tag` a string (absent or null
/// for the optional ones).
pub open spec fn scan_params_typed(fields: Seq<(String, Json)>) -> bool {
    &&& member(fields, "path"@) is Some && member(fields, "path"@)->0 is Str
    &&& match member(fields, "min_size"@) {
        None => true,
        Some(Json::Null) => true,
        Some(Json::Str(_)) => true,
        Some(Json::UInt(_)) => true,
        Some(_) => false,
    }
    &&& opt_uint_ok(member(fields, "threads"@))
    &&& opt_uint_ok(member(fields, "limit"@))
    &&& match member(fields, "exclude_patterns"@) {
        None => true,
        Some(Json::Null) => true,
        Some(Json::Array(items)) => forall|i: int| 0 <= i < items@.len() ==> #[trigger] items@[i] is Str,
        Some(_) => false,
    }
    &&& match member(fields, "stale_days"@) {
        None => true,
        Some(Json::Null) => true,
        Some(Json::UInt(_)) => true,
        Some(_) => false,
    }
    &&& opt_text_ok(member(fields, "tag"@))
}

/// The values of well-typed `Surf.Scan` parameters pass validation: the size literal
/// parses and `threads` is not zero.
pub open spec fn scan_values_ok(fields: Seq<(String, Json)>) -> bool {
    &&& match member(fields, "min_size"@) {
        Some(Json::Str(t)) => crate::size::size_outcome(t@) is Bytes,
        Some(Json::UInt(n)) => crate::size::size_outcome(crate::text::decimal(n as nat)) is Bytes,
        _ => true,
    }
    &&& member(fields, "threads"@) != Some(Json::UInt(0))
}

/// Reads the `Surf.Scan` parameters out of an object: `path` is required and a string;
/// the optional members must have their types.
pub fn decode_scan_params(fields: &Vec<(String, Json)>) -> (r: Result<SurfScanParams, JsonRpcError>)
    ensures
        r is Ok ==> is_text(member(fields@, "path"@)->0, r->Ok_0.path@) && member(fields@, "path"@) is Some,
        !(member(fields@, "path"@) is Some && member(fields@, "path"@)->0 is Str) ==> r is Err,
        r is Err ==> r->Err_0.code == INVALID_PARAMS,
        r is Ok ==> match member(fields@, "threads"@) {
            Some(Json::UInt(n)) => r->Ok_0.threads == Some(n as usize),
            _ => r->Ok_0.threads is None,
        },
        r is Ok ==> match member(fields@, "limit"@) {
            Some(Json::UInt(n)) => r->Ok_0.limit == Some(n as usize),
            _ => r->Ok_0.limit is None,
        },
        r is Ok ==> match member(fields@, "min_size"@) {
            Some(Json::Str(t)) => r->Ok_0.min_size is Some && r->Ok_0.min_size->0@ == t@,
            Some(Json::UInt(n)) => r->Ok_0.min_size is Some && r->Ok_0.min_size->0@ == crate::text::decimal(n as nat),
            _ => r->Ok_0.min_size is None,
        },
        scan_params_typed(fields@) ==> r is Ok,
{
    let path = match get_member(fields, "path") {
        Some(Json::Str(s)) => copy_text(s),
        Some(_) => {
            return Err(JsonRpcError::invalid_params(detail("invalid Surf.Scan params: invalid type for field `path`, expected a string")));
        },
        None => {
            return Err(JsonRpcError::invalid_params(detail("invalid Surf.Scan params: missing field `path`")));
        },
    };
    let min_size = match opt_size(fields) {
        Ok(m) => m,
        Err(_) => {
            return Err(JsonRpcError::invalid_params(detail("invalid Surf.Scan params: invalid type for field `min_size`, expected a string or a number")));
        },
    };
    let threads = match opt_usize(fields, "threads") {
        Ok(t) => t,
        Err(_) => {
            return Err(JsonRpcError::invalid_params(detail("invalid Surf.Scan params: invalid type for field `threads`, expected a non-negative integer")));
        },
    };
    let limit = match opt_usize(fields, "limit") {
        Ok(l) => l,
        Err(_) => {
            return Err(JsonRpcError::invalid_params(detail("invalid Surf.Scan params: invalid type for field `limit`, expected a non-negative integer")));
        },
    };
    let exclude_patterns = match opt_patterns(fields) {
        Ok(p) => p,
        Err(_) => {
            return Err(JsonRpcError::invalid_params(detail("invalid Surf.Scan params: invalid type for field `exclude_patterns`, expected an array of strings")));
        },
    };
    if !stale_days_ok(fields) {
        return Err(JsonRpcError::invalid_params(detail("invalid Surf.Scan params: invalid type for field `stale_days`, expected a non-negative integer")));
    }
    let tag = match opt_text(fields, "tag") {
        Ok(t) => t,
        Err(_) => {
            return Err(JsonRpcError::invalid_params(detail("invalid Surf.Scan params: invalid type for field `tag`, expected a string")));
        },
    };
    Ok(SurfScanParams { path, min_size, threads, limit, exclude_patterns, tag })
}

/// Checks the values of `Surf.Scan` parameters: `min_size` must be a valid size literal
/// and `threads` at least one.
pub fn validate_surf_scan_params(params: &SurfScanParams) -> (r: Result<(), JsonRpcError>)
    ensures
        r is Ok <==> (match params.min_size {
            Some(m) => crate::size::size_outcome(m@) is Bytes,
            None => true,
        }) && params.threads != Some(0usize),
        r is Err ==> r->Err_0.code == INVALID_PARAMS && r->Err_0.message@ == "INVALID_PARAMS"@,
        params.min_size is Some && !(crate::size::size_outcome(params.min_size->0@) is Bytes) ==> r is Err
            && r->Err_0.data is Some
            && r->Err_0.data->0@ == "invalid min_size: "@ + crate::size::size_error_message(params.min_size->0@),
        (params.min_size is None || crate::size::size_outcome(params.min_size->0@) is Bytes)
            && params.threads == Some(0usize) ==> r is Err && r->Err_0.data is Some
            && r->Err_0.data->0@ == "invalid threads: must be >= 1"@,
{
    if let Some(m) = &params.min_size {
        match parse_size_for_service(m.as_str()) {
            Ok(_) => {},
            Err(e) => {
                let text = concat_str("invalid min_size: ", e.as_str());
                return Err(JsonRpcError::invalid_params(Some(text)));
            },
        }
    }
    if let Some(t) = params.threads {
        if t == 0 {
            return Err(JsonRpcError::invalid_params(detail("invalid threads: must be >= 1")));
        }
    }
    Ok(())
}

/// The message for a `params` member of the wrong kind.
fn not_object(method: &str) -> (r: JsonRpcError)
    ensures
        r.code == INVALID_PARAMS,
{
    JsonRpcError::invalid_params(Some(concat_str("params must be a JSON object for method ", method)))
}

/// What `Surf.Status` asks for with parameters `p`: every active task (`Ok(None)`), one
/// task (`Ok(Some(id))`), or nothing valid (`Err`).
pub open spec fn status_target(p: Json) -> Result<Option<Seq<char>>, ()> {
    match p {
        Json::Null => Ok(None),
        Json::Object(f) => match member(f@, "task_id"@) {
            None => Ok(None),
            Some(Json::Null) => Ok(None),
            Some(Json::Str(s)) => if s@.len() > 0 { Ok(Some(s@)) } else { Err(()) },
            Some(_) => Err(()),
        },
        _ => Err(()),
    }
}

/// The task `Surf.Cancel` names with parameters `p`, if they name one.
pub open spec fn cancel_target(p: Json) -> Option<Seq<char>> {
    match p {
        Json::Object(f) => match member(f@, "task_id"@) {
            Some(Json::Str(s)) => if s@.len() > 0 { Some(s@) } else { None },
            _ => None,
        },
        _ => None,
    }
}

fn decode_status(params: &Json) -> (r: Result<RpcCall, JsonRpcError>)
    ensures
        match status_target(*params) {
            Ok(None) => r is Ok && r->Ok_0 is StatusAll,
            Ok(Some(id)) => r is Ok && r->Ok_0 is StatusOne && r->Ok_0->StatusOne_0@ == id,
            Err(_) => r is Err && r->Err_0.code == INVALID_PARAMS,
        },
{
    let pfields = match params {
        Json::Null => {
            return Ok(RpcCall::StatusAll);
        },
        Json::Object(f) => f,
        _ => {
            return Err(not_object("Surf.Status"));
        },
    };
    match get_member(pfields, "task_id") {
        None => Ok(RpcCall::StatusAll),
        Some(Json::Null) => Ok(RpcCall::StatusAll),
        Some(Json::Str(s)) => {
            if s.as_str().unicode_len() == 0 {
                Err(JsonRpcError::invalid_params(detail("task_id must be a non-empty string or null")))
            } else {
                Ok(RpcCall::StatusOne(copy_text(s)))
            }
        },
        Some(_) => Err(JsonRpcError::invalid_params(detail("task_id must be a string or null"))),
    }
}

fn decode_cancel(params: &Json) -> (r: Result<RpcCall, JsonRpcError>)
    ensures
        match cancel_target(*params) {
            Some(id) => r is Ok && r->Ok_0 is Cancel && r->Ok_0->Cancel_0@ == id,
            None => r is Err && r->Err_0.code == INVALID_PARAMS,
        },
{
    let pfields = match params {
        Json::Object(f) => f,
        _ => {
            return Err(not_object("Surf.Cancel"));
        },
    };
    match get_member(pfields, "task_id") {
        Some(Json::Str(s)) => {
            if s.as_str().unicode_len() == 0 {
                Err(JsonRpcError::invalid_params(detail("task_id must be a non-empty string")))
            } else {
                Ok(RpcCall::Cancel(copy_text(s)))
            }
        },
        None => Err(JsonRpcError::invalid_params(detail("task_id must be a non-empty string"))),
        Some(_) => Err(JsonRpcError::invalid_params(detail("task_id must be a string"))),
    }
}

fn decode_scan(params: &Json) -> (r: Result<RpcCall, JsonRpcError>)
    ensures
        params !is Object ==> r is Err && r->Err_0.code == INVALID_PARAMS,
        r is Err ==> r->Err_0.code == INVALID_PARAMS,
        r is Ok ==> r->Ok_0 is Scan && validate_ok(r->Ok_0->Scan_0) && params is Object
            && is_text(member(params->Object_0@, "path"@)->0, r->Ok_0->Scan_0.path@),
        params is Object && !(member(params->Object_0@, "path"@) is Some && member(params->Object_0@, "path"@)->0 is Str)
            ==> r is Err,
        params is Object && scan_params_typed(params->Object_0@) && scan_values_ok(params->Object_0@) ==> r is Ok,
{
    let pfields = match params {
        Json::Object(f) => f,
        _ => {
            return Err(not_object("Surf.Scan"));
        },
    };
    let p = match decode_scan_params(pfields) {
        Ok(p) => p,
        Err(e) => {
            return Err(e);
        },
    };
    match validate_surf_scan_params(&p) {
        Ok(()) => Ok(RpcCall::Scan(p)),
        Err(e) => Err(e),
    }
}

/// The members of `Surf.GetResults` parameters have their types: `task_id` a string,
/// `mode` a string and `limit` an unsigned integer (both optional).
pub open spec fn results_params_typed(fields: Seq<(String, Json)>) -> bool {
    &&& member(fields, "task_id"@) is Some && member(fields, "task_id"@)->0 is Str
    &&& opt_text_ok(member(fields, "mode"@))
    &&& opt_uint_ok(member(fields, "limit"@))
}

fn decode_get_results(params: &Json) -> (r: Result<RpcCall, JsonRpcError>)
    ensures
        params !is Object ==> r is Err && r->Err_0.code == INVALID_PARAMS,
        r is Err ==> r->Err_0.code == INVALID_PARAMS,
        r is Ok ==> r->Ok_0 is GetResults && params is Object
            && is_text(member(params->Object_0@, "task_id"@)->0, r->Ok_0->GetResults_0.task_id@),
        params is Object && results_params_typed(params->Object_0@) ==> r is Ok,
{
    let pfields = match params {
        Json::Object(f) => f,
        _ => {
            return Err(not_object("Surf.GetResults"));
        },
    };
    let task_id = match get_member(pfields, "task_id") {
        Some(Json::Str(s)) => copy_text(s),
        None => {
            return Err(JsonRpcError::invalid_params(detail("invalid Surf.GetResults params: missing field `task_id`")));
        },
        Some(_) => {
            return Err(JsonRpcError::invalid_params(detail("invalid Surf.GetResults params: invalid type for field `task_id`, expected a string")));
        },
    };
    let mode = match opt_text(pfields, "mode") {
        Ok(m) => m,
        Err(_) => {
            return Err(JsonRpcError::invalid_params(detail("invalid Surf.GetResults params: invalid type for field `mode`, expected a string")));
        },
    };
    let limit = match opt_usize(pfields, "limit") {
        Ok(l) => l,
        Err(_) => {
            return Err(JsonRpcError::invalid_params(detail("invalid Surf.GetResults params: invalid type for field `limit`, expected a non-negative integer")));
        },
    };
    Ok(RpcCall::GetResults(SurfGetResultsParams { task_id, mode, limit }))
}

/// Runs the validation pipeline on a parsed request: the envelope (an object, version
/// "2.0", a known method), then the method's parameters. A missing `params` lists the
/// active tasks for `Surf.Status` and is invalid for the other methods, which need an
/// object.
pub fn decode_request(v: &Json) -> (r: Result<RpcCall, JsonRpcError>)
    ensures
        envelope_error(*v) is Some ==> r is Err && r->Err_0.code == envelope_error(*v)->0,
        envelope_error(*v) is None && method_of(*v) == "Surf.Status"@ ==> match status_target(params_of(*v)) {
            Ok(None) => r is Ok && r->Ok_0 is StatusAll,
            Ok(Some(id)) => r is Ok && r->Ok_0 is StatusOne && r->Ok_0->StatusOne_0@ == id,
            Err(_) => r is Err && r->Err_0.code == INVALID_PARAMS,
        },
        envelope_error(*v) is None && method_of(*v) == "Surf.Cancel"@ ==> match cancel_target(params_of(*v)) {
            Some(id) => r is Ok && r->Ok_0 is Cancel && r->Ok_0->Cancel_0@ == id,
            None => r is Err && r->Err_0.code == INVALID_PARAMS,
        },
        envelope_error(*v) is None && method_of(*v) == "Surf.Scan"@ ==> {
            &&& params_of(*v) !is Object ==> r is Err
            &&& r is Err ==> r->Err_0.code == INVALID_PARAMS
            &&& r is Ok ==> r->Ok_0 is Scan && validate_ok(r->Ok_0->Scan_0)
                && is_text(member(params_of(*v)->Object_0@, "path"@)->0, r->Ok_0->Scan_0.path@)
            &&& params_of(*v) is Object && scan_params_typed(params_of(*v)->Object_0@)
                && scan_values_ok(params_of(*v)->Object_0@) ==> r is Ok
        },
        envelope_error(*v) is None && method_of(*v) == "Surf.GetResults"@ ==> {
            &&& r is Err ==> r->Err_0.code == INVALID_PARAMS
            &&& params_of(*v) !is Object ==> r is Err
            &&& r is Ok ==> r->Ok_0 is GetResults
                && is_text(member(params_of(*v)->Object_0@, "task_id"@)->0, r->Ok_0->GetResults_0.task_id@)
            &&& params_of(*v) is Object && results_params_typed(params_of(*v)->Object_0@) ==> r is Ok
        },
{
    let fields = match v {
        Json::Object(f) => f,
        _ => {
            return Err(JsonRpcError::invalid_request(detail("request must be a JSON object")));
        },
    };
    match get_member(fields, "jsonrpc") {
        Some(Json::Str(s)) => {
            if !text_equal(s, "2.0") {
                let text = concat_str("jsonrpc must be \"2.0\", got ", s.as_str());
                return Err(JsonRpcError::invalid_request(Some(text)));
            }
        },
        _ => {
            return Err(JsonRpcError::invalid_request(detail("Invalid request structure: jsonrpc must be the string \"2.0\"")));
        },
    }
    let method: &String = match get_member(fields, "method") {
        Some(Json::Str(m)) => m,
        _ => {
            return Err(JsonRpcError::invalid_request(detail("Invalid request structure: method must be a string")));
        },
    };
    let null = Json::Null;
    let params: &Json = match get_member(fields, "params") {
        Some(p) => p,
        None => &null,
    };
    assert(*params == params_of(*v));
    proof {
        reveal_strlit("Surf.Scan");
        reveal_strlit("Surf.Status");
        reveal_strlit("Surf.GetResults");
        reveal_strlit("Surf.Cancel");
        assert("Surf.Scan"@[6] == 'c' && "Surf.Status"@[6] == 't');
        assert("Surf.Cancel"@[5] == 'C' && "Surf.GetResults"@[5] == 'G' && "Surf.Scan"@[5] == 'S'
            && "Surf.Status"@[5] == 'S');
        assert("Surf.Scan"@ != "Surf.Status"@);
        assert("Surf.Scan"@ != "Surf.Cancel"@);
        assert("Surf.Scan"@ != "Surf.GetResults"@);
        assert("Surf.Status"@ != "Surf.GetResults"@);
        assert("Surf.Status"@ != "Surf.Cancel"@);
        assert("Surf.GetResults"@ != "Surf.Cancel"@);
    }
    if text_equal(method, "Surf.Scan") {
        decode_scan(params)
    } else if text_equal(method, "Surf.Status") {
        decode_status(params)
    } else if text_equal(method, "Surf.GetResults") {
        decode_get_results(params)
    } else if text_equal(method, "Surf.Cancel") {
        decode_cancel(params)
    } else {
        let text = concat_str(concat_str("method \"", method.as_str()).as_str(), "\" not found");
        Err(JsonRpcError::method_not_found(Some(text)))
    }
}

/// The values of `p` pass `validate_surf_scan_params`.
pub open spec fn validate_ok(p: SurfScanParams) -> bool {
    (match p.min_size {
        Some(m) => crate::size::size_outcome(m@) is Bytes,
        None => true,
    }) && p.threads != Some(0usize)
}

/// Result of `Surf.Scan`.
#[derive(Debug, Clone)]
pub struct SurfScanResult {
    pub task_id: String,
    pub state: TaskState,
    pub path: String,
    pub min_size_bytes: u64,
    pub threads: usize,
    pub limit: Option<usize>,
}

/// One task as `Surf.Status` reports it; the progress fraction is
/// `scanned_bytes / total_bytes_estimate` when the estimate is known and positive.
#[derive(Debug, Clone)]
pub struct SurfStatusResult {
    pub task_id: String,
    pub state: TaskState,
    pub scanned_files: u64,
    pub scanned_bytes: u64,
    pub total_bytes_estimate: Option<u64>,
    pub started_at: u64,
    pub updated_at: u64,
    pub tag: Option<String>,
}

/// Result of `Surf.Cancel`.
#[derive(Debug, Clone)]
pub struct SurfCancelResult {
    pub task_id: String,
    pub previous_state: TaskState,
    pub current_state: TaskState,
}

/// Result of `Surf.GetResults`.
#[derive(Debug)]
pub struct SurfGetResultsResult {
    pub task_id: String,
    pub state: TaskState,
    pub path: String,
    pub total_files: u64,
    pub total_bytes: u64,
    pub entries: Vec<crate::engine::FileEntry>,
}

/// What a request produced.
#[derive(Debug)]
pub enum RpcOutcome {
    Scan(SurfScanResult),
    Status(SurfStatusResult),
    StatusList(Vec<SurfStatusResult>),
    Cancel(SurfCancelResult),
    Results(SurfGetResultsResult),
    Error(JsonRpcError),
}

/// Relies on `num_cpus::get`: the number of logical processors available, at least one.
#[verifier::external_body]
fn logical_cpus() -> (r: usize)
    ensures
        r >= 1,
{
    num_cpus::get()
}

/// The bytes of a validated `min_size`, zero when absent.
pub open spec fn min_size_of(p: SurfScanParams) -> nat {
    match p.min_size {
        Some(m) => crate::size::size_outcome(m@)->Bytes_0,
        None => 0,
    }
}

/// The engine configuration for validated `Surf.Scan` parameters, with `cpus` threads
/// when the request names none.
pub fn scan_config_for(params: &SurfScanParams, cpus: usize) -> (r: ScanConfig)
    requires
        validate_ok(*params),
    ensures
        r.root@ == params.path@,
        r.min_size == min_size_of(*params),
        r.threads == (match params.threads { Some(t) => t, None => cpus }),
{
    let min_size = match &params.min_size {
        Some(m) => match parse_size_for_service(m.as_str()) {
            Ok(b) => b,
            Err(_) => 0,
        },
        None => 0,
    };
    let threads = match params.threads {
        Some(t) => t,
        None => cpus,
    };
    ScanConfig { root: copy_text(&params.path), min_size, threads }
}

/// The engine configuration for validated `Surf.Scan` parameters; without a thread count
/// the scan uses one thread per logical processor.
pub fn plan_scan(params: &SurfScanParams) -> (r: ScanConfig)
    requires
        validate_ok(*params),
    ensures
        r.root@ == params.path@,
        r.min_size == min_size_of(*params),
        params.threads is Some ==> r.threads == params.threads->0,
        params.threads is None ==> r.threads >= 1,
{
    let cpus = match params.threads {
        Some(t) => t,
        None => logical_cpus(),
    };
    scan_config_for(params, cpus)
}

/// Completes `Surf.Scan` once the engine was asked to start `config`: a start failure is
/// invalid params; otherwise a running task with an engine handle is registered at `now`.
pub fn register_scan(
    mgr: &mut TaskManager,
    params: &SurfScanParams,
    config: &ScanConfig,
    started: Result<(), String>,
    now: u64,
) -> (r: RpcOutcome)
    requires
        old(mgr).wf(),
    ensures
        final(mgr).wf(),
        started is Err ==> (r matches RpcOutcome::Error(e) && e.code == INVALID_PARAMS)
            && final(mgr).tasks@ == old(mgr).tasks@,
        started is Ok && old(mgr).next_id < u64::MAX ==> {
            &&& r is Scan
            &&& r->Scan_0.task_id@ == crate::text::decimal(old(mgr).next_id as nat)
            &&& r->Scan_0.state == TaskState::Running
            &&& r->Scan_0.path@ == params.path@
            &&& r->Scan_0.min_size_bytes == config.min_size
            &&& r->Scan_0.threads == config.threads
            &&& r->Scan_0.limit == params.limit
            &&& final(mgr).tasks@.len() == old(mgr).tasks@.len() + 1
            &&& final(mgr).tasks@.drop_last() == old(mgr).tasks@
            &&& final(mgr).tasks@.last().id == old(mgr).next_id
            &&& final(mgr).tasks@.last().info.state == TaskState::Running
            &&& final(mgr).tasks@.last().info.has_handle
            &&& final(mgr).tasks@.last().info.path@ == params.path@
            &&& final(mgr).tasks@.last().info.started_at == now
        },
        started is Ok && old(mgr).next_id == u64::MAX ==> (r matches RpcOutcome::Error(e) && e.code == INTERNAL_ERROR)
            && final(mgr).tasks@ == old(mgr).tasks@,
{
    match started {
        Err(e) => {
            let text = concat_str("failed to start scan: ", e.as_str());
            RpcOutcome::Error(JsonRpcError::invalid_params(Some(text)))
        },
        Ok(()) => {
            if !mgr.can_register() {
                return RpcOutcome::Error(JsonRpcError::new(INTERNAL_ERROR, "INTERNAL_ERROR", detail("task identifiers exhausted")));
            }
            let tag = match &params.tag {
                Some(t) => Some(copy_text(t)),
                None => None,
            };
            let task_id = mgr.register_task_with_handle(
                copy_text(&params.path),
                config.min_size,
                config.threads,
                params.limit,
                tag,
                TaskState::Running,
                true,
                now,
            );
            RpcOutcome::Scan(SurfScanResult {
                task_id,
                state: TaskState::Running,
                path: copy_text(&params.path),
                min_size_bytes: config.min_size,
                threads: config.threads,
                limit: params.limit,
            })
        },
    }
}

/// `r` reports task `task_id` with record `info` and, when given, the engine `snapshot`:
/// state, times and tag from the record, counters from the snapshot (zero without one).
pub open spec fn reports(r: SurfStatusResult, task_id: Seq<char>, info: TaskInfo, snapshot: Option<StatusSnapshot>) -> bool {
    &&& r.task_id@ == task_id
    &&& r.state == info.state
    &&& r.started_at == info.started_at
    &&& r.updated_at == info.updated_at
    &&& crate::tasks::opt_view(r.tag) == crate::tasks::opt_view(info.tag)
    &&& match snapshot {
        Some(s) => r.scanned_files == s.progress.scanned_files && r.scanned_bytes == s.progress.scanned_bytes
            && r.total_bytes_estimate == s.progress.total_bytes_estimate,
        None => r.scanned_files == 0 && r.scanned_bytes == 0 && r.total_bytes_estimate is None,
    }
}

pub open spec fn snap_of(snapshot: Option<&StatusSnapshot>) -> Option<StatusSnapshot> {
    match snapshot {
        Some(s) => Some(*s),
        None => None,
    }
}

/// `snap` is what `snapshots` lists for task `id`: one of its snapshots for that id, or
/// none when it lists none.
pub open spec fn snapshot_in(snapshots: Seq<(String, StatusSnapshot)>, id: Seq<char>, snap: Option<StatusSnapshot>) -> bool {
    match snap {
        Some(x) => exists|i: int| 0 <= i < snapshots.len() && (#[trigger] snapshots[i]).0@ == id && snapshots[i].1 == x,
        None => forall|i: int| 0 <= i < snapshots.len() ==> (#[trigger] snapshots[i]).0@ != id,
    }
}

/// The record of a task after a status query observed it with `snap`: its state advanced
/// as `observed_state` says, stamped with `now` when it changed.
pub open spec fn observed_record(after: TaskInfo, before: TaskInfo, snap: Option<StatusSnapshot>, now: u64) -> bool {
    let next = match snap {
        Some(s) => observed_state(before.state, s.done, s.error is Some),
        None => before.state,
    };
    crate::tasks::same_info(after, TaskInfo {
        state: next,
        updated_at: if next != before.state { now } else { before.updated_at },
        ..before
    })
}

pub open spec fn not_found_error(e: JsonRpcError, task_id: Seq<char>) -> bool {
    e.code == TASK_NOT_FOUND && e.message@ == "TASK_NOT_FOUND"@ && e.data is Some
        && e.data->0@ == "task_id not found: "@ + task_id
}

/// The status report of a task from its record and, when it has an engine handle, the
/// engine's snapshot; without one the progress is zero and the total unknown.
pub fn status_report(task_id: &str, info: &TaskInfo, snapshot: Option<&StatusSnapshot>) -> (r: SurfStatusResult)
    ensures
        reports(r, task_id@, *info, snap_of(snapshot)),
{
    let (files, bytes, estimate) = match snapshot {
        Some(s) => (s.progress.scanned_files, s.progress.scanned_bytes, s.progress.total_bytes_estimate),
        None => (0, 0, None),
    };
    let tag = match &info.tag {
        Some(t) => Some(copy_text(t)),
        None => None,
    };
    SurfStatusResult {
        task_id: text_of(task_id),
        state: info.state,
        scanned_files: files,
        scanned_bytes: bytes,
        total_bytes_estimate: estimate,
        started_at: info.started_at,
        updated_at: info.updated_at,
        tag,
    }
}

/// The snapshot listed for `task_id`, if any.
fn snapshot_for<'a>(snapshots: &'a Vec<(String, StatusSnapshot)>, task_id: &str) -> (r: Option<&'a StatusSnapshot>)
    ensures
        snapshot_in(snapshots@, task_id@, snap_of(r)),
{
    let mut i: usize = 0;
    while i < snapshots.len()
        invariant
            i <= snapshots@.len(),
            forall|j: int| 0 <= j < i ==> (#[trigger] snapshots@[j]).0@ != task_id@,
        decreases snapshots@.len() - i,
    {
        if text_equal(&snapshots[i].0, task_id) {
            assert(snapshots@[i as int].0@ == task_id@);
            return Some(&snapshots[i].1);
        }
        i = i + 1;
    }
    None
}

/// The status report of task `task_id`, with the lazy state advance: a running task whose
/// engine snapshot says the walk has ended is first recorded as completed, or failed when
/// the walk reported an error, and reported in that state; otherwise the record is kept
/// and reported as it is. `None` for an unknown task.
pub fn from_task_info(mgr: &mut TaskManager, task_id: &str, snapshot: Option<&StatusSnapshot>, now: u64) -> (r: Option<SurfStatusResult>)
    requires
        old(mgr).wf(),
    ensures
        final(mgr).wf(),
        final(mgr).tasks@.len() == old(mgr).tasks@.len(),
        final(mgr).next_id == old(mgr).next_id,
        match old(mgr).index_of(task_id@) {
            None => r is None && final(mgr).tasks@ == old(mgr).tasks@,
            Some(j) => {
                let before = old(mgr).tasks@[j].info;
                let next = match snapshot {
                    Some(s) => observed_state(before.state, s.done, s.error is Some),
                    None => before.state,
                };
                &&& r is Some
                &&& r->0.state == next
                &&& final(mgr).tasks@[j].info.state == next
                &&& reports(r->0, task_id@, final(mgr).tasks@[j].info, snap_of(snapshot))
                &&& observed_record(final(mgr).tasks@[j].info, before, snap_of(snapshot), now)
                &&& forall|i: int| 0 <= i < final(mgr).tasks@.len() && i != j ==> final(mgr).tasks@[i] == old(mgr).tasks@[i]
                &&& final(mgr).tasks@[j].id == old(mgr).tasks@[j].id
            },
        },
{
    let info = match mgr.get_task_info(task_id) {
        Some(i) => i,
        None => {
            return None;
        },
    };
    let advanced = match snapshot {
        Some(s) => crate::tasks::advance_state(info.state, s),
        None => info.state,
    };
    if advanced != info.state {
        match mgr.update_task_state(task_id, advanced, now) {
            Some((_, updated)) => Some(status_report(task_id, &updated, snapshot)),
            None => None,
        }
    } else {
        Some(status_report(task_id, &info, snapshot))
    }
}

/// `Surf.Status` for one task.
pub fn handle_status_one(mgr: &mut TaskManager, task_id: &str, snapshots: &Vec<(String, StatusSnapshot)>, now: u64) -> (r: RpcOutcome)
    requires
        old(mgr).wf(),
    ensures
        final(mgr).wf(),
        final(mgr).tasks@.len() == old(mgr).tasks@.len(),
        match old(mgr).index_of(task_id@) {
            None => r is Error && not_found_error(r->Error_0, task_id@) && final(mgr).tasks@ == old(mgr).tasks@,
            Some(j) => r is Status && exists|snap: Option<StatusSnapshot>| snapshot_in(snapshots@, task_id@, snap)
                && reports(r->Status_0, task_id@, final(mgr).tasks@[j].info, snap)
                && observed_record(final(mgr).tasks@[j].info, old(mgr).tasks@[j].info, snap, now)
                && final(mgr).tasks@[j].id == old(mgr).tasks@[j].id
                && forall|i: int| 0 <= i < final(mgr).tasks@.len() && i != j ==> final(mgr).tasks@[i] == old(mgr).tasks@[i],
        },
{
    let snapshot = snapshot_for(snapshots, task_id);
    match from_task_info(mgr, task_id, snapshot, now) {
        Some(s) => {
            assert(snapshot_in(snapshots@, task_id@, snap_of(snapshot)));
            RpcOutcome::Status(s)
        },
        None => {
            let text = concat_str("task_id not found: ", task_id);
            RpcOutcome::Error(JsonRpcError::task_not_found(Some(text)))
        },
    }
}

/// Records what each of `snapshots` says of its task.
fn observe_all(mgr: &mut TaskManager, snapshots: &Vec<(String, StatusSnapshot)>, now: u64)
    requires
        old(mgr).wf(),
    ensures
        final(mgr).wf(),
        final(mgr).next_id == old(mgr).next_id,
        final(mgr).tasks@.len() == old(mgr).tasks@.len(),
        forall|j: int| 0 <= j < final(mgr).tasks@.len() ==> (#[trigger] final(mgr).tasks@[j]).id == old(mgr).tasks@[j].id
            && advanced_by(final(mgr).tasks@[j].info.state, old(mgr).tasks@[j], snapshots@),
{
    let mut k: usize = 0;
    while k < snapshots.len()
        invariant
            mgr.wf(),
            k <= snapshots@.len(),
            mgr.next_id == old(mgr).next_id,
            mgr.tasks@.len() == old(mgr).tasks@.len(),
            forall|j: int| 0 <= j < mgr.tasks@.len() ==> (#[trigger] mgr.tasks@[j]).id == old(mgr).tasks@[j].id
                && advanced_by(mgr.tasks@[j].info.state, old(mgr).tasks@[j], snapshots@.take(k as int)),
        decreases snapshots@.len() - k,
    {
        let ghost before = mgr.tasks@;
        proof {
            assert forall|j: int| 0 <= j < before.len() implies advanced_by(before[j].info.state, old(mgr).tasks@[j],
                snapshots@.take(k + 1)) by {
                let w = snapshots@.take(k as int);
                let w2 = snapshots@.take(k + 1);
                if before[j].info.state != old(mgr).tasks@[j].info.state {
                    let i = choose|i: int| 0 <= i < w.len() && crate::tasks::names((#[trigger] w[i]).0@, old(mgr).tasks@[j].id)
                        && before[j].info.state == observed_state(old(mgr).tasks@[j].info.state, w[i].1.done, w[i].1.error is Some);
                    assert(w2[i] == w[i]);
                }
            }
        }
        let _ = from_task_info(mgr, snapshots[k].0.as_str(), Some(&snapshots[k].1), now);
        proof {
            let w2 = snapshots@.take(k + 1);
            assert(w2[k as int] == snapshots@[k as int]);
            assert forall|j: int| 0 <= j < mgr.tasks@.len() implies (#[trigger] mgr.tasks@[j]).id == old(mgr).tasks@[j].id
                && advanced_by(mgr.tasks@[j].info.state, old(mgr).tasks@[j], w2) by {
                if mgr.tasks@[j] != before[j] {
                    let o = old(mgr).tasks@[j].info.state;
                    if before[j].info.state == o {
                        assert(crate::tasks::names(w2[k as int].0@, old(mgr).tasks@[j].id));
                    }
                }
            }
        }
        k = k + 1;
    }
    assert(snapshots@.take(snapshots@.len() as int) =~= snapshots@);
}

/// `Surf.Status` without a task: first records what the snapshots say of every task, then
/// reports the queued and running ones. Terminal tasks are never listed.
#[verifier::rlimit(100)]
pub fn handle_status_all(mgr: &mut TaskManager, snapshots: &Vec<(String, StatusSnapshot)>, now: u64) -> (r: Vec<SurfStatusResult>)
    requires
        old(mgr).wf(),
    ensures
        final(mgr).wf(),
        forall|i: int| 0 <= i < r@.len() ==> !(#[trigger] r@[i]).state.is_terminal(),
        forall|i: int| 0 <= i < r@.len() ==> exists|j: int| 0 <= j < final(mgr).tasks@.len()
            && crate::tasks::names((#[trigger] r@[i]).task_id@, final(mgr).tasks@[j].id)
            && r@[i].state == final(mgr).tasks@[j].info.state,
        forall|j: int| 0 <= j < final(mgr).tasks@.len() && !(#[trigger] final(mgr).tasks@[j]).info.state.is_terminal()
            ==> exists|i: int| 0 <= i < r@.len() && crate::tasks::names(r@[i].task_id@, final(mgr).tasks@[j].id),
        final(mgr).next_id == old(mgr).next_id,
        final(mgr).tasks@.len() == old(mgr).tasks@.len(),
        forall|j: int| 0 <= j < final(mgr).tasks@.len() ==> (#[trigger] final(mgr).tasks@[j]).id == old(mgr).tasks@[j].id
            && advanced_by(final(mgr).tasks@[j].info.state, old(mgr).tasks@[j], snapshots@),
{
    observe_all(mgr, snapshots, now);
    let listed = mgr.list_non_terminated_tasks();
    let out = report_listed(&listed, snapshots);
    proof {
        assert forall|a: int| 0 <= a < out@.len() implies exists|j: int| 0 <= j < mgr.tasks@.len()
            && crate::tasks::names((#[trigger] out@[a]).task_id@, mgr.tasks@[j].id)
            && out@[a].state == mgr.tasks@[j].info.state by {
            assert(crate::tasks::listed_from(listed@[a], mgr.tasks@));
        }
        assert forall|j: int| 0 <= j < mgr.tasks@.len() && !(#[trigger] mgr.tasks@[j]).info.state.is_terminal()
            implies exists|a: int| 0 <= a < out@.len() && crate::tasks::names(out@[a].task_id@, mgr.tasks@[j].id) by {
            let a = choose|a: int| 0 <= a < listed@.len() && crate::tasks::names(listed@[a].0@, mgr.tasks@[j].id);
            assert(out@[a].task_id@ == listed@[a].0@);
        }
    }
    out
}

/// The status reports of listed tasks, each with its snapshot when one is given.
fn report_listed(listed: &Vec<(String, TaskInfo)>, snapshots: &Vec<(String, StatusSnapshot)>) -> (out: Vec<SurfStatusResult>)
    ensures
        out@.len() == listed@.len(),
        forall|a: int| 0 <= a < out@.len() ==> (#[trigger] out@[a]).task_id@ == listed@[a].0@ && out@[a].state == listed@[a].1.state,
{
    let mut out: Vec<SurfStatusResult> = Vec::new();
    let mut i: usize = 0;
    while i < listed.len()
        invariant
            i <= listed@.len(),
            out@.len() == i,
            forall|a: int| 0 <= a < i ==> (#[trigger] out@[a]).task_id@ == listed@[a].0@ && out@[a].state == listed@[a].1.state,
        decreases listed@.len() - i,
    {
        let snapshot = snapshot_for(snapshots, listed[i].0.as_str());
        let s = status_report(listed[i].0.as_str(), &listed[i].1, snapshot);
        out.push(s);
        i = i + 1;
    }
    out
}

/// A task's state after status queries observed it with `snapshots`: as it was, or as
/// `observed_state` makes it from one of the snapshots listed for the task.
pub open spec fn advanced_by(state: TaskState, before: crate::tasks::TaskRecord, snapshots: Seq<(String, StatusSnapshot)>) -> bool {
    state == before.info.state || exists|i: int| 0 <= i < snapshots.len()
        && crate::tasks::names((#[trigger] snapshots[i]).0@, before.id)
        && state == observed_state(before.info.state, snapshots[i].1.done, snapshots[i].1.error is Some)
}

/// `Surf.Cancel`: returns the outcome and whether the task's scan must be told to stop.
pub fn handle_cancel(mgr: &mut TaskManager, task_id: &str, now: u64) -> (r: (RpcOutcome, bool))
    requires
        old(mgr).wf(),
    ensures
        final(mgr).wf(),
        match old(mgr).index_of(task_id@) {
            None => r.0 is Error && not_found_error(r.0->Error_0, task_id@) && !r.1
                && final(mgr).tasks@ == old(mgr).tasks@,
            Some(j) => {
                let before = old(mgr).tasks@[j].info;
                &&& r.0 is Cancel
                &&& r.0->Cancel_0.task_id@ == task_id@
                &&& r.0->Cancel_0.previous_state == before.state
                &&& r.0->Cancel_0.current_state == crate::tasks::cancelled_state(before.state)
                &&& final(mgr).tasks@[j].info.state == crate::tasks::cancelled_state(before.state)
                &&& r.1 == (!before.state.is_terminal() && before.has_handle)
            },
        },
{
    match mgr.cancel_task(task_id, now) {
        Some((previous, info, stop)) => (
            RpcOutcome::Cancel(SurfCancelResult {
                task_id: text_of(task_id),
                previous_state: previous,
                current_state: info.state,
            }),
            stop,
        ),
        None => {
            let text = concat_str("task_id not found: ", task_id);
            (RpcOutcome::Error(JsonRpcError::task_not_found(Some(text))), false)
        },
    }
}

pub open spec fn entries_total(s: Seq<crate::engine::FileEntry>) -> nat {
    crate::engine::sum_sizes(s)
}

/// A `mode` that `Surf.GetResults` serves: none, or `flat` or `summary` in any case.
pub open spec fn mode_ok(mode: Option<String>) -> bool {
    match mode {
        Some(m) => crate::scan::lower_of(m@) == "flat"@ || crate::scan::lower_of(m@) == "summary"@,
        None => true,
    }
}

/// `Surf.GetResults`: the mode must be `flat` or `summary` (in any case), the task must
/// exist and be completed. `results`, when the caller has them, are the task's entries;
/// the count and total cover them all, the list is cut to the requested limit.
pub fn handle_get_results(mgr: &TaskManager, params: &SurfGetResultsParams, results: Option<&Vec<crate::engine::FileEntry>>) -> (r: RpcOutcome)
    requires
        mgr.wf(),
    ensures
        !mode_ok(params.mode) ==> r is Error && r->Error_0.code == INVALID_PARAMS && r->Error_0.data is Some
            && r->Error_0.data->0@ == "unsupported mode for Surf.GetResults: "@ + params.mode->0@,
        mode_ok(params.mode) && mgr.index_of(params.task_id@) is None ==> r is Error
            && not_found_error(r->Error_0, params.task_id@),
        mode_ok(params.mode) && mgr.index_of(params.task_id@) is Some
            && mgr.tasks@[mgr.index_of(params.task_id@)->0].info.state != TaskState::Completed ==> r is Error
            && r->Error_0.code == INVALID_PARAMS && r->Error_0.data is Some && r->Error_0.data->0@
                == "task is not in completed state (current: "@ + mgr.tasks@[mgr.index_of(params.task_id@)->0].info.state.name() + ")"@,
        mode_ok(params.mode) && mgr.index_of(params.task_id@) is Some
            && mgr.tasks@[mgr.index_of(params.task_id@)->0].info.state == TaskState::Completed ==> r is Results
            && r->Results_0.state == TaskState::Completed
            && r->Results_0.task_id@ == params.task_id@
            && r->Results_0.path@ == mgr.tasks@[mgr.index_of(params.task_id@)->0].info.path@,
        r is Results && results is Some ==> r->Results_0.total_files == results->0@.len()
            && r->Results_0.total_bytes == (if entries_total(results->0@) <= u64::MAX {
                entries_total(results->0@)
            } else {
                u64::MAX as nat
            })
            && r->Results_0.entries@.len() == (match params.limit {
                Some(l) => if l < results->0@.len() { l as int } else { results->0@.len() as int },
                None => results->0@.len() as int,
            })
            && forall|i: int| 0 <= i < r->Results_0.entries@.len() ==> (#[trigger] r->Results_0.entries@[i]).path@
                == results->0@[i].path@ && r->Results_0.entries@[i].size == results->0@[i].size,
        r is Results && results is None ==> r->Results_0.total_files == 0 && r->Results_0.total_bytes == 0
            && r->Results_0.entries@.len() == 0,
{
    if let Some(mode) = &params.mode {
        let lower = crate::scan::lowercase_text(mode.as_str());
        if !(text_equal(&lower, "flat") || text_equal(&lower, "summary")) {
            let text = concat_str("unsupported mode for Surf.GetResults: ", mode.as_str());
            return RpcOutcome::Error(JsonRpcError::invalid_params(Some(text)));
        }
    }
    let info = match mgr.get_task_info(params.task_id.as_str()) {
        Some(i) => i,
        None => {
            let text = concat_str("task_id not found: ", params.task_id.as_str());
            return RpcOutcome::Error(JsonRpcError::task_not_found(Some(text)));
        },
    };
    if info.state != TaskState::Completed {
        let text = concat_str(concat_str("task is not in completed state (current: ", info.state.as_str()).as_str(), ")");
        return RpcOutcome::Error(JsonRpcError::invalid_params(Some(text)));
    }
    let (total_files, total_bytes, entries) = match results {
        None => (0u64, 0u64, Vec::new()),
        Some(all) => {
            let keep: usize = match params.limit {
                Some(l) => if l < all.len() { l } else { all.len() },
                None => all.len(),
            };
            let mut bytes: u64 = 0;
            let mut out: Vec<crate::engine::FileEntry> = Vec::new();
            let mut i: usize = 0;
            while i < all.len()
                invariant
                    i <= all@.len(),
                    keep <= all@.len(),
                    out@.len() == (if i < keep { i } else { keep }),
                    forall|j: int| 0 <= j < out@.len() ==> (#[trigger] out@[j]).path@ == all@[j].path@ && out@[j].size == all@[j].size,
                    bytes == (if entries_total(all@.take(i as int)) <= u64::MAX {
                        entries_total(all@.take(i as int))
                    } else {
                        u64::MAX as nat
                    }),
                decreases all@.len() - i,
            {
                assert(all@.take(i + 1).drop_last() =~= all@.take(i as int));
                bytes = bytes.saturating_add(all[i].size);
                if i < keep {
                    out.push(crate::engine::FileEntry { path: copy_text(&all[i].path), size: all[i].size });
                }
                i = i + 1;
            }
            assert(all@.take(all@.len() as int) =~= all@);
            (all.len() as u64, bytes, out)
        },
    };
    RpcOutcome::Results(SurfGetResultsResult {
        task_id: copy_text(&params.task_id),
        state: TaskState::Completed,
        path: info.path,
        total_files,
        total_bytes,
        entries,
    })
}

} // verus!
