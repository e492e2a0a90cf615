//! The JSON-RPC data model.
//!
//! Requests and responses keep their `id` as the raw JSON text it arrived
//! with, so the proxy can hand it back verbatim. `params`, `result` and
//! error `data` are likewise carried as raw JSON text: the boundary that
//! parses and prints whole documents decodes them; the library only
//! assembles, routes and re-frames them.

use vstd::prelude::*;

verus! {

/// The default protocol version: inserted when a request arrives without
/// a `jsonrpc` field.
pub fn default_jsonrpc() -> (r: String)
    ensures
        r@ == "2.0"@,
{
    "2.0".to_owned()
}

/// One JSON-RPC request. `id` is raw JSON text, preserved byte for byte;
/// `params` is the raw JSON text of the params value, if any.
#[derive(Clone, Debug, PartialEq)]
pub struct JsonRpcRequest {
    pub jsonrpc: String,
    pub id: String,
    pub method: String,
    pub params: Option<String>,
}

/// Requests can come in multiple formats: one object, or an array of
/// them. A batch keeps every slot: a well-parsed element as the request,
/// a malformed one as its parse error, so the slot can be answered with
/// an error object while the other slots are unaffected.
#[derive(Clone, Debug, PartialEq)]
pub enum JsonRpcRequestEnum {
    Batch(Vec<Result<JsonRpcRequest, JsonRpcParseError>>),
    Single(JsonRpcRequest),
}

/// All JSON-RPC errors use this structure. `data` is raw JSON text.
#[derive(Clone, Debug, PartialEq)]
pub struct JsonRpcErrorData {
    /// The error code
    pub code: i64,
    /// The error message
    pub message: String,
    /// Additional data
    pub data: Option<String>,
}

/// A complete response. Exactly one of `result` and `error` is set by the
/// constructors below; `result` is raw JSON text.
#[derive(Clone, Debug, PartialEq)]
pub struct JsonRpcForwardedResponse {
    pub jsonrpc: String,
    pub id: String,
    pub result: Option<String>,
    pub error: Option<JsonRpcErrorData>,
}

/// JSON-RPC responses can include one or many response objects.
#[derive(Clone, Debug)]
pub enum JsonRpcForwardedResponseEnum {
    Single(JsonRpcForwardedResponse),
    Batch(Vec<JsonRpcForwardedResponse>),
}

/// The error code reported when a caller gives none.
pub const DEFAULT_ERROR_CODE: i64 = -32099;

/// The code for a backend failure that carries no JSON-RPC error object.
pub const INTERNAL_ERROR_CODE: i64 = -32603;

/// The code for a request the proxy could not read.
pub const INVALID_REQUEST_CODE: i64 = -32600;

/// What a backend JSON-RPC client reported, once the transport layer has
/// peeled its own error type apart: either an authoritative JSON-RPC
/// error object from upstream, or some other client-side failure
/// described by a message.
#[derive(Clone, Debug, PartialEq)]
pub enum ClientError {
    JsonRpcError(JsonRpcErrorData),
    Other(String),
}

/// A backend provider's error: a JSON-RPC client error, or any other
/// provider-level failure described by a message.
#[derive(Clone, Debug, PartialEq)]
pub enum ProviderError {
    JsonRpcClientError(ClientError),
    Other(String),
}

impl JsonRpcErrorData {
    /// A field-for-field copy, known to equal the original.
    pub fn duplicate(&self) -> (r: Self)
        ensures
            r == *self,
    {
        JsonRpcErrorData {
            code: self.code,
            message: self.message.clone(),
            data: match &self.data {
                Some(d) => Some(d.clone()),
                None => None,
            },
        }
    }
}

impl ProviderError {
    /// A field-for-field copy, known to equal the original.
    pub fn duplicate(&self) -> (r: Self)
        ensures
            r == *self,
    {
        match self {
            ProviderError::JsonRpcClientError(ClientError::JsonRpcError(d)) => {
                ProviderError::JsonRpcClientError(ClientError::JsonRpcError(d.duplicate()))
            },
            ProviderError::JsonRpcClientError(ClientError::Other(m)) => {
                ProviderError::JsonRpcClientError(ClientError::Other(m.clone()))
            },
            ProviderError::Other(m) => ProviderError::Other(m.clone()),
        }
    }
}

impl JsonRpcForwardedResponse {
    /// An error response built from a plain message. When `id` is absent
    /// the JSON `null` id is used; when `code` is absent the default code
    /// is used.
    pub fn from_string(message: String, code: Option<i64>, id: Option<String>) -> (r: Self)
        ensures
            r.jsonrpc@ == "2.0"@,
            r.id@ == match id {
                Some(i) => i@,
                None => "null"@,
            },
            r.result is None,
            r.error matches Some(e) && e.code == match code {
                Some(c) => c,
                None => DEFAULT_ERROR_CODE,
            } && e.message == message && e.data is None,
    {
        JsonRpcForwardedResponse {
            jsonrpc: "2.0".to_owned(),
            id: match id {
                Some(i) => i,
                None => "null".to_owned(),
            },
            result: None,
            error: Some(JsonRpcErrorData {
                code: match code {
                    Some(c) => c,
                    None => DEFAULT_ERROR_CODE,
                },
                message,
                data: None,
            }),
        }
    }

    /// The error response owed for a request that could not be read: the
    /// invalid-request code, the parse error's description, and the null
    /// id (the malformed request's own id is not trusted).
    pub fn from_parse_error(e: JsonRpcParseError) -> (r: Self)
        ensures
            r.jsonrpc@ == "2.0"@,
            r.id@ == "null"@,
            r.result is None,
            r.error matches Some(err) && err.code == INVALID_REQUEST_CODE && err.message@
                == spec_parse_error_message(e) && err.data is None,
    {
        Self::from_str(e.description(), Some(INVALID_REQUEST_CODE), None)
    }

    /// An error response built from a borrowed message.
    pub fn from_str(message: &str, code: Option<i64>, id: Option<String>) -> (r: Self)
        ensures
            r.jsonrpc@ == "2.0"@,
            r.id@ == match id {
                Some(i) => i@,
                None => "null"@,
            },
            r.result is None,
            r.error matches Some(e) && e.code == match code {
                Some(c) => c,
                None => DEFAULT_ERROR_CODE,
            } && e.message@ == message@ && e.data is None,
    {
        Self::from_string(message.to_owned(), code, id)
    }

    /// A success response wrapping a backend's raw result, under the
    /// caller's id.
    pub fn from_response(partial_response: String, id: String) -> (r: Self)
        ensures
            r.jsonrpc@ == "2.0"@,
            r.id == id,
            r.result == Some(partial_response),
            r.error is None,
    {
        JsonRpcForwardedResponse {
            jsonrpc: "2.0".to_owned(),
            id,
            result: Some(partial_response),
            error: None,
        }
    }

    /// A response carrying an upstream JSON-RPC error object verbatim: the
    /// upstream error is authoritative and is not retried. Any other
    /// provider failure is handed back to the caller to retry elsewhere.
    pub fn from_ethers_error(e: ProviderError, id: String) -> (r: Result<Self, ProviderError>)
        ensures
            match e {
                ProviderError::JsonRpcClientError(ClientError::JsonRpcError(d)) => r
                    matches Ok(resp) && resp.jsonrpc@ == "2.0"@ && resp.id == id && resp.result
                    is None && resp.error == Some(d),
                _ => r == Err::<Self, ProviderError>(e),
            },
    {
        match e {
            ProviderError::JsonRpcClientError(ClientError::JsonRpcError(d)) => Ok(
                JsonRpcForwardedResponse {
                    jsonrpc: "2.0".to_owned(),
                    id,
                    result: None,
                    error: Some(d),
                },
            ),
            other => Err(other),
        }
    }

    /// A backend call's outcome turned into a response: a result is
    /// wrapped under the caller's id, an upstream JSON-RPC error object is
    /// copied verbatim, and any other failure is handed back.
    pub fn try_from_response_result(result: Result<String, ProviderError>, id: String) -> (r:
        Result<Self, ProviderError>)
        ensures
            match result {
                Ok(partial) => r matches Ok(resp) && resp.jsonrpc@ == "2.0"@ && resp.id == id
                    && resp.result == Some(partial) && resp.error is None,
                Err(ProviderError::JsonRpcClientError(ClientError::JsonRpcError(d))) => r
                    matches Ok(resp) && resp.jsonrpc@ == "2.0"@ && resp.id == id && resp.result
                    is None && resp.error == Some(d),
                Err(e) => r == Err::<Self, ProviderError>(e),
            },
    {
        match result {
            Ok(response) => Ok(Self::from_response(response, id)),
            Err(e) => Self::from_ethers_error(e, id),
        }
    }

    /// A success response from an already-serialized JSON value.
    pub fn from_value(partial_response: String, id: String) -> (r: Self)
        ensures
            r.jsonrpc@ == "2.0"@,
            r.id == id,
            r.result == Some(partial_response),
            r.error is None,
    {
        Self::from_response(partial_response, id)
    }
}

/// One field of a JSON-RPC request object, as the boundary decodes it:
/// `jsonrpc` and `method` carry their decoded string values, `id` and
/// `params` the raw JSON text of their values, and a field name outside
/// the protocol is `Unknown`.
#[derive(Clone, Debug, PartialEq)]
pub enum RequestField {
    JsonRpc(String),
    Id(String),
    Method(String),
    Params(String),
    Unknown,
}

/// Why a request object was rejected.
#[derive(Clone, Copy, Debug, PartialEq, Eq, Structural)]
pub enum JsonRpcParseError {
    DuplicateId,
    DuplicateMethod,
    DuplicateParams,
    MissingId,
    MissingMethod,
    UnknownField,
    /// The request was not a well-formed JSON object at all.
    Malformed,
}

/// What a parse-error response reports for each way a request can be
/// malformed.
pub open spec fn spec_parse_error_message(e: JsonRpcParseError) -> Seq<char> {
    match e {
        JsonRpcParseError::DuplicateId => "duplicate field `id`"@,
        JsonRpcParseError::DuplicateMethod => "duplicate field `method`"@,
        JsonRpcParseError::DuplicateParams => "duplicate field `params`"@,
        JsonRpcParseError::MissingId => "missing field `id`"@,
        JsonRpcParseError::MissingMethod => "missing field `method`"@,
        JsonRpcParseError::UnknownField => "unknown field"@,
        JsonRpcParseError::Malformed => "invalid request"@,
    }
}

impl JsonRpcParseError {
    /// What went wrong, in words.
    pub fn description(&self) -> (r: &'static str)
        ensures
            r@ == spec_parse_error_message(*self),
    {
        match self {
            JsonRpcParseError::DuplicateId => "duplicate field `id`",
            JsonRpcParseError::DuplicateMethod => "duplicate field `method`",
            JsonRpcParseError::DuplicateParams => "duplicate field `params`",
            JsonRpcParseError::MissingId => "missing field `id`",
            JsonRpcParseError::MissingMethod => "missing field `method`",
            JsonRpcParseError::UnknownField => "unknown field",
            JsonRpcParseError::Malformed => "invalid request",
        }
    }
}

/// The fields collected by walking a request object front to back:
/// `jsonrpc` may repeat (the last one wins), the other known fields may
/// not, and an unknown field rejects the object. The first offence in
/// stream order decides the error.
pub open spec fn spec_fold_fields(fields: Seq<RequestField>) -> Result<
    (Option<String>, Option<String>, Option<String>, Option<String>),
    JsonRpcParseError,
>
    decreases fields.len(),
{
    if fields.len() == 0 {
        Ok((None, None, None, None))
    } else {
        match spec_fold_fields(fields.drop_last()) {
            Err(e) => Err(e),
            Ok((j, i, m, p)) => match fields.last() {
                RequestField::JsonRpc(s) => Ok((Some(s), i, m, p)),
                RequestField::Id(s) => if i is Some {
                    Err(JsonRpcParseError::DuplicateId)
                } else {
                    Ok((j, Some(s), m, p))
                },
                RequestField::Method(s) => if m is Some {
                    Err(JsonRpcParseError::DuplicateMethod)
                } else {
                    Ok((j, i, Some(s), p))
                },
                RequestField::Params(s) => if p is Some {
                    Err(JsonRpcParseError::DuplicateParams)
                } else {
                    Ok((j, i, m, Some(s)))
                },
                RequestField::Unknown => Err(JsonRpcParseError::UnknownField),
            },
        }
    }
}

impl JsonRpcRequest {
    /// A field-for-field copy, known to equal the original.
    pub fn duplicate(&self) -> (r: Self)
        ensures
            r == *self,
    {
        JsonRpcRequest {
            jsonrpc: self.jsonrpc.clone(),
            id: self.id.clone(),
            method: self.method.clone(),
            params: match &self.params {
                Some(p) => Some(p.clone()),
                None => None,
            },
        }
    }

    /// Assemble one request from a request object's fields, walked front
    /// to back. `jsonrpc` defaults to "2.0" when absent (some providers
    /// drop it); `id` and `method` are required; absent `params` becomes
    /// the empty array.
    pub fn from_fields(fields: &Vec<RequestField>) -> (r: Result<Self, JsonRpcParseError>)
        ensures
            match spec_fold_fields(fields@) {
                Err(e) => r == Err::<Self, JsonRpcParseError>(e),
                Ok((j, i, m, p)) => match (i, m) {
                    (Option::None, _) => r == Err::<Self, JsonRpcParseError>(
                        JsonRpcParseError::MissingId,
                    ),
                    (Option::Some(_), Option::None) => r == Err::<Self, JsonRpcParseError>(
                        JsonRpcParseError::MissingMethod,
                    ),
                    (Option::Some(iv), Option::Some(mv)) => r matches Ok(req) && req.jsonrpc@
                        == (match j {
                        Option::Some(x) => x@,
                        Option::None => "2.0"@,
                    }) && req.id == iv && req.method == mv && match p {
                        Option::Some(x) => req.params == Some(x),
                        Option::None => (req.params matches Some(ps) && ps@ == "[]"@),
                    },
                },
            },
    {
        let mut jsonrpc: Option<String> = None;
        let mut id: Option<String> = None;
        let mut method: Option<String> = None;
        let mut params: Option<String> = None;
        let mut k: usize = 0;
        while k < fields.len()
            invariant
                k <= fields@.len(),
                spec_fold_fields(fields@.take(k as int)) == Ok::<_, JsonRpcParseError>(
                    (jsonrpc, id, method, params),
                ),
            decreases fields@.len() - k,
        {
            proof {
                assert(fields@.take(k as int + 1).drop_last() =~= fields@.take(k as int));
                assert(fields@.take(k as int + 1).last() == fields@[k as int]);
            }
            match &fields[k] {
                RequestField::JsonRpc(s) => {
                    jsonrpc = Some(s.clone());
                },
                RequestField::Id(s) => {
                    if id.is_some() {
                        proof {
                            lemma_fold_fields_error(fields@, k as int);
                        }
                        return Err(JsonRpcParseError::DuplicateId);
                    }
                    id = Some(s.clone());
                },
                RequestField::Method(s) => {
                    if method.is_some() {
                        proof {
                            lemma_fold_fields_error(fields@, k as int);
                        }
                        return Err(JsonRpcParseError::DuplicateMethod);
                    }
                    method = Some(s.clone());
                },
                RequestField::Params(s) => {
                    if params.is_some() {
                        proof {
                            lemma_fold_fields_error(fields@, k as int);
                        }
                        return Err(JsonRpcParseError::DuplicateParams);
                    }
                    params = Some(s.clone());
                },
                RequestField::Unknown => {
                    proof {
                        lemma_fold_fields_error(fields@, k as int);
                    }
                    return Err(JsonRpcParseError::UnknownField);
                },
            }
            k += 1;
        }
        proof {
            assert(fields@.take(fields@.len() as int) =~= fields@);
        }
        let id = match id {
            Some(i) => i,
            None => {
                return Err(JsonRpcParseError::MissingId);
            },
        };
        let method = match method {
            Some(m) => m,
            None => {
                return Err(JsonRpcParseError::MissingMethod);
            },
        };
        Ok(
            JsonRpcRequest {
                jsonrpc: match jsonrpc {
                    Some(j) => j,
                    None => "2.0".to_owned(),
                },
                id,
                method,
                params: match params {
                    Some(p) => Some(p),
                    None => Some("[]".to_owned()),
                },
            },
        )
    }
}

/// Once the fold fails at position `k`, it fails the same way on the
/// whole sequence.
proof fn lemma_fold_fields_error(fields: Seq<RequestField>, k: int)
    requires
        0 <= k < fields.len(),
        spec_fold_fields(fields.take(k + 1)) is Err,
    ensures
        spec_fold_fields(fields) == spec_fold_fields(fields.take(k + 1)),
    decreases fields.len() - k,
{
    if k + 1 < fields.len() {
        assert(fields.take(k + 2).drop_last() =~= fields.take(k + 1));
        lemma_fold_fields_error(fields, k + 1);
    } else {
        assert(fields.take(k + 1) =~= fields);
    }
}

} // verus!
