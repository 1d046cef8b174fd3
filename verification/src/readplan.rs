//! Read routing: decide from the decoded query parameters whether a read is
//! a full listing, a lookup by id, or — for documents — a binary download.
//! A failed decode or a missing `id` falls back to the listing; an `id` that
//! is not an integer is rejected.

use vstd::prelude::*;
use crate::codec::{DecodeError, DecodeErrorModel, Params};
use crate::domain::GatewayError;
use crate::text::{parse_i32, parse_i32_spec, str_eq};

verus! {

#[derive(Debug, Clone, Copy, PartialEq, Eq, Structural)]
pub enum ReadPlan {
    ListAll,
    GetOne(i32),
}

#[derive(Debug, Clone, Copy, PartialEq, Eq, Structural)]
pub enum DocReadPlan {
    ListAll,
    GetOne(i32),
    Download(i32),
}

/// The decoded parameters as the routing sees them.
pub open spec fn decode_model(d: Result<Params, DecodeError>) -> Result<
    Map<Seq<char>, Seq<char>>,
    DecodeErrorModel,
> {
    match d {
        Ok(p) => Ok(p@),
        Err(e) => Err(e@),
    }
}

/// The uniform read policy: a decode failure or an absent `id` lists
/// everything; a present `id` must be an integer and names one row.
pub open spec fn plan_read_spec(
    d: Result<Map<Seq<char>, Seq<char>>, DecodeErrorModel>,
) -> Result<ReadPlan, GatewayError> {
    match d {
        Err(_) => Ok(ReadPlan::ListAll),
        Ok(m) => {
            if !m.contains_key("id"@) {
                Ok(ReadPlan::ListAll)
            } else {
                match parse_i32_spec(m["id"@]) {
                    None => Err(GatewayError::InvalidId),
                    Some(v) => Ok(ReadPlan::GetOne(v)),
                }
            }
        },
    }
}

/// The document read policy: `download=true` beside `id` serves the stored
/// bytes instead of the metadata.
pub open spec fn plan_document_read_spec(
    d: Result<Map<Seq<char>, Seq<char>>, DecodeErrorModel>,
) -> Result<DocReadPlan, GatewayError> {
    match d {
        Err(_) => Ok(DocReadPlan::ListAll),
        Ok(m) => {
            if m.contains_key("id"@) && m.contains_key("download"@) && m["download"@]
                == "true"@ {
                match parse_i32_spec(m["id"@]) {
                    None => Err(GatewayError::InvalidId),
                    Some(v) => Ok(DocReadPlan::Download(v)),
                }
            } else if m.contains_key("id"@) {
                match parse_i32_spec(m["id"@]) {
                    None => Err(GatewayError::InvalidId),
                    Some(v) => Ok(DocReadPlan::GetOne(v)),
                }
            } else {
                Ok(DocReadPlan::ListAll)
            }
        },
    }
}

/// Route a decoded query string for the list-or-get endpoints.
pub fn plan_read(d: &Result<Params, DecodeError>) -> (r: Result<ReadPlan, GatewayError>)
    requires
        (*d matches Ok(p) ==> p.wf()),
    ensures
        r == plan_read_spec(decode_model(*d)),
{
    match d {
        Err(_) => Ok(ReadPlan::ListAll),
        Ok(p) => {
            match p.get("id") {
                None => Ok(ReadPlan::ListAll),
                Some(s) => {
                    match parse_i32(s.as_str()) {
                        None => Err(GatewayError::InvalidId),
                        Some(v) => Ok(ReadPlan::GetOne(v)),
                    }
                },
            }
        },
    }
}

/// Route a decoded query string for the document endpoint.
pub fn plan_document_read(d: &Result<Params, DecodeError>) -> (r: Result<
    DocReadPlan,
    GatewayError,
>)
    requires
        (*d matches Ok(p) ==> p.wf()),
    ensures
        r == plan_document_read_spec(decode_model(*d)),
{
    match d {
        Err(_) => Ok(DocReadPlan::ListAll),
        Ok(p) => {
            let id_param = p.get("id");
            let wants_download: bool = match p.get("download") {
                Some(v) => str_eq(v.as_str(), "true"),
                None => false,
            };
            match id_param {
                None => Ok(DocReadPlan::ListAll),
                Some(s) => {
                    match parse_i32(s.as_str()) {
                        None => Err(GatewayError::InvalidId),
                        Some(v) => {
                            if wants_download {
                                Ok(DocReadPlan::Download(v))
                            } else {
                                Ok(DocReadPlan::GetOne(v))
                            }
                        },
                    }
                },
            }
        },
    }
}

} // verus!
