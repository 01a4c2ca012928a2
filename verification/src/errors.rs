//! The error taxonomy of the calling boundary.
//!
//! Exactly two kinds of failure escape the erasure layer: the invoked tool's
//! own failure, wrapped with its description, and a JSON failure for
//! malformed argument text or arguments of the wrong shape.  The registry
//! adds one more: the requested name has no entry.

use vstd::prelude::*;
use vstd::string::*;

use crate::parser::JsonError;

verus! {

/// A failure at the type-erasure boundary of one tool.
#[derive(Debug)]
pub enum ToolError {
    /// The tool ran and failed; carries the description of its own error.
    ToolCallError(String),
    /// The argument text was not valid JSON, or did not fit the tool's
    /// argument type.
    JsonError(JsonError),
}

impl ToolError {
    /// A one-line description of the failure.
    pub fn text(&self) -> (r: String)
        ensures
            match self {
                ToolError::ToolCallError(m) => r@ == "ToolCallError: "@ + m@,
                ToolError::JsonError(e) => r@ == "JsonError: "@ + e.message@,
            },
    {
        match self {
            ToolError::ToolCallError(m) => {
                let mut s = String::from_str("ToolCallError: ");
                s.append(m.as_str());
                s
            },
            ToolError::JsonError(e) => {
                let mut s = String::from_str("JsonError: ");
                s.append(e.message.as_str());
                s
            },
        }
    }
}

/// A failure of a registry call.
#[derive(Debug)]
pub enum ToolSetError {
    /// The named tool was found and its invocation failed.
    ToolCallError(ToolError),
    /// No tool is registered under the requested name.
    ToolNotFoundError(String),
    /// A document could not be produced because a definition could not be
    /// serialized.  The serializer of this library is total, so the registry
    /// never produces this variant; it remains part of the taxonomy callers
    /// match on.
    JsonError(JsonError),
}

impl ToolSetError {
    /// A one-line description of the failure.
    pub fn text(&self) -> (r: String)
        ensures
            match self {
                ToolSetError::ToolCallError(e) => r@ == "ToolCallError: "@ + (match e {
                    ToolError::ToolCallError(m) => "ToolCallError: "@ + m@,
                    ToolError::JsonError(je) => "JsonError: "@ + je.message@,
                }),
                ToolSetError::ToolNotFoundError(n) => r@ == "ToolNotFoundError: "@ + n@,
                ToolSetError::JsonError(e) => r@ == "JsonError: "@ + e.message@,
            },
    {
        match self {
            ToolSetError::ToolCallError(e) => {
                let mut s = String::from_str("ToolCallError: ");
                let inner = e.text();
                s.append(inner.as_str());
                s
            },
            ToolSetError::ToolNotFoundError(n) => {
                let mut s = String::from_str("ToolNotFoundError: ");
                s.append(n.as_str());
                s
            },
            ToolSetError::JsonError(e) => {
                let mut s = String::from_str("JsonError: ");
                s.append(e.message.as_str());
                s
            },
        }
    }
}

} // verus!
