//! The tool capability and its type-erased adapters.
//!
//! A tool author implements [`Tool`] with typed arguments, output and error;
//! retrievable tools additionally implement [`ToolEmbedding`].  The calling
//! agent only speaks JSON text, so the registry holds tools behind the
//! erased interfaces [`ToolDyn`] and [`ToolEmbeddingDyn`]; the adapters
//! [`ToolAdapter`] and [`EmbeddingAdapter`] erase any typed tool by
//! deserializing argument text, running the tool, and serializing its
//! output, normalizing every failure to the two erased error kinds.
//!
//! Each capability trait carries spec members that name, at the
//! specification level, what its executable methods return: the tool's
//! name, which definitions it produces for a prompt, and which results its
//! call can yield for given arguments.  The adapters dispatch those
//! members, so the erasure layer is proved to be a pass-through.

use vstd::prelude::*;
use vstd::string::*;

use crate::definition::SpecToolDefinition;
use crate::definition::ToolDefinition;
use crate::errors::ToolError;
use crate::json::Json;
use crate::json::SpecJson;
use crate::json::json_text;
use crate::parser::JsonError;
use crate::parser::parse;
use crate::parser::spec_parse;

verus! {

/// The views of a list of strings.
pub open spec fn strings_view(docs: Seq<String>) -> Seq<Seq<char>> {
    Seq::new(
        docs.len(),
        |i: int|
            if 0 <= i < docs.len() {
                docs[i]@
            } else {
                Seq::empty()
            },
    )
}

/// How a type decodes from a JSON value.  Tool argument and context types
/// implement this; it stands where a reflection-based decoder would in an
/// unverified code base.
pub trait FromJson: Sized {
    /// Which values decode.
    spec fn spec_from_json(j: SpecJson) -> Option<Self>;

    /// What a value decodes to: `decodes_to(j, v)` says that `v` is the
    /// decoding of `j`.
    spec fn decodes_to(j: SpecJson, v: Self) -> bool;

    /// Decode `j`; fails exactly where [`Self::spec_from_json`] is `None`,
    /// and a success is the decoding of `j`.
    fn from_json(j: Json) -> (r: Option<Self>)
        ensures
            r is Some <==> Self::spec_from_json(j@) is Some,
            r matches Some(v) ==> Self::decodes_to(j@, v),
    ;
}

/// How a type encodes to a JSON value.  Tool output and context types
/// implement this.
pub trait ToJson {
    /// The value's JSON form.
    spec fn spec_to_json(&self) -> SpecJson;

    /// Encode the value; encoding is total.
    fn to_json(&self) -> (r: Json)
        ensures
            r@ == self.spec_to_json(),
    ;
}

/// Integers encode as JSON numbers.
impl ToJson for i64 {
    open spec fn spec_to_json(&self) -> SpecJson {
        SpecJson::Int(*self as int)
    }

    fn to_json(&self) -> (r: Json) {
        Json::Int(*self)
    }
}

/// Integers decode from JSON numbers.
impl FromJson for i64 {
    open spec fn spec_from_json(j: SpecJson) -> Option<i64> {
        match j {
            SpecJson::Int(i) => if i64::MIN <= i <= i64::MAX {
                Some(i as i64)
            } else {
                None
            },
            _ => None,
        }
    }

    open spec fn decodes_to(j: SpecJson, v: i64) -> bool {
        Self::spec_from_json(j) == Some(v)
    }

    fn from_json(j: Json) -> (r: Option<i64>) {
        match j {
            Json::Int(i) => Some(i),
            _ => None,
        }
    }
}

/// Booleans encode as JSON booleans.
impl ToJson for bool {
    open spec fn spec_to_json(&self) -> SpecJson {
        SpecJson::Bool(*self)
    }

    fn to_json(&self) -> (r: Json) {
        Json::Bool(*self)
    }
}

/// Booleans decode from JSON booleans.
impl FromJson for bool {
    open spec fn spec_from_json(j: SpecJson) -> Option<bool> {
        match j {
            SpecJson::Bool(b) => Some(b),
            _ => None,
        }
    }

    open spec fn decodes_to(j: SpecJson, v: bool) -> bool {
        Self::spec_from_json(j) == Some(v)
    }

    fn from_json(j: Json) -> (r: Option<bool>) {
        match j {
            Json::Bool(b) => Some(b),
            _ => None,
        }
    }
}

/// Strings encode as JSON strings.
impl ToJson for String {
    open spec fn spec_to_json(&self) -> SpecJson {
        SpecJson::Str(self@)
    }

    fn to_json(&self) -> (r: Json) {
        Json::Str(self.clone())
    }
}

/// Strings decode from JSON strings.  A character sequence does not
/// determine one `String` value at the specification level, so
/// `spec_from_json` fixes an arbitrary one; `decodes_to` pins the decoded
/// value by its characters.
impl FromJson for String {
    open spec fn spec_from_json(j: SpecJson) -> Option<String> {
        match j {
            SpecJson::Str(s) => Some(choose|r: String| r@ == s),
            _ => None,
        }
    }

    open spec fn decodes_to(j: SpecJson, v: String) -> bool {
        j is Str && v@ == j->Str_0
    }

    fn from_json(j: Json) -> (r: Option<String>) {
        match j {
            Json::Str(s) => Some(s),
            _ => None,
        }
    }
}

/// A short description of a tool-specific error, used when the error is
/// wrapped for the erased boundary.
pub trait ErrorText {
    /// The characters of the description.
    spec fn spec_text(&self) -> Seq<char>;

    /// Describe the failure in one line.
    fn text(&self) -> (r: String)
        ensures
            r@ == self.spec_text(),
    ;
}

/// A tool: a named capability with typed arguments, output and error.
/// Implemented by tool authors; the registry never sees these types.
pub trait Tool: Sized {
    /// The arguments type, validated by JSON decoding.
    type Args: FromJson;

    /// The output type, serialized to JSON on success.
    type Output: ToJson;

    /// The tool's own failure type.
    type Error: ErrorText;

    /// The name of the tool: one process-wide identifier per tool type,
    /// independent of any instance.  The registry keys entries by it.
    spec fn spec_name() -> Seq<char>;

    /// Which definition documents the tool may produce for a prompt.
    spec fn definition_ok(&self, prompt: Seq<char>, d: SpecToolDefinition) -> bool;

    /// Which results a call on the given arguments may produce.
    spec fn call_rel(&self, args: Self::Args, r: Result<Self::Output, Self::Error>) -> bool;

    /// The tool's name.  Should be unique.
    fn name(&self) -> (r: String)
        ensures
            r@ == Self::spec_name(),
    ;

    /// The definition document handed to the model.  The prompt may be used
    /// to tailor the definition to the request at hand.
    fn definition(&self, prompt: String) -> (r: ToolDefinition)
        ensures
            self.definition_ok(prompt@, r@),
    ;

    /// Execute the tool.
    fn call(&self, args: Self::Args) -> (r: Result<Self::Output, Self::Error>)
        ensures
            self.call_rel(args, r),
    ;
}

/// A tool that can be stored in a vector index and selected by similarity.
/// Splits what is persisted with the index (`Context`) from the runtime
/// dependencies supplied afresh at reconstruction (`State`).
pub trait ToolEmbedding: Tool {
    /// Failure to revive a persisted tool; distinct from call-time errors.
    type InitError: ErrorText;

    /// Serializable configuration persisted alongside the embeddings.
    type Context: ToJson + FromJson;

    /// Runtime dependencies (clients, credentials) supplied at
    /// reconstruction; never serialized.
    type State;

    /// Which document lists the tool may report for indexing.
    spec fn embedding_docs_ok(&self, docs: Seq<Seq<char>>) -> bool;

    /// Which context snapshots the tool may report.
    spec fn context_ok(&self, c: Self::Context) -> bool;

    /// The texts this tool should be indexed under; empty means the tool is
    /// never retrieved dynamically.
    fn embedding_docs(&self) -> (r: Vec<String>)
        ensures
            self.embedding_docs_ok(strings_view(r@)),
    ;

    /// A snapshot of the tool's persisted configuration.
    fn context(&self) -> (r: Self::Context)
        ensures
            self.context_ok(r),
    ;

    /// Revive a tool from persisted context plus fresh runtime state.
    fn init(state: Self::State, context: Self::Context) -> Result<Self, Self::InitError>;
}

/// The erased calling interface: names, definitions, and JSON text in and
/// out.
pub trait ToolDyn {
    /// The name the erased tool reports.
    spec fn spec_name(&self) -> Seq<char>;

    /// Which definition documents the erased tool may produce for a prompt.
    spec fn definition_ok(&self, prompt: Seq<char>, d: SpecToolDefinition) -> bool;

    /// Which results a call may produce for the given argument text.
    spec fn call_result(&self, args: Seq<char>, r: Result<String, ToolError>) -> bool;

    /// The tool's name.
    fn name(&self) -> (r: String)
        ensures
            r@ == self.spec_name(),
    ;

    /// The definition document handed to the model: what the wrapped tool
    /// produces for this prompt.
    fn definition(&self, prompt: String) -> (r: ToolDefinition)
        ensures
            self.definition_ok(prompt@, r@),
    ;

    /// Invoke the tool on JSON argument text.  Argument text that is not
    /// valid JSON fails with a `JsonError` before any tool logic runs.
    fn call(&self, args: String) -> (r: Result<String, ToolError>)
        ensures
            self.call_result(args@, r),
            spec_parse(args@) is None ==> r matches Err(ToolError::JsonError(_)),
    ;
}

/// The erased interface of a retrievable tool.
pub trait ToolEmbeddingDyn: ToolDyn {
    /// Which JSON values the wrapped tool's context can report and
    /// serialize to.
    spec fn context_ok(&self, j: SpecJson) -> bool;

    /// Which document lists the wrapped tool may report.
    spec fn embedding_docs_ok(&self, docs: Seq<Seq<char>>) -> bool;

    /// The tool's context, erased to a JSON value.
    fn context(&self) -> (r: Json)
        ensures
            self.context_ok(r@),
    ;

    /// The texts this tool should be indexed under.
    fn embedding_docs(&self) -> (r: Vec<String>)
        ensures
            self.embedding_docs_ok(strings_view(r@)),
    ;
}

/// What erased dispatch guarantees, for a tool of type `T`:
/// argument text that is not valid JSON, or whose value does not decode to
/// `T::Args`, fails with `JsonError` and the tool never runs; a failure the
/// tool's own call relation admits on the decoded arguments is wrapped as
/// `ToolCallError` carrying that error's description; and a success is the
/// serialized JSON text of an output the tool's call relation admits on the
/// decoded arguments.
pub open spec fn erased_call_result<T: Tool>(
    tool: &T,
    args: Seq<char>,
    r: Result<String, ToolError>,
) -> bool {
    match spec_parse(args) {
        None => r matches Err(ToolError::JsonError(_)),
        Some(j) => if <T::Args as FromJson>::spec_from_json(j) is None {
            r matches Err(ToolError::JsonError(_))
        } else {
            match r {
                Ok(out) => exists|a: T::Args, o: T::Output|
                    #![trigger tool.call_rel(a, Ok(o))]
                    <T::Args as FromJson>::decodes_to(j, a) && tool.call_rel(a, Ok(o)) && out@
                        == json_text(o.spec_to_json()),
                Err(e) => e matches ToolError::ToolCallError(m) && exists|
                    a: T::Args,
                    e2: T::Error,
                |
                    #![trigger tool.call_rel(a, Err(e2))]
                    <T::Args as FromJson>::decodes_to(j, a) && tool.call_rel(a, Err(e2)) && m@
                        == e2.spec_text(),
            }
        },
    }
}

/// Deserialize, run, serialize: the shared body of the erased adapters.
pub fn dispatch_call<T: Tool>(tool: &T, args: String) -> (r: Result<String, ToolError>)
    ensures
        erased_call_result(tool, args@, r),
        spec_parse(args@) is None ==> r matches Err(ToolError::JsonError(_)),
{
    match parse(args.as_str()) {
        Err(e) => Err(ToolError::JsonError(e)),
        Ok(j) => {
            let ghost gj = j@;
            match <T::Args as FromJson>::from_json(j) {
                None => Err(
                    ToolError::JsonError(
                        JsonError::new(String::from_str("arguments do not fit the tool")),
                    ),
                ),
                Some(a) => {
                    let ghost ga = a;
                    let res = tool.call(a);
                    match res {
                        Err(e) => {
                            let m = e.text();
                            proof {
                                assert(<T::Args as FromJson>::decodes_to(gj, ga)
                                    && tool.call_rel(ga, Err(e)) && m@ == e.spec_text());
                            }
                            Err(ToolError::ToolCallError(m))
                        },
                        Ok(out) => {
                            let oj = out.to_json();
                            let s = oj.to_text();
                            proof {
                                assert(<T::Args as FromJson>::decodes_to(gj, ga)
                                    && tool.call_rel(ga, Ok(out)) && s@ == json_text(
                                    out.spec_to_json(),
                                ));
                            }
                            Ok(s)
                        },
                    }
                },
            }
        },
    }
}

/// Adapts any typed [`Tool`] to the erased [`ToolDyn`] interface.
pub struct ToolAdapter<T: Tool> {
    /// The wrapped tool.
    pub tool: T,
}

impl<T: Tool> ToolAdapter<T> {
    /// Erase `tool`.
    pub fn new(tool: T) -> (r: ToolAdapter<T>)
        ensures
            r.tool == tool,
    {
        ToolAdapter { tool }
    }
}

impl<T: Tool> ToolDyn for ToolAdapter<T> {
    open spec fn spec_name(&self) -> Seq<char> {
        T::spec_name()
    }

    open spec fn definition_ok(&self, prompt: Seq<char>, d: SpecToolDefinition) -> bool {
        self.tool.definition_ok(prompt, d)
    }

    open spec fn call_result(&self, args: Seq<char>, r: Result<String, ToolError>) -> bool {
        erased_call_result(&self.tool, args, r)
    }

    fn name(&self) -> (r: String) {
        self.tool.name()
    }

    fn definition(&self, prompt: String) -> (r: ToolDefinition) {
        self.tool.definition(prompt)
    }

    fn call(&self, args: String) -> (r: Result<String, ToolError>) {
        dispatch_call(&self.tool, args)
    }
}

/// Adapts any typed [`ToolEmbedding`] to the erased [`ToolEmbeddingDyn`]
/// interface.
pub struct EmbeddingAdapter<T: ToolEmbedding> {
    /// The wrapped tool.
    pub tool: T,
}

impl<T: ToolEmbedding> EmbeddingAdapter<T> {
    /// Erase `tool`.
    pub fn new(tool: T) -> (r: EmbeddingAdapter<T>)
        ensures
            r.tool == tool,
    {
        EmbeddingAdapter { tool }
    }
}

impl<T: ToolEmbedding> ToolDyn for EmbeddingAdapter<T> {
    open spec fn spec_name(&self) -> Seq<char> {
        T::spec_name()
    }

    open spec fn definition_ok(&self, prompt: Seq<char>, d: SpecToolDefinition) -> bool {
        self.tool.definition_ok(prompt, d)
    }

    open spec fn call_result(&self, args: Seq<char>, r: Result<String, ToolError>) -> bool {
        erased_call_result(&self.tool, args, r)
    }

    fn name(&self) -> (r: String) {
        self.tool.name()
    }

    fn definition(&self, prompt: String) -> (r: ToolDefinition) {
        self.tool.definition(prompt)
    }

    fn call(&self, args: String) -> (r: Result<String, ToolError>) {
        dispatch_call(&self.tool, args)
    }
}

impl<T: ToolEmbedding> ToolEmbeddingDyn for EmbeddingAdapter<T> {
    /// The encoding of a context snapshot the wrapped tool reports.
    open spec fn context_ok(&self, j: SpecJson) -> bool {
        exists|c: T::Context|
            #![trigger c.spec_to_json()]
            self.tool.context_ok(c) && j == c.spec_to_json()
    }

    open spec fn embedding_docs_ok(&self, docs: Seq<Seq<char>>) -> bool {
        self.tool.embedding_docs_ok(docs)
    }

    fn context(&self) -> (r: Json) {
        let c = self.tool.context();
        let j = c.to_json();
        proof {
            assert(self.tool.context_ok(c) && j@ == c.spec_to_json());
        }
        j
    }

    fn embedding_docs(&self) -> (r: Vec<String>) {
        self.tool.embedding_docs()
    }
}

} // verus!
