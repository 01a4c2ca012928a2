use std::cell::Cell;
use std::rc::Rc;

use toolset::definition::SpecToolDefinition;
use toolset::definition::ToolDefinition;
use toolset::errors::ToolError;
use toolset::errors::ToolSetError;
use toolset::json::Json;
use toolset::json::SpecJson;
use vstd::prelude::Seq;
use toolset::tool::EmbeddingAdapter;
use toolset::tool::ErrorText;
use toolset::tool::FromJson;
use toolset::tool::Tool;
use toolset::tool::ToolAdapter;
use toolset::tool::ToolEmbedding;
use toolset::tool::ToolEmbeddingDyn;
use toolset::toolset::Document;
use toolset::toolset::ToolSet;
use toolset::toolset::ToolType;

// The library's traits carry ghost members (`spec_name`, `spec_from_json`)
// that name, at the specification level, what the executable methods do.
// Outside verified code they remain ordinary trait items, so each impl here
// stubs them; nothing ever calls them at run time.

struct AddArgs {
    x: i64,
    y: i64,
}

impl FromJson for AddArgs {
    fn spec_from_json(_j: SpecJson) -> Option<Self> {
        unreachable!()
    }

    fn decodes_to(_j: SpecJson, _v: Self) -> bool {
        unreachable!()
    }

    fn from_json(j: Json) -> Option<AddArgs> {
        match j {
            Json::Obj(members) => {
                let mut x = None;
                let mut y = None;
                for (k, v) in members {
                    match (k.as_str(), v) {
                        ("x", Json::Int(i)) => x = Some(i),
                        ("y", Json::Int(i)) => y = Some(i),
                        _ => return None,
                    }
                }
                Some(AddArgs { x: x?, y: y? })
            }
            _ => None,
        }
    }
}

#[derive(Debug)]
struct MathError;

impl ErrorText for MathError {
    fn spec_text(&self) -> Seq<char> {
        unreachable!()
    }

    fn text(&self) -> String {
        "Math error".to_string()
    }
}

struct Adder {
    calls: Rc<Cell<u32>>,
}

fn add_parameters() -> Json {
    Json::Obj(vec![
        ("x".to_string(), Json::Str("first addend".to_string())),
        ("y".to_string(), Json::Str("second addend".to_string())),
    ])
}

impl Tool for Adder {
    type Args = AddArgs;
    type Output = i64;
    type Error = MathError;

    fn spec_name() -> Seq<char> {
        unreachable!()
    }

    fn definition_ok(&self, _prompt: Seq<char>, _d: SpecToolDefinition) -> bool {
        unreachable!()
    }

    fn call_rel(&self, _a: Self::Args, _r: Result<Self::Output, Self::Error>) -> bool {
        unreachable!()
    }

    fn name(&self) -> String {
        "add".to_string()
    }

    fn definition(&self, _prompt: String) -> ToolDefinition {
        ToolDefinition {
            name: "add".to_string(),
            description: "Add x and y together".to_string(),
            parameters: add_parameters(),
        }
    }

    fn call(&self, args: AddArgs) -> Result<i64, MathError> {
        self.calls.set(self.calls.get() + 1);
        Ok(args.x + args.y)
    }
}

struct Lookup;

impl FromJson for Lookup {
    fn spec_from_json(_j: SpecJson) -> Option<Self> {
        unreachable!()
    }

    fn decodes_to(_j: SpecJson, _v: Self) -> bool {
        unreachable!()
    }

    fn from_json(_j: Json) -> Option<Lookup> {
        Some(Lookup)
    }
}

impl Tool for Lookup {
    type Args = String;
    type Output = String;
    type Error = MathError;

    fn spec_name() -> Seq<char> {
        unreachable!()
    }

    fn definition_ok(&self, _prompt: Seq<char>, _d: SpecToolDefinition) -> bool {
        unreachable!()
    }

    fn call_rel(&self, _a: Self::Args, _r: Result<Self::Output, Self::Error>) -> bool {
        unreachable!()
    }

    fn name(&self) -> String {
        "lookup".to_string()
    }

    fn definition(&self, _prompt: String) -> ToolDefinition {
        ToolDefinition {
            name: "lookup".to_string(),
            description: "Look a word up".to_string(),
            parameters: Json::Str("a word".to_string()),
        }
    }

    fn call(&self, args: String) -> Result<String, MathError> {
        Ok(format!("about {args}"))
    }
}

impl ToolEmbedding for Lookup {
    type InitError = MathError;
    type Context = String;
    type State = ();

    fn embedding_docs_ok(&self, _docs: Seq<Seq<char>>) -> bool {
        unreachable!()
    }

    fn context_ok(&self, _c: Self::Context) -> bool {
        unreachable!()
    }

    fn embedding_docs(&self) -> Vec<String> {
        vec!["looks a word up".to_string()]
    }

    fn context(&self) -> String {
        "lookup-context".to_string()
    }

    fn init(_state: (), _context: String) -> Result<Lookup, MathError> {
        Ok(Lookup)
    }
}

type AdderSet = ToolSet<ToolAdapter<Adder>, EmbeddingAdapter<Lookup>>;

fn adder() -> (ToolAdapter<Adder>, Rc<Cell<u32>>) {
    let calls = Rc::new(Cell::new(0));
    (
        ToolAdapter::new(Adder {
            calls: calls.clone(),
        }),
        calls,
    )
}

#[test]
fn call_returns_serialized_output() {
    let (tool, calls) = adder();
    let set = AdderSet::from_tools(vec![tool]);
    let r = set.call("add", "{\"x\":2,\"y\":3}".to_string());
    assert_eq!(r.unwrap(), "5".to_string());
    assert_eq!(calls.get(), 1);
}

#[test]
fn call_accepts_whitespace_and_negative_numbers() {
    let (tool, _calls) = adder();
    let set = AdderSet::from_tools(vec![tool]);
    let r = set.call("add", " { \"x\" : -40 , \"y\" : 2 } ".to_string());
    assert_eq!(r.unwrap(), "-38".to_string());
}

#[test]
fn call_missing_field_is_json_error() {
    let (tool, calls) = adder();
    let set = AdderSet::from_tools(vec![tool]);
    let r = set.call("add", "{\"x\":2}".to_string());
    match r {
        Err(ToolSetError::ToolCallError(ToolError::JsonError(_))) => {}
        other => panic!("expected a JsonError, got {other:?}"),
    }
    assert_eq!(calls.get(), 0);
}

#[test]
fn call_malformed_json_does_not_invoke_tool() {
    let (tool, calls) = adder();
    let set = AdderSet::from_tools(vec![tool]);
    let r = set.call("add", "{\"x\":2,".to_string());
    match r {
        Err(ToolSetError::ToolCallError(ToolError::JsonError(_))) => {}
        other => panic!("expected a JsonError, got {other:?}"),
    }
    assert_eq!(calls.get(), 0);
}

#[test]
fn call_unknown_name_is_not_found() {
    let (tool, _calls) = adder();
    let set = AdderSet::from_tools(vec![tool]);
    let r = set.call("subtract", "{\"x\":2,\"y\":3}".to_string());
    match r {
        Err(ToolSetError::ToolNotFoundError(name)) => assert_eq!(name, "subtract".to_string()),
        other => panic!("expected ToolNotFoundError, got {other:?}"),
    }
}

#[test]
fn not_found_error_text() {
    let (tool, _calls) = adder();
    let set = AdderSet::from_tools(vec![tool]);
    let err = set
        .call("subtract", "{}".to_string())
        .expect_err("unknown name must fail");
    assert_eq!(err.text(), "ToolNotFoundError: subtract".to_string());
}

#[test]
fn tool_error_is_wrapped_with_its_text() {
    struct Failing;
    impl FromJson for Failing {
        fn spec_from_json(_j: SpecJson) -> Option<Self> {
            unreachable!()
        }

        fn decodes_to(_j: SpecJson, _v: Self) -> bool {
            unreachable!()
        }

        fn from_json(_j: Json) -> Option<Failing> {
            Some(Failing)
        }
    }
    struct AlwaysFails;
    impl Tool for AlwaysFails {
        type Args = Failing;
        type Output = i64;
        type Error = MathError;

        fn spec_name() -> Seq<char> {
            unreachable!()
        }

        fn definition_ok(&self, _prompt: Seq<char>, _d: SpecToolDefinition) -> bool {
            unreachable!()
        }

        fn call_rel(&self, _a: Self::Args, _r: Result<Self::Output, Self::Error>) -> bool {
            unreachable!()
        }
        fn name(&self) -> String {
            "fail".to_string()
        }
        fn definition(&self, _prompt: String) -> ToolDefinition {
            ToolDefinition {
                name: "fail".to_string(),
                description: "always fails".to_string(),
                parameters: Json::Null,
            }
        }
        fn call(&self, _args: Failing) -> Result<i64, MathError> {
            Err(MathError)
        }
    }
    let set: ToolSet<ToolAdapter<AlwaysFails>, EmbeddingAdapter<Lookup>> =
        ToolSet::from_tools(vec![ToolAdapter::new(AlwaysFails)]);
    let err = set.call("fail", "null".to_string()).expect_err("must fail");
    match err {
        ToolSetError::ToolCallError(ToolError::ToolCallError(ref m)) => {
            assert_eq!(m, "Math error");
        }
        other => panic!("expected a wrapped tool error, got {other:?}"),
    }
    assert_eq!(
        err.text(),
        "ToolCallError: ToolCallError: Math error".to_string()
    );
}

#[test]
fn contains_and_get_discriminate_variants() {
    let (tool, _calls) = adder();
    let set: AdderSet = ToolSet::builder()
        .static_tool(tool)
        .dynamic_tool(EmbeddingAdapter::new(Lookup))
        .build();
    assert!(set.contains("add"));
    assert!(set.contains("lookup"));
    assert!(!set.contains("divide"));
    match set.get("add") {
        Some(ToolType::Simple(_)) => {}
        other => panic!("expected a simple entry, got {:?}", other.is_some()),
    }
    match set.get("lookup") {
        Some(ToolType::Embedding(t)) => {
            assert_eq!(t.embedding_docs(), vec!["looks a word up".to_string()]);
            assert_eq!(
                ToolEmbeddingDyn::context(t),
                Json::Str("lookup-context".to_string())
            );
        }
        other => panic!("expected an embedding entry, got {:?}", other.is_some()),
    }
}

#[test]
fn embedding_tool_revives_from_context() {
    let revived = Lookup::init((), "lookup-context".to_string()).expect("init must succeed");
    assert_eq!(revived.name(), "lookup".to_string());
}

#[test]
fn merge_is_right_biased() {
    struct Named {
        value: i64,
    }
    struct NoArgs;
    impl FromJson for NoArgs {
        fn spec_from_json(_j: SpecJson) -> Option<Self> {
            unreachable!()
        }

        fn decodes_to(_j: SpecJson, _v: Self) -> bool {
            unreachable!()
        }

        fn from_json(_j: Json) -> Option<NoArgs> {
            Some(NoArgs)
        }
    }
    impl Tool for Named {
        type Args = NoArgs;
        type Output = i64;
        type Error = MathError;

        fn spec_name() -> Seq<char> {
            unreachable!()
        }

        fn definition_ok(&self, _prompt: Seq<char>, _d: SpecToolDefinition) -> bool {
            unreachable!()
        }

        fn call_rel(&self, _a: Self::Args, _r: Result<Self::Output, Self::Error>) -> bool {
            unreachable!()
        }
        fn name(&self) -> String {
            "x".to_string()
        }
        fn definition(&self, _prompt: String) -> ToolDefinition {
            ToolDefinition {
                name: "x".to_string(),
                description: "a constant".to_string(),
                parameters: Json::Null,
            }
        }
        fn call(&self, _args: NoArgs) -> Result<i64, MathError> {
            Ok(self.value)
        }
    }
    type NSet = ToolSet<ToolAdapter<Named>, EmbeddingAdapter<Lookup>>;
    let mut a: NSet = ToolSet::from_tools(vec![ToolAdapter::new(Named { value: 1 })]);
    let b: NSet = ToolSet::from_tools(vec![ToolAdapter::new(Named { value: 2 })]);
    a.add_tools(b);
    assert!(a.contains("x"));
    assert_eq!(a.call("x", "{}".to_string()).unwrap(), "2".to_string());
    let docs = a.documents().unwrap();
    assert_eq!(docs.len(), 1);
}

#[test]
fn add_tool_replaces_same_name() {
    let (first, _c1) = adder();
    let (second, c2) = adder();
    let mut set = AdderSet::from_tools(vec![first]);
    set.add_tool(second);
    let docs = set.documents().unwrap();
    assert_eq!(docs.len(), 1);
    assert_eq!(
        set.call("add", "{\"x\":1,\"y\":1}".to_string()).unwrap(),
        "2".to_string()
    );
    assert_eq!(c2.get(), 1);
}

#[test]
fn documents_have_tool_names_and_pretty_definitions() {
    let (tool, _calls) = adder();
    let set: AdderSet = ToolSet::builder()
        .static_tool(tool)
        .dynamic_tool(EmbeddingAdapter::new(Lookup))
        .build();
    let docs: Vec<Document> = set.documents().unwrap();
    assert_eq!(docs.len(), 2);
    let mut ids: Vec<String> = docs.iter().map(|d| d.id.clone()).collect();
    ids.sort();
    assert_eq!(ids, vec!["add".to_string(), "lookup".to_string()]);
    let add_doc = docs.iter().find(|d| d.id == "add").unwrap();
    let pretty = ToolDefinition {
        name: "add".to_string(),
        description: "Add x and y together".to_string(),
        parameters: add_parameters(),
    }
    .to_json()
    .to_text_pretty();
    assert!(add_doc.text.contains(&pretty));
    assert_eq!(add_doc.text, format!("Tool: add\nDefinition: \n{pretty}"));
}

#[test]
fn default_set_is_empty() {
    let set: AdderSet = ToolSet::default();
    assert!(!set.contains("add"));
    assert_eq!(set.documents().unwrap().len(), 0);
    match set.call("add", "{}".to_string()) {
        Err(ToolSetError::ToolNotFoundError(name)) => assert_eq!(name, "add"),
        other => panic!("expected ToolNotFoundError, got {other:?}"),
    }
}

#[test]
fn json_error_texts_are_exact() {
    let (tool, _calls) = adder();
    let set = AdderSet::from_tools(vec![tool]);
    let missing = set
        .call("add", "{\"x\":2}".to_string())
        .expect_err("missing field must fail");
    assert_eq!(
        missing.text(),
        "ToolCallError: JsonError: arguments do not fit the tool"
    );
    let malformed = set
        .call("add", "not json".to_string())
        .expect_err("malformed text must fail");
    assert_eq!(
        malformed.text(),
        "ToolCallError: JsonError: invalid JSON value"
    );
}

#[test]
fn definition_round_trips_through_json_text() {
    let make = || ToolDefinition {
        name: "add".to_string(),
        description: "Add x and y together".to_string(),
        parameters: add_parameters(),
    };
    let text = make().to_json().to_text();
    let value = toolset::parser::parse(&text).expect("serialized definition must parse");
    let back = ToolDefinition::from_json(value).expect("parsed definition must convert");
    assert_eq!(back, make());
}
