//! Tool definitions: the data-only description of a tool.
//!
//! A definition carries the tool's name, a prose description, and an
//! arbitrary JSON value describing the argument schema.  Definitions are
//! serialized as a three-member JSON object, and that serialization is
//! proved lossless ([`lemma_definition_round_trip`]).

use vstd::prelude::*;
use vstd::string::*;

use crate::json::Json;
use crate::json::SpecJson;
use crate::json::json_text;
use crate::json::json_wf;
use crate::json_laws::lemma_text_round_trip;
use crate::parser::spec_parse;

verus! {

broadcast use vstd::std_specs::vec::group_vec_axioms;

/// Mathematical model of a tool definition.
pub struct SpecToolDefinition {
    pub name: Seq<char>,
    pub description: Seq<char>,
    pub parameters: SpecJson,
}

/// The description of one tool: its unique name, what it does, and the JSON
/// schema of its arguments.
#[derive(Debug, PartialEq, Eq)]
pub struct ToolDefinition {
    pub name: String,
    pub description: String,
    pub parameters: Json,
}

impl View for ToolDefinition {
    type V = SpecToolDefinition;

    open spec fn view(&self) -> SpecToolDefinition {
        SpecToolDefinition {
            name: self.name@,
            description: self.description@,
            parameters: self.parameters@,
        }
    }
}

/// The JSON form of a definition: an object with the three fields, in order.
pub open spec fn spec_definition_json(d: SpecToolDefinition) -> SpecJson {
    SpecJson::Obj(
        seq![
            ("name"@, SpecJson::Str(d.name)),
            ("description"@, SpecJson::Str(d.description)),
            ("parameters"@, d.parameters),
        ],
    )
}

/// Reading a definition back from its JSON form.
pub open spec fn spec_definition_from_json(j: SpecJson) -> Option<SpecToolDefinition> {
    match j {
        SpecJson::Obj(ms) => if ms.len() == 3 && ms[0].0 == "name"@ && ms[0].1 is Str && ms[1].0
            == "description"@ && ms[1].1 is Str && ms[2].0 == "parameters"@ {
            Some(
                SpecToolDefinition {
                    name: ms[0].1->Str_0,
                    description: ms[1].1->Str_0,
                    parameters: ms[2].1,
                },
            )
        } else {
            None
        },
        _ => None,
    }
}

impl ToolDefinition {
    /// The JSON form of this definition.
    pub fn to_json(self) -> (r: Json)
        ensures
            r@ == spec_definition_json(self@),
    {
        let ghost dv = self@;
        let mut members: Vec<(String, Json)> = Vec::new();
        members.push((String::from_str("name"), Json::Str(self.name)));
        members.push((String::from_str("description"), Json::Str(self.description)));
        members.push((String::from_str("parameters"), self.parameters));
        let r = Json::Obj(members);
        proof {
            assert(members@.len() == 3);
            assert(r@ == SpecJson::Obj(crate::json::members_view(members@)));
            let ms = r@->Obj_0;
            assert(ms.len() == 3);
            assert(ms[0].0 == "name"@ && ms[0].1 == SpecJson::Str(dv.name));
            assert(ms[1].0 == "description"@ && ms[1].1 == SpecJson::Str(dv.description));
            assert(ms[2].0 == "parameters"@ && ms[2].1 == dv.parameters);
            assert(ms =~= spec_definition_json(dv)->Obj_0);
        }
        r
    }

    /// Read a definition back from its JSON form; `None` exactly on values
    /// that [`spec_definition_from_json`] rejects.
    pub fn from_json(j: Json) -> (r: Option<ToolDefinition>)
        ensures
            match r {
                Some(d) => spec_definition_from_json(j@) == Some(d@),
                None => spec_definition_from_json(j@) is None,
            },
    {
        let ghost gj = j@;
        match j {
            Json::Obj(mut ms) => {
                let ghost msv = crate::json::members_view(ms@);
                proof {
                    assert(gj == SpecJson::Obj(msv));
                    assert(msv.len() == ms@.len());
                }
                if ms.len() != 3 {
                    return None;
                }
                let (k2, p) = ms.pop().unwrap();
                let (k1, dv) = ms.pop().unwrap();
                let (k0, nv) = ms.pop().unwrap();
                proof {
                    assert(msv[0] == (k0@, nv@));
                    assert(msv[1] == (k1@, dv@));
                    assert(msv[2] == (k2@, p@));
                }
                if !(k0 == String::from_str("name") && k1 == String::from_str("description") && k2
                    == String::from_str("parameters")) {
                    return None;
                }
                match (nv, dv) {
                    (Json::Str(n), Json::Str(ds)) => Some(
                        ToolDefinition { name: n, description: ds, parameters: p },
                    ),
                    _ => None,
                }
            },
            _ => None,
        }
    }
}

/// Serializing a definition and reading it back yields an equal definition:
/// both through the JSON value form, and through the JSON text form.
pub proof fn lemma_definition_round_trip(d: SpecToolDefinition)
    requires
        json_wf(d.parameters),
    ensures
        spec_definition_from_json(spec_definition_json(d)) == Some(d),
        spec_parse(json_text(spec_definition_json(d))) == Some(spec_definition_json(d)),
{
    let j = spec_definition_json(d);
    assert(json_wf(j)) by {
        let ms = j->Obj_0;
        assert forall|i: int| 0 <= i < ms.len() implies json_wf(#[trigger] ms[i].1) by {
            if i == 0 {
                assert(ms[0].1 is Str);
            } else if i == 1 {
                assert(ms[1].1 is Str);
            } else {
                assert(ms[2].1 == d.parameters);
            }
        }
    }
    lemma_text_round_trip(j);
}

} // verus!
