//! The name-keyed tool registry.
//!
//! A [`ToolSet`] maps tool names to erased tools; it is the entry point an
//! orchestrator uses to invoke a tool by name and to produce documentation
//! for every registered tool.  Entries are keyed by the name the tool itself
//! reports, so an entry's name always equals the key it is stored under.
//! Registration is last-write-wins: adding a tool under an existing name
//! replaces that entry, and merging two sets prefers the incoming one.
//!
//! The view of a set is a `Map` from name to entry, and every operation's
//! contract is stated against that map.

use vstd::prelude::*;
use vstd::string::*;

use crate::definition::SpecToolDefinition;
use crate::definition::ToolDefinition;
use crate::definition::spec_definition_json;
use crate::errors::ToolError;
use crate::errors::ToolSetError;
use crate::json::pretty_text;
use crate::parser::spec_parse;
use crate::tool::ToolDyn;
use crate::tool::ToolEmbeddingDyn;

verus! {

broadcast use vstd::std_specs::vec::group_vec_axioms;

/// A registry entry: an erased tool, tagged by whether it also supports
/// retrieval-based selection.  The tag lets indexing logic discriminate
/// while the registry treats both variants uniformly.
pub enum ToolType<S: ToolDyn, E: ToolEmbeddingDyn> {
    /// A tool that is always available.
    Simple(S),
    /// A tool that can also be indexed and retrieved by similarity.
    Embedding(E),
}

impl<S: ToolDyn, E: ToolEmbeddingDyn> ToolType<S, E> {
    /// The name the wrapped tool reports.
    pub open spec fn spec_name(&self) -> Seq<char> {
        match self {
            ToolType::Simple(t) => t.spec_name(),
            ToolType::Embedding(t) => t.spec_name(),
        }
    }

    /// Which definition documents the wrapped tool may produce for a
    /// prompt.
    pub open spec fn spec_definition_ok(
        &self,
        prompt: Seq<char>,
        d: SpecToolDefinition,
    ) -> bool {
        match self {
            ToolType::Simple(t) => t.definition_ok(prompt, d),
            ToolType::Embedding(t) => t.definition_ok(prompt, d),
        }
    }

    /// Which results the wrapped tool's erased call may produce.
    pub open spec fn spec_call_result(
        &self,
        args: Seq<char>,
        r: Result<String, ToolError>,
    ) -> bool {
        match self {
            ToolType::Simple(t) => t.call_result(args, r),
            ToolType::Embedding(t) => t.call_result(args, r),
        }
    }

    /// The tool's name.
    pub fn name(&self) -> (r: String)
        ensures
            r@ == self.spec_name(),
    {
        match self {
            ToolType::Simple(t) => t.name(),
            ToolType::Embedding(t) => t.name(),
        }
    }

    /// The tool's definition document: what the wrapped tool produces for
    /// this prompt, whichever variant holds it.
    pub fn definition(&self, prompt: String) -> (r: ToolDefinition)
        ensures
            self.spec_definition_ok(prompt@, r@),
    {
        match self {
            ToolType::Simple(t) => t.definition(prompt),
            ToolType::Embedding(t) => t.definition(prompt),
        }
    }

    /// Invoke the tool on JSON argument text.
    pub fn call(&self, args: String) -> (r: Result<String, ToolError>)
        ensures
            self.spec_call_result(args@, r),
            spec_parse(args@) is None ==> r matches Err(ToolError::JsonError(_)),
    {
        match self {
            ToolType::Simple(t) => t.call(args),
            ToolType::Embedding(t) => t.call(args),
        }
    }
}

/// One entry of the documentation catalog: the tool's name as id, and a
/// text block embedding its pretty-printed definition.
#[derive(Debug, PartialEq, Eq)]
pub struct Document {
    pub id: String,
    pub text: String,
}

/// The text of a tool's document: the name, then the pretty-printed
/// definition.
pub open spec fn document_text(name: Seq<char>, d: SpecToolDefinition) -> Seq<char> {
    "Tool: "@ + name + "\nDefinition: \n"@ + pretty_text(spec_definition_json(d), Seq::empty())
}

/// The name-to-entry map a sequence of entries denotes, later entries
/// overwriting earlier ones of the same name.
pub open spec fn tools_map<S: ToolDyn, E: ToolEmbeddingDyn>(s: Seq<ToolType<S, E>>) -> Map<
    Seq<char>,
    ToolType<S, E>,
>
    decreases s.len(),
{
    if s.len() == 0 {
        Map::empty()
    } else {
        tools_map(s.drop_last()).insert(s.last().spec_name(), s.last())
    }
}

/// The entries of `ts`, each wrapped as a simple registry entry.
pub open spec fn simple_entries<S: ToolDyn, E: ToolEmbeddingDyn>(ts: Seq<S>) -> Seq<
    ToolType<S, E>,
> {
    Seq::new(ts.len(), |i: int| ToolType::Simple(ts[i]))
}

/// Appending an entry inserts it into the denoted map.
proof fn lemma_tools_map_push<S: ToolDyn, E: ToolEmbeddingDyn>(
    s: Seq<ToolType<S, E>>,
    t: ToolType<S, E>,
)
    ensures
        tools_map(s.push(t)) == tools_map(s).insert(t.spec_name(), t),
{
    assert(s.push(t).drop_last() =~= s);
    assert(s.push(t).last() == t);
}

/// A name is in the denoted map exactly when some entry bears it.
proof fn lemma_tools_map_contains<S: ToolDyn, E: ToolEmbeddingDyn>(
    s: Seq<ToolType<S, E>>,
    n: Seq<char>,
)
    ensures
        tools_map(s).contains_key(n) <==> exists|i: int|
            0 <= i < s.len() && (#[trigger] s[i]).spec_name() == n,
    decreases s.len(),
{
    if s.len() > 0 {
        let d = s.drop_last();
        lemma_tools_map_contains(d, n);
        if s.last().spec_name() == n {
            assert(s[s.len() - 1].spec_name() == n);
        } else if tools_map(d).contains_key(n) {
            let i = choose|i: int| 0 <= i < d.len() && (#[trigger] d[i]).spec_name() == n;
            assert(s[i].spec_name() == n);
        } else {
            assert forall|i: int| 0 <= i < s.len() implies (#[trigger] s[i]).spec_name() != n by {
                if i < s.len() - 1 {
                    assert(d[i] == s[i]);
                }
            }
        }
    }
}

/// The denoted map sends a name to the entry at its last occurrence.
proof fn lemma_tools_map_index<S: ToolDyn, E: ToolEmbeddingDyn>(s: Seq<ToolType<S, E>>, i: int)
    requires
        0 <= i < s.len(),
        forall|j: int| i < j < s.len() ==> (#[trigger] s[j]).spec_name() != s[i].spec_name(),
    ensures
        tools_map(s).contains_key(s[i].spec_name()),
        tools_map(s)[s[i].spec_name()] == s[i],
    decreases s.len(),
{
    if i == s.len() - 1 {
    } else {
        let d = s.drop_last();
        assert forall|j: int| i < j < d.len() implies (#[trigger] d[j]).spec_name()
            != d[i].spec_name() by {
            assert(d[j] == s[j]);
        }
        lemma_tools_map_index(d, i);
        assert(s.last().spec_name() != s[i].spec_name());
    }
}

/// Replacing the last entry of a name inserts the replacement into the
/// denoted map.
proof fn lemma_tools_map_update<S: ToolDyn, E: ToolEmbeddingDyn>(
    s: Seq<ToolType<S, E>>,
    i: int,
    t: ToolType<S, E>,
)
    requires
        0 <= i < s.len(),
        s[i].spec_name() == t.spec_name(),
        forall|j: int| i < j < s.len() ==> (#[trigger] s[j]).spec_name() != t.spec_name(),
    ensures
        tools_map(s.update(i, t)) == tools_map(s).insert(t.spec_name(), t),
    decreases s.len(),
{
    let n = t.spec_name();
    let s2 = s.update(i, t);
    if i == s.len() - 1 {
        assert(s2.drop_last() =~= s.drop_last());
        assert(s2.last() == t);
        assert(tools_map(s.drop_last()).insert(n, t) =~= tools_map(s).insert(n, t));
    } else {
        assert(s2.drop_last() =~= s.drop_last().update(i, t));
        assert(s2.last() == s.last());
        assert(s.drop_last()[i] == s[i]);
        assert forall|j: int| i < j < s.drop_last().len() implies (#[trigger] s.drop_last()[j]).spec_name()
            != n by {
            assert(s.drop_last()[j] == s[j]);
        }
        lemma_tools_map_update(s.drop_last(), i, t);
        assert(s.last().spec_name() != n);
        assert(tools_map(s2) == tools_map(s.drop_last()).insert(n, t).insert(
            s.last().spec_name(),
            s.last(),
        ));
        assert(tools_map(s.drop_last()).insert(n, t).insert(s.last().spec_name(), s.last()) =~= tools_map(
            s,
        ).insert(n, t));
    }
}

/// Under pairwise-distinct names, the denoted map has one key per entry.
proof fn lemma_tools_map_len<S: ToolDyn, E: ToolEmbeddingDyn>(s: Seq<ToolType<S, E>>)
    requires
        forall|i: int, j: int|
            0 <= i < j < s.len() ==> (#[trigger] s[i]).spec_name() != (#[trigger] s[j]).spec_name(),
    ensures
        tools_map(s).dom().finite(),
        tools_map(s).dom().len() == s.len(),
    decreases s.len(),
{
    if s.len() == 0 {
        assert(tools_map(s).dom() =~= Set::<Seq<char>>::empty());
    } else {
        let d = s.drop_last();
        let n = s.last().spec_name();
        assert forall|i: int, j: int| 0 <= i < j < d.len() implies (#[trigger] d[i]).spec_name()
            != (#[trigger] d[j]).spec_name() by {
            assert(d[i] == s[i] && d[j] == s[j]);
        }
        lemma_tools_map_len(d);
        lemma_tools_map_contains(d, n);
        assert forall|i: int| 0 <= i < d.len() implies (#[trigger] d[i]).spec_name() != n by {
            assert(d[i] == s[i]);
            assert(s[i].spec_name() != s[s.len() - 1].spec_name());
        }
        assert(!tools_map(d).contains_key(n));
        assert(tools_map(s).dom() =~= tools_map(d).dom().insert(n));
    }
}

/// Whether two strings hold the same characters.
fn str_eq(a: &str, b: &str) -> (r: bool)
    ensures
        r == (a@ == b@),
{
    let la = a.unicode_len();
    let lb = b.unicode_len();
    if la != lb {
        proof {
            assert(a@ != b@);
        }
        return false;
    }
    let mut i: usize = 0;
    while i < la
        invariant
            la == a@.len(),
            la == b@.len(),
            i <= la,
            forall|q: int| 0 <= q < i ==> a@[q] == b@[q],
        decreases la - i,
    {
        if a.get_char(i) != b.get_char(i) {
            return false;
        }
        i = i + 1;
    }
    proof {
        assert(a@ =~= b@);
    }
    true
}

/// A set of tools, keyed by name.  The agent invokes tools through
/// [`ToolSet::call`] and documents them through [`ToolSet::documents`].
pub struct ToolSet<S: ToolDyn, E: ToolEmbeddingDyn> {
    tools: Vec<ToolType<S, E>>,
}

impl<S: ToolDyn, E: ToolEmbeddingDyn> View for ToolSet<S, E> {
    type V = Map<Seq<char>, ToolType<S, E>>;

    closed spec fn view(&self) -> Map<Seq<char>, ToolType<S, E>> {
        tools_map(self.tools@)
    }
}

impl<S: ToolDyn, E: ToolEmbeddingDyn> Default for ToolSet<S, E> {
    /// The empty set.
    fn default() -> (r: Self)
        ensures
            r@ == Map::<Seq<char>, ToolType<S, E>>::empty(),
            r.wf(),
            r.entries() == Seq::<ToolType<S, E>>::empty(),
    {
        ToolSet { tools: Vec::new() }
    }
}

impl<S: ToolDyn, E: ToolEmbeddingDyn> ToolSet<S, E> {
    /// The entries of the set, in registration order.
    pub closed spec fn entries(&self) -> Seq<ToolType<S, E>> {
        self.tools@
    }

    /// Entry names are pairwise distinct.  Every set this library hands out
    /// is well formed; the registration operations keep it so.
    pub closed spec fn wf(&self) -> bool {
        forall|i: int, j: int|
            0 <= i < j < self.tools@.len() ==> (#[trigger] self.tools@[i]).spec_name() != (
            #[trigger] self.tools@[j]).spec_name()
    }

    /// Each entry is stored under the name it reports.
    pub proof fn lemma_entries_keyed_by_name(&self)
        requires
            self.wf(),
        ensures
            forall|i: int|
                0 <= i < self.entries().len() ==> self@.contains_key(
                    (#[trigger] self.entries()[i]).spec_name(),
                ) && self@[self.entries()[i].spec_name()] == self.entries()[i],
    {
        assert forall|i: int| 0 <= i < self.entries().len() implies self@.contains_key(
            (#[trigger] self.entries()[i]).spec_name(),
        ) && self@[self.entries()[i].spec_name()] == self.entries()[i] by {
            lemma_tools_map_index(self.tools@, i);
        }
    }

    /// A set registers exactly one entry per name: the documents catalog
    /// has one document per registered name.
    pub proof fn lemma_one_entry_per_name(&self)
        requires
            self.wf(),
        ensures
            self@.dom().finite(),
            self@.dom().len() == self.entries().len(),
    {
        lemma_tools_map_len(self.tools@);
    }

    /// Insert `t` under its own name, replacing any entry of that name.
    fn add_entry(&mut self, t: ToolType<S, E>)
        requires
            old(self).wf(),
        ensures
            final(self).wf(),
            final(self)@ == old(self)@.insert(t.spec_name(), t),
            final(self).entries().len() <= old(self).entries().len() + 1,
    {
        let name = t.name();
        let n = self.tools.len();
        let mut i: usize = 0;
        while i < n
            invariant
                n == self.tools@.len(),
                i <= n,
                self == old(self),
                old(self).wf(),
                name@ == t.spec_name(),
                forall|q: int| 0 <= q < i ==> (#[trigger] self.tools@[q]).spec_name() != name@,
            decreases n - i,
        {
            let en = self.tools[i].name();
            if str_eq(en.as_str(), name.as_str()) {
                let ghost pre = self.tools@;
                let _replaced = self.tools.remove(i);
                self.tools.insert(i, t);
                proof {
                    assert(pre == old(self).tools@);
                    assert(self.tools@ =~= pre.update(i as int, t));
                    assert forall|j: int| i < j < pre.len() implies (#[trigger] pre[j]).spec_name()
                        != t.spec_name() by {
                        assert(old(self).tools@[i as int].spec_name() != old(
                            self,
                        ).tools@[j].spec_name());
                    }
                    lemma_tools_map_update(pre, i as int, t);
                    assert forall|a: int, b: int|
                        0 <= a < b < self.tools@.len() implies (#[trigger] self.tools@[a]).spec_name()
                        != (#[trigger] self.tools@[b]).spec_name() by {
                        assert(old(self).tools@[a].spec_name() != old(self).tools@[b].spec_name());
                        assert(self.tools@[a].spec_name() == old(self).tools@[a].spec_name());
                        assert(self.tools@[b].spec_name() == old(self).tools@[b].spec_name());
                    }
                }
                return;
            }
            i = i + 1;
        }
        self.tools.push(t);
        proof {
            lemma_tools_map_push(old(self).tools@, t);
            assert forall|a: int, b: int|
                0 <= a < b < self.tools@.len() implies (#[trigger] self.tools@[a]).spec_name() != (
            #[trigger] self.tools@[b]).spec_name() by {
                if b == self.tools@.len() - 1 {
                    assert(self.tools@[a] == old(self).tools@[a]);
                } else {
                    assert(self.tools@[a] == old(self).tools@[a]);
                    assert(self.tools@[b] == old(self).tools@[b]);
                }
            }
        }
    }

    /// Build a set from a list of erased tools, folding each in by
    /// [`ToolSet::add_tool`]; later tools of a name already seen replace the
    /// earlier ones.
    pub fn from_tools(tools: Vec<S>) -> (r: Self)
        ensures
            r.wf(),
            r@ == tools_map(simple_entries::<S, E>(tools@)),
    {
        let mut set = ToolSet { tools: Vec::new() };
        let mut rest = tools;
        let ghost orig = rest@;
        while rest.len() > 0
            invariant
                set.wf(),
                rest@.len() <= orig.len(),
                rest@ =~= orig.skip(orig.len() - rest@.len()),
                set@ == tools_map(simple_entries::<S, E>(orig.take(orig.len() - rest@.len()))),
            decreases rest@.len(),
        {
            let ghost c = orig.len() - rest@.len();
            let ghost pre = rest@;
            let t = rest.remove(0);
            proof {
                assert(pre[0] == orig.skip(c)[0]);
                assert(orig.skip(c)[0] == orig[c]);
                assert(t == orig[c]);
                assert forall|q: int| 0 <= q < rest@.len() implies rest@[q] == orig.skip(c + 1)[q] by {
                    assert(rest@[q] == pre[q + 1]);
                    assert(pre[q + 1] == orig[c + 1 + q]);
                }
                assert(rest@ =~= orig.skip(c + 1));
                assert(simple_entries::<S, E>(orig.take(c + 1)) =~= simple_entries::<S, E>(
                    orig.take(c),
                ).push(ToolType::Simple(orig[c])));
                lemma_tools_map_push(simple_entries::<S, E>(orig.take(c)), ToolType::Simple(t));
            }
            set.add_tool(t);
        }
        proof {
            assert(orig.take(orig.len() as int) =~= orig);
        }
        set
    }

    /// A builder that distinguishes always-available from retrievable tools.
    pub fn builder() -> (r: ToolSetBuilder<S, E>)
        ensures
            r.entries() == Seq::<ToolType<S, E>>::empty(),
    {
        ToolSetBuilder { tools: Vec::new() }
    }

    /// Whether a tool of this name is registered.
    pub fn contains(&self, toolname: &str) -> (r: bool)
        ensures
            r == self@.contains_key(toolname@),
    {
        let n = self.tools.len();
        let mut i: usize = 0;
        while i < n
            invariant
                n == self.tools@.len(),
                i <= n,
                forall|q: int| 0 <= q < i ==> (#[trigger] self.tools@[q]).spec_name() != toolname@,
            decreases n - i,
        {
            let en = self.tools[i].name();
            if str_eq(en.as_str(), toolname) {
                proof {
                    lemma_tools_map_contains(self.tools@, toolname@);
                }
                return true;
            }
            i = i + 1;
        }
        proof {
            lemma_tools_map_contains(self.tools@, toolname@);
        }
        false
    }

    /// Insert a tool under the name it reports, replacing any tool of that
    /// name.
    pub fn add_tool(&mut self, tool: S)
        requires
            old(self).wf(),
        ensures
            final(self).wf(),
            final(self)@ == old(self)@.insert(tool.spec_name(), ToolType::Simple(tool)),
    {
        self.add_entry(ToolType::Simple(tool));
    }

    /// Merge another set into this one.  On a name present in both, the
    /// incoming entry wins.
    pub fn add_tools(&mut self, toolset: ToolSet<S, E>)
        requires
            old(self).wf(),
        ensures
            final(self).wf(),
            final(self)@ == old(self)@.union_prefer_right(toolset@),
    {
        let ghost target = old(self)@.union_prefer_right(toolset@);
        let mut rest = toolset.tools;
        let ghost orig = rest@;
        while rest.len() > 0
            invariant
                self.wf(),
                rest@.len() <= orig.len(),
                rest@ =~= orig.skip(orig.len() - rest@.len()),
                self@ == old(self)@.union_prefer_right(
                    tools_map(orig.take(orig.len() - rest@.len())),
                ),
            decreases rest@.len(),
        {
            let ghost c = orig.len() - rest@.len();
            let ghost before = self@;
            let ghost pre = rest@;
            let t = rest.remove(0);
            proof {
                assert(pre[0] == orig.skip(c)[0]);
                assert(orig.skip(c)[0] == orig[c]);
                assert(t == orig[c]);
                assert forall|q: int| 0 <= q < rest@.len() implies rest@[q] == orig.skip(c + 1)[q] by {
                    assert(rest@[q] == pre[q + 1]);
                    assert(pre[q + 1] == orig[c + 1 + q]);
                }
                assert(rest@ =~= orig.skip(c + 1));
            }
            self.add_entry(t);
            proof {
                assert(orig.take(c + 1) =~= orig.take(c).push(orig[c]));
                lemma_tools_map_push(orig.take(c), orig[c]);
                assert(before.insert(t.spec_name(), t) =~= old(self)@.union_prefer_right(
                    tools_map(orig.take(c + 1)),
                ));
            }
        }
        proof {
            assert(orig.take(orig.len() as int) =~= orig);
        }
    }

    /// Direct access to an entry, for collaborators that must discriminate
    /// the variant (retrieval indexing).
    pub fn get(&self, toolname: &str) -> (r: Option<&ToolType<S, E>>)
        requires
            self.wf(),
        ensures
            match r {
                Some(t) => self@.contains_key(toolname@) && *t == self@[toolname@],
                None => !self@.contains_key(toolname@),
            },
    {
        let n = self.tools.len();
        let mut i: usize = 0;
        while i < n
            invariant
                n == self.tools@.len(),
                i <= n,
                self.wf(),
                forall|q: int| 0 <= q < i ==> (#[trigger] self.tools@[q]).spec_name() != toolname@,
            decreases n - i,
        {
            let en = self.tools[i].name();
            if str_eq(en.as_str(), toolname) {
                proof {
                    lemma_tools_map_index(self.tools@, i as int);
                }
                return Some(&self.tools[i]);
            }
            i = i + 1;
        }
        proof {
            lemma_tools_map_contains(self.tools@, toolname@);
        }
        None
    }

    /// Invoke the tool of the given name on JSON argument text.
    ///
    /// Fails with `ToolNotFoundError` exactly when no tool bears the name;
    /// otherwise the named entry is invoked and its own failure, if any, is
    /// wrapped as `ToolCallError`.  Argument text that is not valid JSON
    /// fails with a wrapped `JsonError` before any tool logic runs.
    pub fn call(&self, toolname: &str, args: String) -> (r: Result<String, ToolSetError>)
        requires
            self.wf(),
        ensures
            !self@.contains_key(toolname@) ==> (r matches Err(ToolSetError::ToolNotFoundError(n))
                && n@ == toolname@),
            self@.contains_key(toolname@) ==> (match r {
                Ok(out) => self@[toolname@].spec_call_result(args@, Ok(out)),
                Err(ToolSetError::ToolCallError(e)) => self@[toolname@].spec_call_result(
                    args@,
                    Err(e),
                ),
                _ => false,
            }),
            self@.contains_key(toolname@) && spec_parse(args@) is None ==> (r matches Err(
                ToolSetError::ToolCallError(ToolError::JsonError(_)),
            )),
    {
        match self.get(toolname) {
            Some(t) => match t.call(args) {
                Ok(out) => Ok(out),
                Err(e) => Err(ToolSetError::ToolCallError(e)),
            },
            None => Err(ToolSetError::ToolNotFoundError(String::from_str(toolname))),
        }
    }

    /// One document per registered tool, in registration order: the id is
    /// the tool's name, the text embeds its pretty-printed definition
    /// produced with an empty prompt hint.
    pub fn documents(&self) -> (r: Result<Vec<Document>, ToolSetError>)
        ensures
            match r {
                Ok(docs) => docs@.len() == self.entries().len() && forall|i: int|
                    0 <= i < docs@.len() ==> (#[trigger] docs@[i]).id@
                        == self.entries()[i].spec_name() && exists|d: SpecToolDefinition|
                        self.entries()[i].spec_definition_ok(Seq::empty(), d) && docs@[i].text@
                        == document_text(self.entries()[i].spec_name(), d),
                Err(_) => false,
            },
    {
        let mut docs: Vec<Document> = Vec::new();
        let n = self.tools.len();
        let mut i: usize = 0;
        while i < n
            invariant
                n == self.tools@.len(),
                i <= n,
                docs@.len() == i,
                forall|q: int|
                    0 <= q < i ==> (#[trigger] docs@[q]).id@ == self.tools@[q].spec_name() && exists|
                        d: SpecToolDefinition,
                    |
                        self.tools@[q].spec_definition_ok(Seq::empty(), d) && docs@[q].text@
                            == document_text(self.tools@[q].spec_name(), d),
            decreases n - i,
        {
            let t = &self.tools[i];
            let name = t.name();
            let prompt = String::new();
            let ghost gp = prompt@;
            let def = t.definition(prompt);
            let ghost gdef = def@;
            proof {
                assert(gp =~= Seq::<char>::empty());
                assert(self.tools@[i as int].spec_definition_ok(Seq::empty(), gdef));
            }
            let dj = def.to_json();
            let pretty = dj.to_text_pretty();
            let mut text = String::from_str("Tool: ");
            text.append(name.as_str());
            text.append("\nDefinition: \n");
            text.append(pretty.as_str());
            proof {
                assert(text@ == document_text(self.tools@[i as int].spec_name(), gdef));
            }
            docs.push(Document { id: name, text });
            i = i + 1;
        }
        Ok(docs)
    }
}

/// Accumulates tools in order of addition, keeping apart the
/// always-available and the retrievable ones, and finalizes them into a
/// [`ToolSet`].
pub struct ToolSetBuilder<S: ToolDyn, E: ToolEmbeddingDyn> {
    tools: Vec<ToolType<S, E>>,
}

impl<S: ToolDyn, E: ToolEmbeddingDyn> Default for ToolSetBuilder<S, E> {
    /// A builder with no tools.
    fn default() -> (r: Self)
        ensures
            r.entries() == Seq::<ToolType<S, E>>::empty(),
    {
        ToolSetBuilder { tools: Vec::new() }
    }
}

impl<S: ToolDyn, E: ToolEmbeddingDyn> ToolSetBuilder<S, E> {
    /// The tools added so far, in order.
    pub closed spec fn entries(&self) -> Seq<ToolType<S, E>> {
        self.tools@
    }

    /// Add an always-available tool.
    pub fn static_tool(self, tool: S) -> (r: Self)
        ensures
            r.entries() == self.entries().push(ToolType::Simple(tool)),
    {
        let mut b = self;
        b.tools.push(ToolType::Simple(tool));
        b
    }

    /// Add a retrievable tool.
    pub fn dynamic_tool(self, tool: E) -> (r: Self)
        ensures
            r.entries() == self.entries().push(ToolType::Embedding(tool)),
    {
        let mut b = self;
        b.tools.push(ToolType::Embedding(tool));
        b
    }

    /// Finalize into a set.  Later tools of a name already used replace the
    /// earlier ones, as in [`ToolSet::add_tool`].
    pub fn build(self) -> (r: ToolSet<S, E>)
        ensures
            r.wf(),
            r@ == tools_map(self.entries()),
    {
        let mut set = ToolSet { tools: Vec::new() };
        let mut rest = self.tools;
        let ghost orig = rest@;
        while rest.len() > 0
            invariant
                set.wf(),
                rest@.len() <= orig.len(),
                rest@ =~= orig.skip(orig.len() - rest@.len()),
                set@ == tools_map(orig.take(orig.len() - rest@.len())),
            decreases rest@.len(),
        {
            let ghost c = orig.len() - rest@.len();
            let ghost before = set@;
            let ghost pre = rest@;
            let t = rest.remove(0);
            proof {
                assert(pre[0] == orig.skip(c)[0]);
                assert(orig.skip(c)[0] == orig[c]);
                assert(t == orig[c]);
                assert forall|q: int| 0 <= q < rest@.len() implies rest@[q] == orig.skip(c + 1)[q] by {
                    assert(rest@[q] == pre[q + 1]);
                    assert(pre[q + 1] == orig[c + 1 + q]);
                }
                assert(rest@ =~= orig.skip(c + 1));
            }
            set.add_entry(t);
            proof {
                assert(orig.take(c + 1) =~= orig.take(c).push(orig[c]));
                lemma_tools_map_push(orig.take(c), orig[c]);
            }
        }
        proof {
            assert(orig.take(orig.len() as int) =~= orig);
        }
        set
    }
}

/// Merging is right-biased: for sets `a` and `b` merged by
/// `a.add_tools(b)`, a name registered in `b` — in particular one
/// registered in both — maps to `b`'s entry afterwards, and is still
/// present.
pub proof fn lemma_merge_right_bias<S: ToolDyn, E: ToolEmbeddingDyn>(
    a: Map<Seq<char>, ToolType<S, E>>,
    b: Map<Seq<char>, ToolType<S, E>>,
    n: Seq<char>,
)
    requires
        b.contains_key(n),
    ensures
        a.union_prefer_right(b).contains_key(n),
        a.union_prefer_right(b)[n] == b[n],
{
}

} // verus!
