//! Reading a provider's tool catalog: the answer to `tools/list` is an object
//! whose `tools` member is an array; each element names a tool and may carry a
//! description and an `inputSchema`.
use vstd::prelude::*;
use crate::json::{json_array, json_member, json_str, member, elements, text};

verus! {

/// One callable tool as presented to an outside caller.
#[derive(Debug)]
pub struct ToolDescription {
    pub name: String,
    pub description: String,
    pub parameters: serde_json::Value,
}

impl View for ToolDescription {
    type V = (Seq<char>, Seq<char>, serde_json::Value);

    open spec fn view(&self) -> Self::V {
        (self.name@, self.description@, self.parameters)
    }
}

/// The elements of the `tools` array of a `tools/list` answer; none when the
/// answer has no such array.
pub open spec fn tool_entries(response: serde_json::Value) -> Seq<serde_json::Value> {
    match json_member(response, "tools"@) {
        Some(tools) => match json_array(tools) {
            Some(entries) => entries,
            None => Seq::empty(),
        },
        None => Seq::empty(),
    }
}

/// The `name` of one catalog entry, when it is a string.
pub open spec fn entry_name(entry: serde_json::Value) -> Option<Seq<char>> {
    match json_member(entry, "name"@) {
        Some(n) => json_str(n),
        None => None,
    }
}

/// The `description` of one catalog entry, when it is a string.
pub open spec fn entry_description(entry: serde_json::Value) -> Option<Seq<char>> {
    match json_member(entry, "description"@) {
        Some(d) => json_str(d),
        None => None,
    }
}

/// The description of one catalog entry: its name, its description and its
/// `inputSchema`, copied as they stand, when all three are there.
pub open spec fn entry_view(entry: serde_json::Value) -> Option<
    (Seq<char>, Seq<char>, serde_json::Value),
> {
    match (entry_name(entry), entry_description(entry), json_member(entry, "inputSchema"@)) {
        (Some(n), Some(d), Some(s)) => Some((n, d, s)),
        _ => None,
    }
}

/// The names of the entries that have one, in catalog order.
pub open spec fn names_of(entries: Seq<serde_json::Value>) -> Seq<Seq<char>>
    decreases entries.len(),
{
    if entries.len() == 0 {
        Seq::empty()
    } else {
        let before = names_of(entries.drop_last());
        match entry_name(entries.last()) {
            Some(n) => before.push(n),
            None => before,
        }
    }
}

/// The descriptions of the complete entries, in catalog order.
pub open spec fn descriptions_of(entries: Seq<serde_json::Value>) -> Seq<
    (Seq<char>, Seq<char>, serde_json::Value),
>
    decreases entries.len(),
{
    if entries.len() == 0 {
        Seq::empty()
    } else {
        let before = descriptions_of(entries.drop_last());
        match entry_view(entries.last()) {
            Some(d) => before.push(d),
            None => before,
        }
    }
}

/// When every entry of a catalog is complete, the catalog gives one
/// description per entry, in order, each with the entry's name, description
/// and schema as they stand.
pub proof fn lemma_catalog_round_trip(response: serde_json::Value)
    requires
        forall|i: int|
            0 <= i < tool_entries(response).len() ==> (#[trigger] entry_view(
                tool_entries(response)[i],
            )) is Some,
    ensures
        descriptions_of(tool_entries(response)).len() == tool_entries(response).len(),
        forall|i: int|
            0 <= i < tool_entries(response).len() ==> #[trigger] descriptions_of(
                tool_entries(response),
            )[i] == entry_view(tool_entries(response)[i])->Some_0,
{
    lemma_complete_entries(tool_entries(response));
}

proof fn lemma_complete_entries(entries: Seq<serde_json::Value>)
    requires
        forall|i: int| 0 <= i < entries.len() ==> (#[trigger] entry_view(entries[i])) is Some,
    ensures
        descriptions_of(entries).len() == entries.len(),
        forall|i: int|
            0 <= i < entries.len() ==> #[trigger] descriptions_of(entries)[i] == entry_view(
                entries[i],
            )->Some_0,
    decreases entries.len(),
{
    if entries.len() > 0 {
        let rest = entries.drop_last();
        assert forall|i: int| 0 <= i < rest.len() implies (#[trigger] entry_view(rest[i])) is Some by {
            assert(rest[i] == entries[i]);
        }
        lemma_complete_entries(rest);
        assert(entry_view(entries[entries.len() - 1]) is Some);
        assert forall|i: int| 0 <= i < entries.len() implies #[trigger] descriptions_of(entries)[i]
            == entry_view(entries[i])->Some_0 by {
            if i < entries.len() - 1 {
                assert(rest[i] == entries[i]);
            }
        }
    }
}

/// The text of `key` in `entry`, when it is a string.
fn string_member(entry: &serde_json::Value, key: &str) -> (r: Option<String>)
    ensures
        r matches Some(s) ==> (match json_member(*entry, key@) {
            Some(m) => json_str(m) == Some(s@),
            None => false,
        }),
        r is None ==> (match json_member(*entry, key@) {
            Some(m) => json_str(m) is None,
            None => true,
        }),
{
    match member(entry, key) {
        Some(m) => match text(m) {
            Some(s) => Some(s.to_owned()),
            None => None,
        },
        None => None,
    }
}

/// The elements of the `tools` array of `response`.
fn catalog_entries(response: &serde_json::Value) -> (r: Option<&Vec<serde_json::Value>>)
    ensures
        match r {
            Some(a) => a@ == tool_entries(*response),
            None => tool_entries(*response) == Seq::<serde_json::Value>::empty(),
        },
{
    match member(response, "tools") {
        Some(tools) => elements(tools),
        None => None,
    }
}

/// The tool names that a `tools/list` answer advertises, in its order;
/// entries without a string `name` are passed over.
pub fn tool_names(response: &serde_json::Value) -> (r: Vec<String>)
    ensures
        r@.map_values(|s: String| s@) == names_of(tool_entries(*response)),
{
    let mut names: Vec<String> = Vec::new();
    match catalog_entries(response) {
        Some(entries) => {
            let mut i: usize = 0;
            while i < entries.len()
                invariant
                    i <= entries@.len(),
                    entries@ == tool_entries(*response),
                    names@.map_values(|s: String| s@) == names_of(entries@.take(i as int)),
                decreases entries@.len() - i,
            {
                assert(entries@.take(i as int + 1).drop_last() == entries@.take(i as int));
                match string_member(&entries[i], "name") {
                    Some(n) => {
                        names.push(n);
                    },
                    None => {},
                }
                i = i + 1;
            }
            assert(entries@.take(entries@.len() as int) == entries@);
        },
        None => {},
    }
    names
}

/// The descriptions of the tools that a `tools/list` answer lists, in its
/// order, each copied as it stands; entries that lack a string `name`, a
/// string `description` or an `inputSchema` are passed over.
pub fn tool_descriptions(response: &serde_json::Value) -> (r: Vec<ToolDescription>)
    ensures
        r@.map_values(|d: ToolDescription| d@) == descriptions_of(tool_entries(*response)),
{
    let mut tools: Vec<ToolDescription> = Vec::new();
    match catalog_entries(response) {
        Some(entries) => {
            let mut i: usize = 0;
            while i < entries.len()
                invariant
                    i <= entries@.len(),
                    entries@ == tool_entries(*response),
                    tools@.map_values(|d: ToolDescription| d@) == descriptions_of(
                        entries@.take(i as int),
                    ),
                decreases entries@.len() - i,
            {
                assert(entries@.take(i as int + 1).drop_last() == entries@.take(i as int));
                let entry = &entries[i];
                let name = string_member(entry, "name");
                let description = string_member(entry, "description");
                let schema = member(entry, "inputSchema");
                match (name, description, schema) {
                    (Some(n), Some(d), Some(s)) => {
                        tools.push(ToolDescription { name: n, description: d, parameters: s.clone() });
                    },
                    _ => {},
                }
                i = i + 1;
            }
            assert(entries@.take(entries@.len() as int) == entries@);
        },
        None => {},
    }
    tools
}

} // verus!
