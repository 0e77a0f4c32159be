//! The names each tool of the suite goes by in generated code.

use convert_case::Casing;
use vstd::prelude::*;

verus! {

/// What `convert_case`'s `Casing::to_case` with `Case::Kebab` gives for a text.
pub uninterp spec fn kebab_case(text: Seq<char>) -> Seq<char>;

/// What `convert_case`'s `StateConverter::to_case` gives for a text split as kebab case,
/// in PascalCase where `pascal` holds and in snake_case where it does not.
pub uninterp spec fn from_kebab_case(text: Seq<char>, pascal: bool) -> Seq<char>;

/// Trusted: calls `tool.to_case(Case::Kebab)` of `convert_case`; the result is named, not
/// stated.
#[verifier::external_body]
fn to_kebab(tool: &str) -> (r: String)
    ensures
        r@ == kebab_case(tool@),
{
    tool.to_case(convert_case::Case::Kebab)
}

/// Trusted: calls `kebab.from_case(Case::Kebab).to_case(..)` of `convert_case`, with
/// `Case::Pascal` where `pascal` holds and `Case::Snake` where it does not; the result is
/// named, not stated.
#[verifier::external_body]
fn from_kebab(kebab: &str, pascal: bool) -> (r: String)
    ensures
        r@ == from_kebab_case(kebab@, pascal),
{
    let case = if pascal { convert_case::Case::Pascal } else { convert_case::Case::Snake };
    kebab.from_case(convert_case::Case::Kebab).to_case(case)
}

/// The names of a tool: the kebab case name it is called by, and the Pascal case and snake
/// case names of its variant and module, both taken from the kebab case name.
#[derive(Debug, Clone, PartialEq, Eq)]
pub struct ToolNames {
    /// Name the tool is called by.
    pub kebab: String,
    /// Name of its variant.
    pub pascal: String,
    /// Name of its module.
    pub snake: String,
}

/// Whether names are those of a tool.
pub open spec fn names_of(tool: Seq<char>, n: ToolNames) -> bool {
    &&& n.kebab@ == kebab_case(tool)
    &&& n.pascal@ == from_kebab_case(kebab_case(tool), true)
    &&& n.snake@ == from_kebab_case(kebab_case(tool), false)
}

/// The names of one tool.
pub fn tool_names(tool: &str) -> (r: ToolNames)
    ensures
        names_of(tool@, r),
{
    let kebab = to_kebab(tool);
    let pascal = from_kebab(kebab.as_str(), true);
    let snake = from_kebab(kebab.as_str(), false);
    ToolNames { kebab, pascal, snake }
}

/// The names of every tool, in order.
pub fn all_tool_names(tools: &[String]) -> (r: Vec<ToolNames>)
    ensures
        r@.len() == tools@.len(),
        forall|i: int| 0 <= i < tools@.len() ==> names_of(#[trigger] tools@[i]@, r@[i]),
{
    let mut out: Vec<ToolNames> = Vec::new();
    let mut i: usize = 0;
    while i < tools.len()
        invariant
            i <= tools@.len(),
            out@.len() == i,
            forall|k: int| 0 <= k < i ==> names_of(#[trigger] tools@[k]@, out@[k]),
        decreases tools@.len() - i,
    {
        out.push(tool_names(tools[i].as_str()));
        i = i + 1;
    }
    out
}

/// What serde_json reads from a text: the strings of its top-level array when every element
/// is a string, else none.
pub uninterp spec fn json_string_array(json: Seq<char>) -> Option<Seq<Seq<char>>>;

/// Trusted: parses the text with `serde_json::from_str` into a `serde_json::Value` and hands
/// back the strings of an array whose elements are all strings, else nothing (also where the
/// text is no JSON). What serde_json reads is named, not stated.
#[verifier::external_body]
fn parse_string_array(json: &str) -> (r: Option<Vec<String>>)
    ensures
        match r {
            Some(v) => json_string_array(json@) == Some(v@.map_values(|s: String| s@)),
            None => json_string_array(json@) is None,
        },
{
    match serde_json::from_str::<serde_json::Value>(json) {
        Ok(serde_json::Value::Array(items)) => items
            .into_iter()
            .map(|item| match item {
                serde_json::Value::String(s) => Some(s),
                _ => None,
            })
            .collect(),
        _ => None,
    }
}

/// The names of every tool of a JSON text that lists them as an array of strings, in order;
/// nothing where the text is no such array.
pub fn tools_from_json(json: &str) -> (r: Option<Vec<ToolNames>>)
    ensures
        match json_string_array(json@) {
            None => r is None,
            Some(ts) => r matches Some(ns) && ns@.len() == ts.len()
                && forall|i: int| 0 <= i < ts.len() ==> names_of(ts[i], #[trigger] ns@[i]),
        },
{
    match parse_string_array(json) {
        None => None,
        Some(tools) => {
            let names = all_tool_names(tools.as_slice());
            proof {
                let ts = tools@.map_values(|s: String| s@);
                assert forall|i: int| 0 <= i < ts.len() implies names_of(ts[i], #[trigger] names@[i]) by {
                    assert(names_of(tools@[i]@, names@[i]));
                }
            }
            Some(names)
        },
    }
}

} // verus!
