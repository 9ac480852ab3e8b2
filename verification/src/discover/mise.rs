//! Describing tools installed through the mise version manager. Running
//! `mise` and parsing its JSON happen outside the library.

use vstd::prelude::*;

verus! {

/// The source configuration that requested a tool version, reduced to the
/// plain fields the logic reads.
#[derive(Debug, PartialEq)]
pub struct MiseSource {
    /// The kind of configuration file.
    pub source_type: Option<String>,
    /// The path of that file.
    pub path: Option<String>,
}

/// Build the description of a mise-managed tool from its name and source
/// configuration: the configuration file and path when both are known, the
/// file alone when only it is, and a generic note otherwise.
pub fn build_description(tool_name: &str, source: &Option<MiseSource>) -> (r: Option<String>)
    ensures
        r is Some,
        ({
            let d = r->0@;
            match *source {
                Some(s) => {
                    &&& (s.source_type is Some && s.path is Some ==> d == tool_name@ + " (from "@
                        + s.source_type->0@ + ": "@ + s.path->0@ + ")"@)
                    &&& (s.source_type is Some && s.path is None ==> d == tool_name@ + " (from "@
                        + s.source_type->0@ + ")"@)
                    &&& (s.source_type is None ==> d == tool_name@ + " (installed via mise)"@)
                },
                None => d == tool_name@ + " (installed via mise)"@,
            }
        }),
{
    match source {
        Some(s) => {
            match (&s.source_type, &s.path) {
                (Some(t), Some(p)) => {
                    let mut d = tool_name.to_owned();
                    d.append(" (from ");
                    d.append(t.as_str());
                    d.append(": ");
                    d.append(p.as_str());
                    d.append(")");
                    Some(d)
                },
                (Some(t), None) => {
                    let mut d = tool_name.to_owned();
                    d.append(" (from ");
                    d.append(t.as_str());
                    d.append(")");
                    Some(d)
                },
                _ => {
                    let mut d = tool_name.to_owned();
                    d.append(" (installed via mise)");
                    Some(d)
                },
            }
        },
        None => {
            let mut d = tool_name.to_owned();
            d.append(" (installed via mise)");
            Some(d)
        },
    }
}

} // verus!
