//! A plugin with one tool, which tells what a release brought.

use vstd::prelude::*;
use vstd::string::*;
use vstd::utf8::*;

verus! {

/// The name of the plugin.
pub const PLUGIN_NAME: &'static str = "hotplug-release-notes";

/// What the plugin declares of its tool, as JSON text.
pub const NOTES_SCHEMA: &'static str = "{\n            \"name\": \"release_notes\",\n            \"description\": \"Return the rutis release notes summary\",\n            \"parameters\": {\n                \"type\": \"object\",\n                \"properties\": {\n                    \"version\": { \"type\": \"string\", \"description\": \"optional version filter\" }\n                },\n                \"required\": []\n            }\n        }";

/// What the tool answers, as JSON text.
pub const NOTES_ANSWER: &'static str = "{\n            \"ok\": true,\n            \"notes\": \"v0.2.0: hot-loading (self_hotload), memory compact (self_compact), memory pointer, supervisor auto-restart, CI\"\n        }";

/// What is answered for a tool that the plugin does not have, as JSON text.
pub const NO_TOOL_ANSWER: &'static str = "{\"error\":\"unknown tool index\"}";

/// The name of the plugin.
pub fn rutis_plugin_name() -> (r: &'static str)
    ensures
        r@ == PLUGIN_NAME@,
{
    PLUGIN_NAME
}

/// How many tools the plugin has.
pub fn rutis_plugin_tool_count() -> (r: u32)
    ensures
        r == 1,
{
    1
}

/// What the plugin declares of its tool at place `i`; nothing where it has none.
pub open spec fn schema_at(i: u32) -> Seq<char> {
    if i == 0 {
        NOTES_SCHEMA@
    } else {
        ""@
    }
}

/// What the plugin declares of its tool at place `i`; nothing where it has none.
pub fn rutis_plugin_tool_schema(i: u32) -> (r: &'static str)
    ensures
        r@ == schema_at(i),
{
    if i == 0 {
        NOTES_SCHEMA
    } else {
        ""
    }
}

/// How many bytes the declaration at place `i` has.
pub fn rutis_plugin_tool_schema_len(i: u32) -> (r: u32)
    ensures
        r == encode_utf8(schema_at(i)).len() as u32,
{
    rutis_plugin_tool_schema(i).as_bytes().len() as u32
}

/// Runs the tool at place `i`, whatever its arguments are.
pub fn rutis_plugin_tool_invoke(i: u32, args_json: &str) -> (r: &'static str)
    ensures
        r@ == if i == 0 {
            NOTES_ANSWER@
        } else {
            NO_TOOL_ANSWER@
        },
{
    if i == 0 {
        NOTES_ANSWER
    } else {
        NO_TOOL_ANSWER
    }
}

} // verus!
