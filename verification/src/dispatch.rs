//! The command dispatcher: what one invocation does to the collection.
//!
//! A command is interpreted against the loaded collection; the result says
//! what the collection becomes, whether it must be persisted, and which
//! lines are reported.  Saving is asked for only when the collection
//! actually changed.

use vstd::prelude::*;
use vstd::map::*;
use crate::store::{Snippet, SnippetMap, SnippetView};
use crate::timestamp::{Timestamp, fmt_rfc3339, render_rfc3339};
use crate::chars::string_from_chars;

verus! {

/// One parsed invocation: exactly one intent.
#[derive(Debug)]
pub enum Command {
    /// Store `content` under `name`, replacing what was there.
    Create { name: String, content: String },
    /// Print the snippet under `name`.
    Read { name: String },
    /// Remove the snippet under `name`.
    Delete { name: String },
    /// No intent given: explain the invocations.
    Usage,
}

/// What one command did: the new collection, whether it must be saved,
/// and the lines to report.
pub struct DispatchResult {
    pub map: SnippetMap,
    pub save: bool,
    pub output: Vec<String>,
}

/// Runs one command against the collection.  Create inserts under the name
/// with the given moment and asks to save; read changes nothing; delete
/// removes and asks to save only when the name was present; usage reports
/// the invocations.
pub fn dispatch(map: SnippetMap, cmd: Command, now: Timestamp) -> (r: DispatchResult)
    requires
        map.wf(),
        now.valid(),
    ensures
        r.map.wf(),
        (cmd matches Command::Create { name, content } ==> r.save && r.map.as_map()
            == map.as_map().insert(name@, SnippetView { content: content@, created_at: now })
            && r.output@.len() == 1 && r.output@[0]@ == "Snippet saved."@),
        (cmd matches Command::Read { name } ==> !r.save && r.map == map && (if map.as_map().contains_key(
            name@,
        ) {
            r.output@.len() == 2 && r.output@[0]@ == "Created at: "@ + fmt_rfc3339(
                map.as_map()[name@].created_at,
            ) && r.output@[1]@ == map.as_map()[name@].content
        } else {
            r.output@.len() == 1 && r.output@[0]@ == "Snippet not found."@
        })),
        (cmd matches Command::Delete { name } ==> (if map.as_map().contains_key(name@) {
            r.save && r.map.as_map() == map.as_map().remove(name@) && r.output@.len() == 1
                && r.output@[0]@ == "Snippet deleted."@
        } else {
            !r.save && r.map == map && r.output@.len() == 1 && r.output@[0]@
                == "Snippet not found."@
        })),
        (cmd is Usage ==> !r.save && r.map == map && r.output@.len() == 4 && r.output@[0]@
            == "Usage:"@ && r.output@[1]@ == "  --name <name> [--download URL]"@ && r.output@[2]@
            == "  --read <name>"@ && r.output@[3]@ == "  --delete <name>"@),
{
    match cmd {
        Command::Create { name, content } => {
            let mut m = map;
            m.insert(name, Snippet { content, created_at: now });
            let mut out: Vec<String> = Vec::new();
            out.push(String::from_str("Snippet saved."));
            DispatchResult { map: m, save: true, output: out }
        },
        Command::Read { name } => {
            let mut out: Vec<String> = Vec::new();
            match map.get(name.as_str()) {
                Some(sn) => {
                    let tsv = render_rfc3339(&sn.created_at);
                    let ts = string_from_chars(&tsv);
                    let line = String::from_str("Created at: ").concat(ts.as_str());
                    out.push(line);
                    out.push(sn.content.clone());
                },
                None => {
                    out.push(String::from_str("Snippet not found."));
                },
            }
            DispatchResult { map, save: false, output: out }
        },
        Command::Delete { name } => {
            let mut m = map;
            let present = m.remove(name.as_str());
            let mut out: Vec<String> = Vec::new();
            if present {
                out.push(String::from_str("Snippet deleted."));
            } else {
                out.push(String::from_str("Snippet not found."));
            }
            DispatchResult { map: m, save: present, output: out }
        },
        Command::Usage => {
            let mut out: Vec<String> = Vec::new();
            out.push(String::from_str("Usage:"));
            out.push(String::from_str("  --name <name> [--download URL]"));
            out.push(String::from_str("  --read <name>"));
            out.push(String::from_str("  --delete <name>"));
            DispatchResult { map, save: false, output: out }
        },
    }
}

} // verus!
