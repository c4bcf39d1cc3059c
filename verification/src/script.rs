//! The scripting hook's result type. Running a script is a collaborator's
//! business; its outcome is consumed as plain values and only reported,
//! never fed back into scan state.

use vstd::prelude::*;

verus! {

/// What one script run against a host (and optionally a port) reported.
#[derive(Debug, Clone)]
pub struct ScriptResult {
    pub script_name: String,
    pub host: String,
    pub port: Option<u16>,
    pub success: bool,
    pub output: String,
    pub error: Option<String>,
    /// Key-value pairs the script set, in the order they were read out.
    pub data: Vec<(String, String)>,
}

impl ScriptResult {
    /// A failure report that carries only an error message.
    pub fn failure(script_name: String, host: String, port: Option<u16>, error: String) -> (r:
        ScriptResult)
        ensures
            !r.success,
            r.script_name == script_name,
            r.host == host,
            r.port == port,
            r.error == Some(error),
            r.output@.len() == 0,
            r.data@.len() == 0,
    {
        let r = ScriptResult {
            script_name,
            host,
            port,
            success: false,
            output: String::new(),
            error: Some(error),
            data: Vec::new(),
        };
        proof {
            assert(r.data@ =~= Seq::<(String, String)>::empty());
        }
        r
    }
}

} // verus!
