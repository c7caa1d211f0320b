//! Under `sudo` the process loses the invoking user's runtime directory and
//! PulseAudio/PipeWire socket, so audio capture cannot reach the user's sound
//! server. The paths are rebuilt from the invoking user's id.
use vstd::prelude::*;
use vstd::string::StringExecFns;

verus! {

/// The runtime directory (`XDG_RUNTIME_DIR`) and the PulseAudio server address
/// (`PULSE_SERVER`) of the user with id `uid`: `/run/user/<uid>` and
/// `unix:/run/user/<uid>/pulse/native`.
pub fn session_paths(uid: &str) -> (r: (String, String))
    ensures
        r.0@ == "/run/user/"@ + uid@,
        r.1@ == "unix:"@ + r.0@ + "/pulse/native"@,
{
    let mut run = String::from_str("/run/user/");
    run.append(uid);
    let mut pulse = String::from_str("unix:");
    pulse.append(run.as_str());
    pulse.append("/pulse/native");
    (run, pulse)
}

} // verus!
