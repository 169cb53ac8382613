//! The kernel's own decisions: its panic line and what each core does at start-up.
use vstd::prelude::*;
use vstd::string::*;

verus! {

/// The line that the kernel writes to its console when it panics: the
/// panic's message followed by a line break.
pub fn panic(message: &str) -> (line: String)
    ensures
        line@ == message@.push('\n'),
{
    proof {
        reveal_strlit("\n");
    }
    let line = message.to_owned().concat("\n");
    assert(line@ =~= message@.push('\n'));
    line
}


/// What one core does when the kernel starts on it.
pub struct StartupPlan {
    /// Set up the console before the start rendezvous.
    pub init_console: bool,
    /// Announce the kernel on the console after the rendezvous.
    pub announce: bool,
}

/// The bootstrap core, whose local APIC id is the bootstrap processor's id,
/// alone sets up the console, and announces the kernel unless it is quiet.
pub fn startup_plan(local_apic_id: u32, bootstrap_processor_id: u32, quiet: bool) -> (p: StartupPlan)
    ensures
        p.init_console == (local_apic_id == bootstrap_processor_id),
        p.announce == (local_apic_id == bootstrap_processor_id && !quiet),
{
    let bootstrap = local_apic_id == bootstrap_processor_id;
    StartupPlan { init_console: bootstrap, announce: bootstrap && !quiet }
}

} // verus!
