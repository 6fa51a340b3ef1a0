//! Network device configuration modules.
use vstd::prelude::*;

verus! {

/// The names of the network configuration modules.
pub fn network_module_names() -> (r: Vec<&'static str>)
    ensures
        r@.len() == 4,
        r@[0]@ == "ios_config"@,
        r@[1]@ == "junos_config"@,
        r@[2]@ == "nxos_config"@,
        r@[3]@ == "eos_config"@,
{
    let mut v: Vec<&'static str> = Vec::new();
    v.push("ios_config");
    v.push("junos_config");
    v.push("nxos_config");
    v.push("eos_config");
    v
}

} // verus!
