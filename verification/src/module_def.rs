//! What the binding layer registers: the module's name and the name under
//! which the container type is exposed to external callers.  The dispatch
//! machinery itself — turning these names into callable entries — belongs to
//! the hosting application, not to this crate.

use vstd::prelude::*;
use vstd::string::StringExecFns;

verus! {

/// The externally visible registration of this library: one module holding
/// one container class.
pub struct ModuleDef {
    /// The name the module is registered under.
    pub module_name: String,
    /// The name the container class is registered under inside the module.
    pub class_name: String,
}

/// The registration the binding layer publishes for this library.
pub fn make_module() -> (m: ModuleDef)
    ensures
        m.module_name@ == "_collections"@,
        m.class_name@ == "deque"@,
{
    ModuleDef {
        module_name: String::from_str("_collections"),
        class_name: String::from_str("deque"),
    }
}

} // verus!
