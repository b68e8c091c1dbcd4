//! The two debug switches of the server: debug messages, and debug dumps of
//! request data.

use vstd::prelude::*;

verus! {

/// Debug messages start switched off.
pub const DEBUG: bool = false;

/// Dumps of request data start switched off.
pub const DEBUGDATA: bool = false;

/// The state of the two debug switches.
pub struct DebugSettings {
    debug: bool,
    debugdata: bool,
}

/// The two switches: debug messages, then data dumps.
pub struct DebugModel {
    pub debug: bool,
    pub debugdata: bool,
}

/// The switches after turning debug messages on or off.
pub open spec fn with_debug(m: DebugModel, flag: bool) -> DebugModel {
    DebugModel { debug: flag, debugdata: m.debugdata }
}

/// The switches after turning data dumps on or off.
pub open spec fn with_debugdata(m: DebugModel, flag: bool) -> DebugModel {
    DebugModel { debug: m.debug, debugdata: flag }
}

impl View for DebugSettings {
    type V = DebugModel;

    closed spec fn view(&self) -> DebugModel {
        DebugModel { debug: self.debug, debugdata: self.debugdata }
    }
}

impl DebugSettings {
    /// The switches as the server starts: `DEBUG` and `DEBUGDATA`.
    pub fn new() -> (r: DebugSettings)
        ensures
            r@ == (DebugModel { debug: DEBUG, debugdata: DEBUGDATA }),
    {
        DebugSettings { debug: DEBUG, debugdata: DEBUGDATA }
    }

    /// Turns debug messages on or off.
    pub fn change_debug(&mut self, flag: bool)
        ensures
            final(self)@ == with_debug(old(self)@, flag),
    {
        if flag {
            self.debug = true;
        } else {
            self.debug = false;
        }
    }

    /// Turns data dumps on or off.
    pub fn change_debugdata(&mut self, flag: bool)
        ensures
            final(self)@ == with_debugdata(old(self)@, flag),
    {
        if flag {
            self.debugdata = true;
        } else {
            self.debugdata = false;
        }
    }

    /// Whether debug messages are on.
    pub fn print_debug(&self) -> (r: bool)
        ensures
            r == self@.debug,
    {
        if self.debug {
            true
        } else {
            false
        }
    }

    /// Whether data dumps are on.
    pub fn print_debugdata(&self) -> (r: bool)
        ensures
            r == self@.debugdata,
    {
        if self.debugdata {
            true
        } else {
            false
        }
    }
}

/// Each switch reads back what was last written to it, and writing one
/// switch leaves the other as it was.
pub proof fn law_debug_switches(m: DebugModel, flag: bool)
    ensures
        with_debug(m, flag).debug == flag,
        with_debug(m, flag).debugdata == m.debugdata,
        with_debugdata(m, flag).debugdata == flag,
        with_debugdata(m, flag).debug == m.debug,
{
}

/// Writing a switch twice keeps only the last write.
pub proof fn law_debug_last_write_wins(m: DebugModel, first: bool, second: bool)
    ensures
        with_debug(with_debug(m, first), second) == with_debug(m, second),
        with_debugdata(with_debugdata(m, first), second) == with_debugdata(m, second),
{
}

} // verus!
