//! Start with the system: re-applying the user's choice after the OS forgot it.
use vstd::prelude::*;

verus! {

/// What a start-up sync of the autostart preference does.
pub enum AutostartSync {
    Nothing,
    /// No preference stored yet: record that autostart is on (the OS has it on).
    RecordEnabled,
    /// The user wants autostart but the OS entry is gone: enable it again.
    Enable,
}

/// The sync at start-up, from the stored preference (`None` when none is stored; a stored
/// value that is not a boolean counts as `false`) and whether the OS has autostart on.
pub fn autostart_sync(pref_stored: Option<bool>, os_enabled: bool) -> (r: AutostartSync)
    ensures
        pref_stored is None ==> (if os_enabled {
            r is RecordEnabled
        } else {
            r is Nothing
        }),
        pref_stored == Some(true) ==> (if os_enabled {
            r is Nothing
        } else {
            r is Enable
        }),
        pref_stored == Some(false) ==> r is Nothing,
{
    match pref_stored {
        None => if os_enabled {
            AutostartSync::RecordEnabled
        } else {
            AutostartSync::Nothing
        },
        Some(true) => if os_enabled {
            AutostartSync::Nothing
        } else {
            AutostartSync::Enable
        },
        Some(false) => AutostartSync::Nothing,
    }
}

/// The stored preference as read: off unless stored as `true`.
pub fn load_pref(pref_stored: Option<bool>) -> (r: bool)
    ensures
        r == (pref_stored == Some(true)),
{
    match pref_stored {
        Some(b) => b,
        None => false,
    }
}

} // verus!
