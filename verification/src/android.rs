//! Platform hooks as a desktop OS answers them: there is no content
//! resolver, no user-given device name, and nothing that suspends or
//! throttles the process, so every hook is inert.
use vstd::prelude::*;

verus! {

/// The display name a content provider gives a URI; desktop has none.
pub fn display_name(uri: &str) -> (r: Option<String>)
    ensures
        r is None,
{
    None
}

/// The name the user gave the device in the OS settings; desktop has none.
pub fn device_name() -> (r: Option<String>)
    ensures
        r is None,
{
    None
}

/// Desktop displays sleeping does not suspend the process, so there is
/// nothing to hold.
pub fn set_keep_screen_on(on: bool) {
}

/// Desktop processes are not suspended when unfocused, so no foreground
/// service is needed.
pub fn start_background_service(detail: Option<&str>) {
}

pub fn stop_background_service() {
}

/// Nothing throttles a desktop process this way, so it is always exempt.
pub fn is_ignoring_battery_optimizations() -> (b: bool)
    ensures
        b,
{
    true
}

pub fn request_ignore_battery_optimizations() {
}

} // verus!
