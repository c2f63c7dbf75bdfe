use vstd::prelude::*;

verus! {

/// The target platforms that the library can be built for.
#[derive(Debug, Clone, Copy, PartialEq, Eq, Structural)]
pub enum Platform {
    Esp32,
    Arduino32,
}

/// The identification string of a target platform.
pub fn platform_info(p: Platform) -> (r: &'static str)
    ensures
        p == Platform::Esp32 ==> r@ == "ESP32 Platform"@,
        p == Platform::Arduino32 ==> r@ == "Arduino32 Platform"@,
{
    match p {
        Platform::Esp32 => "ESP32 Platform",
        Platform::Arduino32 => "Arduino32 Platform",
    }
}

} // verus!
