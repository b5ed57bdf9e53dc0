pub mod rsdp;

use vstd::prelude::*;

verus! {

/// The ACPI version an RSDP revision announces.
#[derive(Clone, Copy, Debug, PartialEq, Eq, Structural)]
pub enum AcpiVersion {
    /// Revision 0: ACPI 1.0.
    V1,
    /// Revision 2: ACPI 2.0 or later.
    V2OrLater,
}

/// The ACPI version for an RSDP revision; `None` for the revisions the kernel
/// does not support (anything but 0 and 2).
pub fn acpi_version(revision: u8) -> (r: Option<AcpiVersion>)
    ensures
        r == if revision == 0 {
            Some(AcpiVersion::V1)
        } else if revision == 2 {
            Some(AcpiVersion::V2OrLater)
        } else {
            None
        },
{
    match revision {
        0 => Some(AcpiVersion::V1),
        2 => Some(AcpiVersion::V2OrLater),
        _ => None,
    }
}

} // verus!
