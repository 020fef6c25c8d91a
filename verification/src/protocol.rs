use vstd::prelude::*;

verus! {

/// Major version of the local IPC protocol spoken by this core.
pub const IPC_PROTOCOL_MAJOR: u16 = 1;

/// Minor version of the local IPC protocol spoken by this core.
pub const IPC_PROTOCOL_MINOR: u16 = 0;

/// A protocol version carried by every IPC message.
#[derive(Debug, Clone, Copy, PartialEq, Eq, Structural)]
pub struct ProtocolVersion {
    pub major: u16,
    pub minor: u16,
}

/// Two peers can talk when they speak the same major version; the minor
/// version does not matter.
pub open spec fn compatible(a: ProtocolVersion, b: ProtocolVersion) -> bool {
    a.major == b.major
}

impl ProtocolVersion {
    /// The version this core speaks.
    pub fn current() -> (v: Self)
        ensures
            v.major == IPC_PROTOCOL_MAJOR,
            v.minor == IPC_PROTOCOL_MINOR,
    {
        ProtocolVersion { major: IPC_PROTOCOL_MAJOR, minor: IPC_PROTOCOL_MINOR }
    }

    /// Peers accept different minor versions and reject different major versions.
    pub fn is_compatible_with(self, other: Self) -> (r: bool)
        ensures
            r == compatible(self, other),
    {
        self.major == other.major
    }
}

/// Compatibility is an equivalence between versions (reflexive, symmetric
/// and transitive), and changing a minor version never changes it.
pub proof fn law_compatibility_is_an_equivalence_on_majors(
    a: ProtocolVersion,
    b: ProtocolVersion,
    c: ProtocolVersion,
    minor: u16,
)
    ensures
        compatible(a, a),
        compatible(a, b) == compatible(b, a),
        compatible(a, b) && compatible(b, c) ==> compatible(a, c),
        compatible(a, b) == compatible(a, ProtocolVersion { major: b.major, minor }),
{
}

} // verus!
