use vela::protocol::ProtocolVersion;

#[test]
fn compatibility_is_decided_by_major_version() {
    assert!(ProtocolVersion::current().is_compatible_with(ProtocolVersion { major: 1, minor: 99 }));
    assert!(!ProtocolVersion::current().is_compatible_with(ProtocolVersion { major: 2, minor: 0 }));
}

#[test]
fn compatibility_ignores_minor_and_is_symmetric() {
    let a = ProtocolVersion { major: 3, minor: 1 };
    let b = ProtocolVersion { major: 3, minor: 7 };
    let c = ProtocolVersion { major: 4, minor: 1 };
    assert!(a.is_compatible_with(a));
    assert!(a.is_compatible_with(b) && b.is_compatible_with(a));
    assert!(!a.is_compatible_with(c) && !c.is_compatible_with(a));
    assert_eq!(ProtocolVersion::current(), ProtocolVersion { major: 1, minor: 0 });
}
