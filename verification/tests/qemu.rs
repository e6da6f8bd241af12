use palladiumos::qemu::QemuExitCode;

#[test]
fn exit_codes() {
    assert_eq!(QemuExitCode::Success.code(), 0x10);
    assert_eq!(QemuExitCode::Failed.code(), 0x11);
}

#[test]
fn trivial_assertion() {
    assert_eq!(1, 1);
}
