use moondisk::helper::{helper_step, run_from_args, HelperAction, HelperEvent, HelperRequest, HelperState};
use moondisk::models::{ByteSize, DiskId, FileSystem, PartitionId};
use moondisk::operations::{Confirmation, DiskOperationExecutor, ExecutionError, OperationRequest};
use moondisk::platform::mock::MockDiskProvider;
use moondisk::platform::{DiskInventory, InventoryError};
use moondisk::service::{execute, execute_check, list_disks, list_disks_reply, platform_name};

#[test]
fn parses_its_arguments() {
    let args = |a: &[&str]| a.iter().map(|s| s.to_string()).collect::<Vec<_>>();
    assert!(run_from_args(&args(&["--listen"])).is_err());
    assert!(run_from_args(&args(&["--listen", "/tmp/x", "--owner", "me"]))
        .unwrap_err()
        .contains("user id"));
}

#[test]
fn reads_the_socket_and_the_owner() {
    let args = |a: &[&str]| a.iter().map(|s| s.to_string()).collect::<Vec<_>>();
    let a = run_from_args(&args(&["--owner", "501", "--listen", "/tmp/sock"])).unwrap();
    assert_eq!(a.socket, "/tmp/sock");
    assert_eq!(a.owner, 501);
    assert_eq!(
        run_from_args(&args(&["--listen", "/tmp/x"])).unwrap_err(),
        "usage: moondisk-helper --listen <socket> --owner <uid> (missing --owner)"
    );
    assert_eq!(
        run_from_args(&args(&[])).unwrap_err(),
        "usage: moondisk-helper --listen <socket> --owner <uid> (missing --listen)"
    );
}

#[test]
fn names_the_platform() {
    assert_eq!(platform_name("windows"), "windows");
    assert_eq!(platform_name("macos"), "macos");
    assert_eq!(platform_name("linux"), "linux");
    assert_eq!(platform_name("freebsd"), "linux");
}

#[test]
fn lists_the_mock_disks_and_reports_read_errors() {
    assert_eq!(list_disks(&MockDiskProvider).unwrap().len(), 3);
    assert_eq!(
        list_disks_reply(Err(InventoryError::ReadFailed("lsblk missing".into()))).unwrap_err(),
        "could not read disk information: lsblk missing"
    );
}

struct Recorder {
    calls: usize,
}

impl DiskOperationExecutor for Recorder {
    fn execute(&mut self, _req: &OperationRequest, confirmation: Confirmation) -> Result<(), ExecutionError> {
        assert!(confirmation.confirmed);
        self.calls += 1;
        Ok(())
    }
}

fn delete_on_usb_stick() -> OperationRequest {
    OperationRequest::DeletePartition {
        partition: PartitionId::new(&DiskId::from_str("mock-disk-3"), 1),
    }
}

#[test]
fn high_risk_requests_need_a_confirmation() {
    let mut exec = Recorder { calls: 0 };
    let err = execute(&MockDiskProvider, &mut exec, &delete_on_usb_stick(), false).unwrap_err();
    assert_eq!(err, "confirmation is missing or invalid");
    assert_eq!(exec.calls, 0);
    execute(&MockDiskProvider, &mut exec, &delete_on_usb_stick(), true).unwrap();
    assert_eq!(exec.calls, 1);
}

#[test]
fn refuses_operations_on_unknown_disks_and_invalid_requests() {
    let mut exec = Recorder { calls: 0 };
    let req = OperationRequest::EraseDisk {
        disk: DiskId::from_str("/dev/does-not-exist"),
        filesystem: FileSystem::ExFat,
        label: Some("USB".into()),
    };
    let err = execute(&MockDiskProvider, &mut exec, &req, true).unwrap_err();
    assert!(err.contains("not found"), "{err}");
    assert_eq!(err, "could not read the disk: disk /dev/does-not-exist not found");

    let stick = MockDiskProvider.disk(&DiskId::from_str("mock-disk-3"));
    let misaligned = OperationRequest::CreatePartition {
        disk: DiskId::from_str("mock-disk-3"),
        start: ByteSize(7),
        size: ByteSize(1024 * 1024),
        filesystem: FileSystem::Fat32,
        label: None,
        drive_letter: None,
    };
    assert_eq!(
        execute_check(stick, &misaligned, true).unwrap_err(),
        "validation failed: Anfang oder Größe ist nicht auf 1 MiB ausgerichtet"
    );
    assert_eq!(exec.calls, 0);
}

#[test]
fn the_helper_writes_one_image_at_a_time() {
    let idle = HelperState { writing: false };
    let (writing, action) = helper_step(idle, HelperEvent::Request(HelperRequest::Flash));
    assert!(writing.writing);
    assert!(matches!(action, HelperAction::StartWrite));

    let (same, action) = helper_step(writing, HelperEvent::Request(HelperRequest::Flash));
    assert_eq!(same, writing);
    match action {
        HelperAction::Refuse(m) => assert_eq!(m, "another image is already being written"),
        other => panic!("unexpected {other:?}"),
    }
    let (_, action) = helper_step(writing, HelperEvent::Request(HelperRequest::Execute));
    match action {
        HelperAction::Refuse(m) => {
            assert_eq!(m, "an image is being written to a USB drive \u{2014} wait until it finishes")
        }
        other => panic!("unexpected {other:?}"),
    }
    let (still, action) = helper_step(writing, HelperEvent::Request(HelperRequest::CancelFlash));
    assert!(still.writing);
    assert!(matches!(action, HelperAction::Cancel));

    let (done, action) = helper_step(writing, HelperEvent::WriteFinished);
    assert!(!done.writing);
    assert!(matches!(action, HelperAction::Nothing));
    let (_, action) = helper_step(done, HelperEvent::Request(HelperRequest::Execute));
    assert!(matches!(action, HelperAction::Execute));
    let (_, action) = helper_step(done, HelperEvent::ClientGone);
    assert!(matches!(action, HelperAction::Shutdown));
}
