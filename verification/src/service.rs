//! What every front end does with disks: list them, and execute one
//! operation after re-reading the disk, re-validating the request against
//! it and checking that anything at High risk or above was confirmed.
use vstd::prelude::*;
use crate::models::Disk;
use crate::operations::{
    execution_text, spec_validate, validate, Confirmation, DiskOperationExecutor, ExecutionError,
    OperationRequest,
};
use crate::platform::{disk_from_listing, inventory_text, listing_view, DiskInventory, InventoryError};
use crate::models::str_eq;

verus! {

/// The platform name front ends show: `windows`, `macos` or `linux`, for
/// the operating system `os` (as `std::env::consts::OS` names it).
pub open spec fn spec_platform_name(os: Seq<char>) -> Seq<char> {
    if os == "windows"@ {
        "windows"@
    } else if os == "macos"@ {
        "macos"@
    } else {
        "linux"@
    }
}

pub fn platform_name(os: &str) -> (r: &'static str)
    ensures
        r@ == spec_platform_name(os@),
{
    if str_eq(os, "windows") {
        "windows"
    } else if str_eq(os, "macos") {
        "macos"
    } else {
        "linux"
    }
}

/// What a front end gets for a listing: the disks, or the error's text.
pub fn list_disks_reply(listing: Result<Vec<Disk>, InventoryError>) -> (r: Result<Vec<Disk>, String>)
    ensures
        match listing {
            Ok(d) => r == Ok::<Vec<Disk>, String>(d),
            Err(e) => r matches Err(m) && m@ == inventory_text(e),
        },
{
    match listing {
        Ok(d) => Ok(d),
        Err(e) => Err(e.message()),
    }
}

/// `r` is the reply for listing `l`: its disks, or its error's text.
pub open spec fn reply_of(l: Result<Seq<Disk>, InventoryError>, r: Result<Vec<Disk>, String>) -> bool {
    match l {
        Ok(ds) => r matches Ok(v) && v@ == ds,
        Err(e) => r matches Err(m) && m@ == inventory_text(e),
    }
}

/// Lists the disks of `inventory`.
pub fn list_disks<I: DiskInventory>(inventory: &I) -> (r: Result<Vec<Disk>, String>)
    ensures
        exists|l: Result<Seq<Disk>, InventoryError>| #[trigger] inventory.lists(l) && reply_of(l, r),
{
    let listing = inventory.list_disks();
    let ghost l = listing_view(listing);
    let r = list_disks_reply(listing);
    assert(inventory.lists(l) && reply_of(l, r));
    r
}

/// `d` is what reading disk `id` of `inventory` gave.
pub open spec fn read_as<I: DiskInventory>(inventory: I, id: Seq<char>, d: Result<Disk, InventoryError>) -> bool {
    exists|l: Result<Seq<Disk>, InventoryError>| #[trigger] inventory.lists(l) && disk_from_listing(l, id, d)
}

/// Whether a request may be executed on the disk as just read: the error
/// text if not.
pub open spec fn spec_execute_check(
    disk: Result<Disk, InventoryError>,
    request: OperationRequest,
    confirmed: bool,
) -> Option<Seq<char>> {
    match disk {
        Err(e) => Some(execution_text(ExecutionError::Inventory(e))),
        Ok(d) => match spec_validate(d, request) {
            Err(v) => Some(execution_text(ExecutionError::ValidationFailed(v))),
            Ok(()) => if request.spec_risk().spec_rank() >= 2 && !confirmed {
                Some(execution_text(ExecutionError::ConfirmationMissing))
            } else {
                None
            },
        },
    }
}

/// Checks a request against the disk as just read: the disk if the
/// request may go ahead, else the text of why not.
pub fn execute_check(disk: Result<Disk, InventoryError>, request: &OperationRequest, confirmed: bool) -> (r:
    Result<Disk, String>)
    ensures
        match spec_execute_check(disk, *request, confirmed) {
            Some(m) => r matches Err(x) && x@ == m,
            None => disk matches Ok(d) && r == Ok::<Disk, String>(d),
        },
{
    let d = match disk {
        Ok(d) => d,
        Err(e) => return Err(ExecutionError::Inventory(e).message()),
    };
    match validate(&d, request) {
        Ok(()) => {},
        Err(v) => return Err(ExecutionError::ValidationFailed(v).message()),
    }
    if request.risk().rank() >= 2 && !confirmed {
        return Err(ExecutionError::ConfirmationMissing.message());
    }
    Ok(d)
}

/// Validates and, if it passes, executes a single operation: the disk is
/// read again, the request checked against it, and anything at High risk
/// or above needs `confirmed`. Where the check refuses the request, the
/// executor is not called and is left as it was.
pub fn execute<I: DiskInventory, E: DiskOperationExecutor>(
    inventory: &I,
    executor: &mut E,
    request: &OperationRequest,
    confirmed: bool,
) -> (r: Result<(), String>)
    ensures
        r is Ok ==> (request.spec_risk().spec_rank() >= 2 ==> confirmed),
        r is Ok ==> exists|d: Disk|
            d.id.0@ == request.spec_disk_id() && #[trigger] spec_validate(d, *request) is Ok,
        exists|d: Result<Disk, InventoryError>|
            #[trigger] read_as(*inventory, request.spec_disk_id(), d) && match spec_execute_check(
                d,
                *request,
                confirmed,
            ) {
                Some(x) => r matches Err(m) && m@ == x && *final(executor) == *old(executor),
                None => r is Ok || (r matches Err(m) && exists|e: ExecutionError| m@ == #[trigger] execution_text(e)),
            },
{
    let id = request.disk_id();
    let disk = inventory.disk(&id);
    let ghost read = disk;
    assert(read_as(*inventory, request.spec_disk_id(), read));
    match execute_check(disk, request, confirmed) {
        Ok(_) => {},
        Err(m) => return Err(m),
    }
    assert(read matches Ok(d) && spec_validate(d, *request) is Ok);
    match executor.execute(request, Confirmation { confirmed }) {
        Ok(()) => Ok(()),
        Err(e) => {
            let m = e.message();
            assert(m@ == execution_text(e));
            Err(m)
        },
    }
}

/// Requests that destroy data (deleting or formatting a partition, erasing
/// a disk) are never carried out unconfirmed: once the disk as read
/// accepts them, unconfirmed they are refused with the confirmation
/// error, and confirmed they go ahead. Creating a partition, relabelling
/// and assigning a drive letter need no confirmation.
pub proof fn lemma_destructive_needs_confirmation(d: Disk, req: OperationRequest)
    ensures
        (req is DeletePartition || req is FormatPartition || req is EraseDisk) && spec_validate(d, req) is Ok
            ==> spec_execute_check(Ok(d), req, false) == Some(execution_text(ExecutionError::ConfirmationMissing)),
        !(req is DeletePartition || req is FormatPartition || req is EraseDisk) && spec_validate(d, req) is Ok
            ==> spec_execute_check(Ok(d), req, false) is None,
        spec_validate(d, req) is Ok ==> spec_execute_check(Ok(d), req, true) is None,
        spec_validate(d, req) is Err ==> spec_execute_check(Ok(d), req, true) is Some,
{
}

} // verus!
