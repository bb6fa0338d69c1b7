# moondisk

The core of a disk manager and USB writer, with its behaviour stated as
Verus contracts and proved.

- `src/models.rs`: disks, partitions, layouts, ids and sizes.
- `src/operations.rs`: the requests a front end sends, their risk, and the
  rules a request is validated against.
- `src/platform/`: turning what `lsblk`, PowerShell and `diskutil` report
  into disks, and the tool calls each platform runs for a request.
- `src/flash/`: writing images (raw copy with verification), reading ISO 9660
  trees and laying them out as a FAT32 partition (copy mode); `writer.rs`
  decides the order of the device writes (the partition table is cleared
  first and written last), the steps and read-back offsets of
  verification, and that verification names the first byte of the image
  where the drive differs.
- `src/security/`: the typed confirmation phrase and the system-disk rule.
- `src/service.rs`, `src/helper.rs`, `src/commands.rs`: what the app and the
  privileged helper decide before and after doing I/O.

`app/` is the program around the library: process spawning, files, sockets
and the desktop front end.
