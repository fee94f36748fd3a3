# nk

The logic of `nk`, a small x86-64 microkernel, written in Verus: each
function carries a contract that Verus proves.

- `src/` is the verified library: the nkfs file system (paths, inodes,
  directories, RAM-staged writes and their write-back), the FAT32 boot
  volume, the Linux system-call layer (`linux_abi`, `linux_calls`), the
  scheduler, user page tables and program loading (`memory`, `userland`),
  the terminal, framebuffer and font, keyboard, mouse, PCI, the block
  device request formats, and the shell window's command line and
  dragging (`gui`).
- `tests/` runs the library on concrete disk images and values.
- `app/` is the part that is not verified: it drives the library as a
  hosted machine (reading a disk image, answering system calls with copies
  to and from user memory, printing the serial log).
