# theos

The logic of a small x86-64 kernel and its user space, written in Verus and
proved against its contracts.

- `src/` is the verified library, one module per subsystem:
  - memory: `pmm` (buddy allocator, kernel heap, spin lock), `vmm` (page tables),
    `elf` (executable loading), `multiboot`, `modules`;
  - tasks and IPC: `scheduler`, `idle`, `cpu`, `sleepq`, `ipc`, `arena`
    (shared mailboxes and interrupt rings), `irq`, `syscalls`, and `kernel`,
    which carries out each system call on the whole kernel state and says what
    the machine must do to finish it;
  - devices: `serial`, `lapic`, `pit`, `hpet`, `msi`, `pci`, `acpi`,
    `descriptors`, `fb`, `kb`, `ata`, `ramdisk`, `usb`, `enumeration` (the
    steps of bringing a USB mass-storage device up);
  - services and user library: `vfs`, `kvfs`, `fs`, `libsys`, `libc`, `klog`,
    `report`, `bounce`.
- `tests/` runs the library on concrete values.
- `app/` holds what needs the machine itself: port and MMIO access, model
  specific registers, the system call entry, and the loops that wait on
  devices.

Where a subsystem talks to hardware, the library computes what to write and
decides what to do with what was read; `app/` does the reading and writing.
