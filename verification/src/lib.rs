pub mod arena;
pub mod ipc;
pub mod multiboot;
pub mod pmm;
pub mod scheduler;
pub mod sleepq;
pub mod serial;
pub mod klog;
pub mod lapic;
pub mod pit;
pub mod msi;
pub mod pci;
pub mod modules;
pub mod acpi;
pub mod hpet;
pub mod cpu;
pub mod kvfs;
pub mod idle;
pub mod vfs;
pub mod libsys;
pub mod usb;
pub mod elf;
pub mod syscalls;
pub mod libc;
pub mod fb;
pub mod ramdisk;
pub mod kb;
pub mod descriptors;
pub mod irq;
pub mod ata;
pub mod report;
pub mod fs;
pub mod bounce;
pub mod vmm;
pub mod kernel;
pub mod enumeration;
