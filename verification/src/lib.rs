//! Verified core of the EdgeCore kernel: the data structures, parsers, frame
//! builders and state machines that the kernel's drivers drive against the
//! hardware.
pub mod wire;
pub mod mmio;
pub mod boot;
pub mod frame_allocator;
pub mod e1000;
pub mod net;
pub mod compositor;
pub mod fat32;
pub mod mouse;
pub mod pcie;
pub mod memory;
pub mod nvme;
pub mod hda;
pub mod interrupts;
pub mod syscall;
pub mod smp;
pub mod vga;
pub mod loader;
