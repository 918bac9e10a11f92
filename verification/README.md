# edgecore_kernel

The EdgeCore kernel for QoreOS: a bare-metal x86-64 unikernel with a UEFI
bootloader, a framebuffer compositor, PS/2 mouse and keyboard, PCIe discovery,
NVMe and FAT32 storage, Intel HD Audio, an E1000 network card with ARP and a
small TCP/HTTP responder, application-processor start-up and a SYSCALL gate.

The crate is split in two:

- `src/` is the verified library, checked with Verus. It holds every decision
  the kernel makes about what it reads from the hardware: the bitmap frame
  allocator, page-table walk and mapping steps, ACPI and PCIe decoding and
  device discovery, the E1000 descriptor rings and ARP cache, the IPv4/TCP
  analyzer with its frame builders and checksums, the NVMe queue bookkeeping
  and commands, the FAT32 structures, the compositor's canvases and terminal,
  the console writer, the mouse packet decoder, the system-call decoder and
  the bootloader's choices, among them the segments and entry point taken from
  the kernel's ELF image. Device programming is expressed as lists of register
  writes and pixel writes, so that their order and values are part of each
  function's contract.
- `app/` is the kernel image itself: volatile memory and port access, the
  interrupt and system-call entry stubs, statics, the heap, and the UEFI
  bootloader (built from the same sources for the UEFI target).

`tests/` exercises the library on concrete frames, tables and screens.
