# astral_kernel

The logic of the Astral hobby kernel, written in Verus with its contracts
proved.

- `src/` is the verified library: the PsychicFS on-disk format and file
  operations, the VFS and its path rules, the text applications (terminal,
  editor, notes, login), the graphics stack (surfaces, compositor, display
  server, renderer, fonts), IPC channels, syscall decoding, ELF loading, and the
  records that the drivers read and write (ACPI tables, PCI configuration,
  virtio queues and block requests, APIC, PIC, TSS, RTC, mouse and keyboard
  input). Each public function states what it returns or changes. Laws that span
  several calls stand either as public proof functions named `lemma_*` or
  as clauses in the `ensures` of the functions they concern.
- `tests/` runs the library on concrete values.
- `app/` is the machine side: bootloader requests, port and memory accesses,
  interrupt handlers, the global state and the interactive loops. It hands the
  library plain values and acts on what comes back. The parts that compute
  with floating point (window animation, the desktop gradient, the calculator)
  live there too.
