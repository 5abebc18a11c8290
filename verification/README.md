# vfio_passthrough

Passthrough of host PCI devices to a guest through VFIO, with the decisions verified by Verus.

- `src/` is the verified library. It makes no call to the host: it parses the MSI-X capability,
  places BARs in guest address space, splits each BAR into parts that the guest accesses directly
  and parts that are trapped, routes trapped accesses and configuration space accesses, and says
  which call to the host comes next while a device is assigned and its BARs are mapped.
- `app/` makes those calls, through KVM, VFIO and the kernel, and carries the derives that the
  configuration and the errors need there.
- `tests/` runs the library against a host that is played by the tests, with the real
  `vm_allocator`.

What is proved, besides the contract of each function:

- No byte of the MSI-X table or of the PBA is ever mapped into the guest (`region`, `device`).
- Within each BAR, the directly mapped and the trapped bytes have nothing in common and together
  are the whole BAR (`device`).
- The BARs of one address window never overlap, each lies at a multiple of its size, and a run of
  the setup gives exactly the planned addresses and leaves out no memory BAR (`plan`).
- A BAR that fails to be mapped leaves nothing of it mapped on the host, and the BARs below it as
  they were (`mapping`, `plan`).
- Every write of the MSI-X enable bit is mirrored, however many bytes it holds (`device`).
- A device counts as assigned only after all four calls that assign it have succeeded
  (`resources`).

The one call into an outside crate whose result is taken on trust is
`vm_allocator::AddressAllocator::allocate`; what is claimed of it stands in `src/allocator.rs`.
