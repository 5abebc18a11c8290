//! The MSI-X capability of a PCI function: finding it in configuration space, and where its table
//! and its pending bit array (PBA) live.

use vstd::prelude::*;

verus! {

/// Size in bytes of a single MSI-X table entry.
pub const MSIX_TABLE_ENTRY_SIZE: u64 = 16;

/// Offset of the dword that holds the command and status registers in PCI configuration space.
pub const PCI_CONFIG_STATUS: u32 = 0x04;

/// Status register bit indicating the presence of a capability list.
pub const PCI_CONFIG_STATUS_CAPABILITIES_LIST: u32 = 0x0010_0000;

/// Offset of the capabilities list pointer in PCI configuration space.
pub const PCI_CONFIG_CAPABILITIES_POINTER: u32 = 0x34;

/// MSI-X capability id.
pub const PCI_CAP_ID_MSIX: u8 = 0x11;

/// Number of places in the 256-byte standard configuration space that a capability pointer, which
/// is one non-zero byte, can name.
pub const CAPABILITY_PLACES: u16 = 255;

/// Last byte offset at which a walk over the capability list reads a dword.
pub const LAST_CAPABILITY_READ: u32 = 0x107;

/// Largest number of vectors that an MSI-X capability can announce.
pub const MSIX_MAX_VECTORS: u64 = 2048;

/// Description of where the MSI-X table and PBA live, parsed from the device's MSI-X capability.
#[derive(Debug, Clone, Copy, PartialEq, Eq, Structural)]
pub struct MsixLayout {
    /// Byte offset of the MSI-X capability in configuration space.
    pub cap_offset: u16,
    /// BAR index holding the MSI-X table.
    pub table_bar: u32,
    /// Offset of the MSI-X table within its BAR.
    pub table_offset: u64,
    /// Size of the MSI-X table in bytes.
    pub table_size: u64,
    /// BAR index holding the PBA.
    pub pba_bar: u32,
    /// Offset of the PBA within its BAR.
    pub pba_offset: u64,
    /// Size of the PBA in bytes.
    pub pba_size: u64,
}

impl MsixLayout {
    /// Whether the layout is one that an MSI-X capability can describe.
    pub open spec fn wf(self) -> bool {
        &&& 1 <= self.cap_offset <= CAPABILITY_PLACES
        &&& self.table_bar < 8
        &&& self.table_offset <= 0xffff_fff8
        &&& self.table_offset % 8 == 0
        &&& self.table_size % MSIX_TABLE_ENTRY_SIZE == 0
        &&& MSIX_TABLE_ENTRY_SIZE <= self.table_size <= MSIX_MAX_VECTORS * MSIX_TABLE_ENTRY_SIZE
        &&& self.pba_bar < 8
        &&& self.pba_offset <= 0xffff_fff8
        &&& self.pba_offset % 8 == 0
        &&& self.pba_size == pba_bytes(self.vectors())
    }

    /// Number of vectors that the table has room for.
    pub open spec fn vectors(self) -> int {
        self.table_size as int / MSIX_TABLE_ENTRY_SIZE as int
    }

    /// Whether byte `offset` of BAR `bar` belongs to the MSI-X table.
    pub open spec fn in_table(self, bar: u32, offset: int) -> bool {
        bar == self.table_bar && self.table_offset <= offset < self.table_offset + self.table_size
    }

    /// Whether byte `offset` of BAR `bar` belongs to the PBA.
    pub open spec fn in_pba(self, bar: u32, offset: int) -> bool {
        bar == self.pba_bar && self.pba_offset <= offset < self.pba_offset + self.pba_size
    }
}

/// The capability id in the header dword of a capability.
pub open spec fn capability_id(header: u32) -> u8 {
    (header % 0x100) as u8
}

/// The pointer to the next capability in the header dword of a capability.
pub open spec fn capability_next(header: u32) -> u16 {
    (header / 0x100 % 0x100) as u16
}

/// The number of vectors that the header dword of an MSI-X capability announces: the low eleven
/// bits of its upper half, plus one.
pub open spec fn announced_vectors(header: u32) -> int {
    header as int / 0x1_0000 % 0x800 + 1
}

/// Size in bytes of a PBA: one bit per vector, rounded up to a multiple of eight bytes.
pub open spec fn pba_bytes(vectors: int) -> int {
    (vectors + 63) / 64 * 8
}

/// The layout that the three dwords of the MSI-X capability at `cap` describe.
pub open spec fn described_layout(cap: u16, header: u32, table: u32, pba: u32) -> MsixLayout {
    MsixLayout {
        cap_offset: cap,
        table_bar: table % 8,
        table_offset: (table - table % 8) as u64,
        table_size: (announced_vectors(header) * MSIX_TABLE_ENTRY_SIZE) as u64,
        pba_bar: pba % 8,
        pba_offset: (pba - pba % 8) as u64,
        pba_size: pba_bytes(announced_vectors(header)) as u64,
    }
}

/// Whether the function has a capability list.
pub open spec fn has_capability_list(config: spec_fn(u32) -> u32) -> bool {
    config(PCI_CONFIG_STATUS) & PCI_CONFIG_STATUS_CAPABILITIES_LIST != 0
}

/// The place of the `n`-th capability of the list, or zero where the list has ended.
pub open spec fn capability(config: spec_fn(u32) -> u32, n: nat) -> u16
    decreases n,
{
    if n == 0 {
        (config(PCI_CONFIG_CAPABILITIES_POINTER) % 0x100) as u16
    } else {
        let before = capability(config, (n - 1) as nat);
        if before == 0 {
            0
        } else {
            capability_next(config(before as u32))
        }
    }
}

/// Whether an MSI-X capability stands at `cap`.
pub open spec fn msix_stands_at(config: spec_fn(u32) -> u32, cap: u16) -> bool {
    cap != 0 && capability_id(config(cap as u32)) == PCI_CAP_ID_MSIX
}

/// Whether the `n`-th capability of the list is its first MSI-X capability.
pub open spec fn first_msix(config: spec_fn(u32) -> u32, n: nat) -> bool {
    &&& msix_stands_at(config, capability(config, n))
    &&& forall|m: nat| m < n ==> !msix_stands_at(config, #[trigger] capability(config, m))
}

/// The layout that the first MSI-X capability of the list describes, if the list has one.
pub open spec fn msix_capability(config: spec_fn(u32) -> u32) -> Option<MsixLayout> {
    if has_capability_list(config) && exists|n: nat| first_msix(config, n) {
        let n = choose|n: nat| first_msix(config, n);
        let cap = capability(config, n);
        Some(
            described_layout(
                cap,
                config(cap as u32),
                config((cap + 4) as u32),
                config((cap + 8) as u32),
            ),
        )
    } else {
        None
    }
}

/// Whether `read` answers every read at `offset` with `config(offset)`.
pub open spec fn reads_from<F: Fn(u32) -> u32>(read: F, config: spec_fn(u32) -> u32) -> bool {
    forall|offset: u32, dword: u32|
        #[trigger] call_ensures(read, (offset,), dword) ==> dword == config(offset)
}

/// Whether `read` can answer with a status that has the capability list bit as `present` says.
pub open spec fn status_was_read<F: Fn(u32) -> u32>(read: F, present: bool) -> bool {
    exists|status: u32| #[trigger]
        call_ensures(read, (PCI_CONFIG_STATUS,), status) && (status
            & PCI_CONFIG_STATUS_CAPABILITIES_LIST != 0) == present
}

/// The place of capability `n` of a list, where its pointer and the headers of the capabilities
/// before were read as these.
pub open spec fn place_read(pointer: u32, headers: Seq<u32>, n: int) -> u16 {
    if n == 0 {
        (pointer % 0x100) as u16
    } else {
        capability_next(headers[n - 1])
    }
}

/// Whether `read` can answer with this pointer to the list, and then with these headers at the
/// places that the list goes through, one after the other, at most one for each place.
pub open spec fn list_was_read<F: Fn(u32) -> u32>(
    read: F,
    pointer: u32,
    headers: Seq<u32>,
) -> bool {
    &&& call_ensures(read, (PCI_CONFIG_CAPABILITIES_POINTER,), pointer)
    &&& headers.len() <= CAPABILITY_PLACES
    &&& forall|i: int|
        0 <= i < headers.len() ==> #[trigger] place_read(pointer, headers, i) != 0 && call_ensures(
            read,
            (place_read(pointer, headers, i) as u32,),
            headers[i],
        )
}

/// Whether none of the headers is that of an MSI-X capability.
pub open spec fn no_msix_among(headers: Seq<u32>) -> bool {
    forall|i: int| 0 <= i < headers.len() ==> capability_id(#[trigger] headers[i]) != PCI_CAP_ID_MSIX
}

/// Whether `layout` is put together from dwords that `read` can answer with: there is a capability
/// list, its last header read is the first MSI-X header, and the layout is what that header and the
/// two dwords that follow it describe.
pub open spec fn layout_was_read<F: Fn(u32) -> u32>(read: F, layout: MsixLayout) -> bool {
    &&& status_was_read(read, true)
    &&& exists|pointer: u32, headers: Seq<u32>, table: u32, pba: u32|
        {
            &&& #[trigger] list_was_read(read, pointer, headers)
            &&& #[trigger] call_ensures(read, ((layout.cap_offset + 4) as u32,), table)
            &&& #[trigger] call_ensures(read, ((layout.cap_offset + 8) as u32,), pba)
            &&& headers.len() > 0
            &&& no_msix_among(headers.drop_last())
            &&& capability_id(headers.last()) == PCI_CAP_ID_MSIX
            &&& layout == described_layout(
                place_read(pointer, headers, headers.len() - 1),
                headers.last(),
                table,
                pba,
            )
        }
}

/// Whether `read` can answer such that no MSI-X capability is found: with a status that shows no
/// capability list, or with headers none of which is an MSI-X header, up to the end of the list or
/// until there was one for each place.
pub open spec fn no_msix_was_read<F: Fn(u32) -> u32>(read: F) -> bool {
    ||| status_was_read(read, false)
    ||| status_was_read(read, true) && exists|pointer: u32, headers: Seq<u32>|
        {
            &&& #[trigger] list_was_read(read, pointer, headers)
            &&& no_msix_among(headers)
            &&& place_read(pointer, headers, headers.len() as int) == 0 || headers.len()
                == CAPABILITY_PLACES
        }
}

/// Two lists that agree in one place agree in all later places.
proof fn lemma_capability_repeats(config: spec_fn(u32) -> u32, i: nat, j: nat, d: nat)
    requires
        capability(config, i) == capability(config, j),
    ensures
        capability(config, i + d) == capability(config, j + d),
    decreases d,
{
    if d > 0 {
        lemma_capability_repeats(config, i, j, (d - 1) as nat);
        assert((i + d - 1) as nat == i + (d - 1) as nat);
        assert((j + d - 1) as nat == j + (d - 1) as nat);
    }
}

/// A list that comes back to a place never leaves the places that it has been to.
proof fn lemma_capability_cycle(config: spec_fn(u32) -> u32, i: nat, j: nat, n: nat) -> (m: nat)
    requires
        i < j,
        capability(config, i) == capability(config, j),
    ensures
        m < j,
        capability(config, m) == capability(config, n),
    decreases n,
{
    if n < j {
        n
    } else {
        lemma_capability_repeats(config, i, j, (n - j) as nat);
        assert(j + (n - j) as nat == n);
        lemma_capability_cycle(config, i, j, (i + (n - j)) as nat)
    }
}

proof fn lemma_capability_is_byte(config: spec_fn(u32) -> u32, n: nat)
    ensures
        capability(config, n) <= CAPABILITY_PLACES,
{
}

/// Among more capabilities than there are places, two stand at the same place.
proof fn lemma_capability_pigeonhole(config: spec_fn(u32) -> u32) -> (r: (nat, nat))
    requires
        forall|m: nat| m <= CAPABILITY_PLACES ==> #[trigger] capability(config, m) != 0,
    ensures
        r.0 < r.1 <= CAPABILITY_PLACES,
        capability(config, r.0) == capability(config, r.1),
{
    let places = Seq::new(256, |m: int| capability(config, m as nat) as int);
    if places.no_duplicates() {
        let seen = places.to_set();
        places.unique_seq_to_set();
        vstd::set_lib::lemma_int_range(1, 256);
        assert(seen.subset_of(vstd::set_lib::set_int_range(1, 256))) by {
            assert forall|p: int| seen.contains(p) implies vstd::set_lib::set_int_range(
                1,
                256,
            ).contains(p) by {
                let m = choose|m: int| 0 <= m < places.len() && places[m] == p;
                lemma_capability_is_byte(config, m as nat);
            }
        }
        vstd::set_lib::lemma_len_subset(seen, vstd::set_lib::set_int_range(1, 256));
        assert(false);
    }
    let (i, j) = choose|i: int, j: int|
        0 <= i < places.len() && 0 <= j < places.len() && i != j && places[i] == places[j];
    if i < j {
        (i as nat, j as nat)
    } else {
        (j as nat, i as nat)
    }
}

/// A list none of whose first capabilities, one for each place, is an MSI-X capability has none.
proof fn lemma_no_msix(config: spec_fn(u32) -> u32, n: nat)
    requires
        forall|m: nat|
            m < CAPABILITY_PLACES ==> !msix_stands_at(config, #[trigger] capability(config, m)),
    ensures
        !msix_stands_at(config, capability(config, n)),
{
    if forall|m: nat| m <= CAPABILITY_PLACES ==> #[trigger] capability(config, m) != 0 {
        let (i, j) = lemma_capability_pigeonhole(config);
        let m = lemma_capability_cycle(config, i, j, n);
        assert(!msix_stands_at(config, capability(config, m)));
    } else {
        let end = choose|m: nat| m <= CAPABILITY_PLACES && capability(config, m) == 0;
        if end <= n {
            lemma_list_ended(config, end, n);
        }
    }
}

/// Past its end a list stays ended.
proof fn lemma_list_ended(config: spec_fn(u32) -> u32, end: nat, n: nat)
    requires
        end <= n,
        capability(config, end) == 0,
    ensures
        capability(config, n) == 0,
    decreases n,
{
    if end < n {
        lemma_list_ended(config, end, (n - 1) as nat);
    }
}

/// The bit fields of the dwords of an MSI-X capability, in arithmetic.
proof fn lemma_bit_fields(dword: u32)
    ensures
        dword & 0xff == dword % 0x100,
        (dword >> 8) & 0xff == dword / 0x100 % 0x100,
        (dword >> 16) & 0x7ff == dword / 0x1_0000 % 0x800,
        dword & 0x7 == dword % 8,
        dword & 0xffff_fff8 == dword - dword % 8,
{
    assert(dword & 0xff == dword % 0x100) by (bit_vector);
    assert((dword >> 8) & 0xff == dword / 0x100 % 0x100) by (bit_vector);
    assert((dword >> 16) & 0x7ff == dword / 0x1_0000 % 0x800) by (bit_vector);
    assert(dword & 0x7 == dword % 8) by (bit_vector);
    assert(dword & 0xffff_fff8 == dword - dword % 8) by (bit_vector);
}

proof fn lemma_described_layout_wf(cap: u16, header: u32, table: u32, pba: u32)
    requires
        1 <= cap <= CAPABILITY_PLACES,
    ensures
        described_layout(cap, header, table, pba).wf(),
        described_layout(cap, header, table, pba).vectors() == announced_vectors(header),
{
    let n = announced_vectors(header);
    let layout = described_layout(cap, header, table, pba);
    assert(1 <= n <= 2048);
    assert(n * MSIX_TABLE_ENTRY_SIZE == n * 16) by (nonlinear_arith);
    assert(layout.table_size == n * 16);
    assert(layout.vectors() == n);
    assert(layout.pba_size == (n + 63) / 64 * 8);
    assert(layout.table_offset % 8 == 0);
    assert(layout.pba_offset % 8 == 0);
}

impl MsixLayout {
    /// Puts the layout together from the three dwords of the MSI-X capability at `cap`.
    fn describe(cap: u16, header: u32, table: u32, pba: u32) -> (layout: MsixLayout)
        requires
            1 <= cap <= CAPABILITY_PLACES,
        ensures
            layout == described_layout(cap, header, table, pba),
            layout.wf(),
            layout.vectors() == announced_vectors(header),
    {
        proof {
            lemma_bit_fields(header);
            lemma_bit_fields(table);
            lemma_bit_fields(pba);
        }
        let num_vectors: u64 = ((header >> 16) & 0x7ff) as u64 + 1;
        proof {
            lemma_described_layout_wf(cap, header, table, pba);
        }
        // The PBA has one bit per vector, rounded up to a multiple of 8 bytes.
        MsixLayout {
            cap_offset: cap,
            table_bar: table & 0x7,
            table_offset: (table & 0xffff_fff8) as u64,
            table_size: num_vectors * MSIX_TABLE_ENTRY_SIZE,
            pba_bar: pba & 0x7,
            pba_offset: (pba & 0xffff_fff8) as u64,
            pba_size: (num_vectors + 63) / 64 * 8,
        }
    }
}

/// Reading the header at the place that a list has come to reads the list on.
proof fn lemma_list_read_on<F: Fn(u32) -> u32>(
    read: F,
    pointer: u32,
    headers: Seq<u32>,
    header: u32,
)
    requires
        list_was_read(read, pointer, headers),
        headers.len() < CAPABILITY_PLACES,
        place_read(pointer, headers, headers.len() as int) != 0,
        call_ensures(
            read,
            (place_read(pointer, headers, headers.len() as int) as u32,),
            header,
        ),
    ensures
        list_was_read(read, pointer, headers.push(header)),
        forall|n: int|
            0 <= n <= headers.len() ==> place_read(pointer, headers.push(header), n)
                == #[trigger] place_read(pointer, headers, n),
{
    let longer = headers.push(header);
    assert forall|n: int| 0 <= n <= headers.len() implies place_read(pointer, longer, n)
        == #[trigger] place_read(pointer, headers, n) by {
        if n > 0 {
            assert(longer[n - 1] == headers[n - 1]);
        }
    }
    assert forall|i: int| 0 <= i < longer.len() implies #[trigger] place_read(pointer, longer, i)
        != 0 && call_ensures(read, (place_read(pointer, longer, i) as u32,), longer[i]) by {
        assert(place_read(pointer, longer, i) == place_read(pointer, headers, i));
        if i < headers.len() {
            assert(longer[i] == headers[i]);
        }
    }
}

/// Walks the PCI capability list of a device and parses its MSI-X capability, if present.
///
/// `read_config_dword` reads the dword at a byte offset of the device's configuration space. The
/// walk ends after as many capabilities as there are places for one, so that a list that runs in
/// a circle does not keep it going.
pub fn parse_msix_capability<F: Fn(u32) -> u32>(read_config_dword: &F) -> (layout: Option<
    MsixLayout,
>)
    requires
        forall|offset: u32|
            offset <= LAST_CAPABILITY_READ ==> #[trigger] call_requires(
                *read_config_dword,
                (offset,),
            ),
    ensures
        forall|config: spec_fn(u32) -> u32| #[trigger]
            reads_from(*read_config_dword, config) ==> layout == msix_capability(config),
        match layout {
            Some(found) => found.wf() && layout_was_read(*read_config_dword, found),
            None => no_msix_was_read(*read_config_dword),
        },
{
    let status = read_config_dword(PCI_CONFIG_STATUS);
    if status & PCI_CONFIG_STATUS_CAPABILITIES_LIST == 0 {
        assert(status_was_read(*read_config_dword, false));
        return None;
    }
    // The capabilities pointer is the low byte of its dword.
    let pointer = read_config_dword(PCI_CONFIG_CAPABILITIES_POINTER);
    proof {
        lemma_bit_fields(pointer);
    }
    let mut cap: u16 = (pointer & 0xff) as u16;
    let mut visited: u16 = 0;
    let ghost mut headers: Seq<u32> = seq![];
    while cap != 0 && visited < CAPABILITY_PLACES
        invariant
            cap <= CAPABILITY_PLACES,
            visited <= CAPABILITY_PLACES,
            status_was_read(*read_config_dword, true),
            headers.len() == visited,
            list_was_read(*read_config_dword, pointer, headers),
            no_msix_among(headers),
            cap == place_read(pointer, headers, visited as int),
            forall|offset: u32|
                offset <= LAST_CAPABILITY_READ ==> #[trigger] call_requires(
                    *read_config_dword,
                    (offset,),
                ),
            forall|config: spec_fn(u32) -> u32| #[trigger]
                reads_from(*read_config_dword, config) ==> {
                    &&& has_capability_list(config)
                    &&& cap == capability(config, visited as nat)
                    &&& forall|m: nat|
                        m < visited ==> !msix_stands_at(config, #[trigger] capability(config, m))
                },
        decreases CAPABILITY_PLACES - visited,
    {
        let header = read_config_dword(cap as u32);
        proof {
            lemma_bit_fields(header);
            lemma_list_read_on(*read_config_dword, pointer, headers, header);
        }
        if (header & 0xff) as u8 == PCI_CAP_ID_MSIX {
            let table = read_config_dword(cap as u32 + 4);
            let pba = read_config_dword(cap as u32 + 8);
            let layout = MsixLayout::describe(cap, header, table, pba);
            proof {
                let found = headers.push(header);
                assert(found.drop_last() =~= headers);
                assert(list_was_read(*read_config_dword, pointer, found));
                assert(place_read(pointer, found, found.len() - 1) == cap);
                assert(layout_was_read(*read_config_dword, layout));
                assert forall|config: spec_fn(u32) -> u32| #[trigger]
                    reads_from(*read_config_dword, config) implies Some(layout)
                    == msix_capability(config) by {
                    assert(first_msix(config, visited as nat));
                    let n = choose|n: nat| first_msix(config, n);
                    assert(n == visited) by {
                        if n < visited {
                            assert(!msix_stands_at(config, capability(config, n)));
                        } else if visited < n {
                            assert(!msix_stands_at(config, capability(config, visited as nat)));
                        }
                    }
                }
            }
            return Some(layout);
        }
        proof {
            assert forall|config: spec_fn(u32) -> u32| #[trigger]
                reads_from(*read_config_dword, config) implies {
                &&& capability_next(header) == capability(config, visited as nat + 1)
                &&& forall|m: nat|
                    m < visited + 1 ==> !msix_stands_at(config, #[trigger] capability(config, m))
            } by {
                assert(capability(config, visited as nat) == cap);
            }
            headers = headers.push(header);
        }
        cap = ((header >> 8) & 0xff) as u16;
        visited = visited + 1;
    }
    proof {
        assert forall|config: spec_fn(u32) -> u32| #[trigger]
            reads_from(*read_config_dword, config) implies msix_capability(config) is None by {
            assert forall|n: nat| !#[trigger] first_msix(config, n) by {
                if visited == CAPABILITY_PLACES {
                    lemma_no_msix(config, n);
                } else if n >= visited {
                    lemma_list_ended(config, visited as nat, n);
                } else {
                    assert(!msix_stands_at(config, capability(config, n)));
                }
            }
        }
    }
    None
}

/// The capability list bit of the status dword, in arithmetic.
proof fn lemma_list_bit(status: u32)
    ensures
        (status & PCI_CONFIG_STATUS_CAPABILITIES_LIST != 0) == (status / 0x10_0000 % 2 == 1),
{
    assert((status & 0x10_0000 != 0) == (status / 0x10_0000 % 2 == 1)) by (bit_vector);
}

/// Whether `caps` are the places of the first capabilities of a list: the first one is what the low
/// byte at 0x34 names, and each further one what the second byte of the header before names.
pub open spec fn places_in_list(config: spec_fn(u32) -> u32, caps: Seq<u16>) -> bool {
    &&& forall|i: int| 0 <= i < caps.len() ==> #[trigger] caps[i] != 0
    &&& caps.len() > 0 ==> caps[0] == config(0x34) % 0x100
    &&& forall|i: int, j: int|
        #![trigger caps[i], caps[j]]
        0 <= i < caps.len() && j == i + 1 && j < caps.len() ==> caps[j] == config(caps[i] as u32)
            / 0x100 % 0x100
}

/// What the list names after the places `caps`: the next place, or zero.
pub open spec fn named_next(config: spec_fn(u32) -> u32, caps: Seq<u16>) -> int {
    if caps.len() == 0 {
        config(0x34) as int % 0x100
    } else {
        config(caps.last() as u32) as int / 0x100 % 0x100
    }
}

proof fn lemma_places_are_capabilities(config: spec_fn(u32) -> u32, caps: Seq<u16>, n: nat)
    requires
        places_in_list(config, caps),
        n <= caps.len(),
    ensures
        n < caps.len() ==> capability(config, n) == caps[n as int],
        n == caps.len() ==> capability(config, n) == named_next(config, caps),
    decreases n,
{
    if n > 0 {
        let m = (n - 1) as nat;
        lemma_places_are_capabilities(config, caps, m);
        assert(caps[m as int] != 0);
        if n < caps.len() {
            assert(caps[n as int] == config(caps[m as int] as u32) / 0x100 % 0x100);
        }
    }
}

/// Where bit 20 of the dword at 0x04 is set, the first capability of the list whose header has the
/// low byte 0x11 is what is found, and its layout follows from its three dwords: the low eleven bits
/// of the upper half of the first are the number of vectors less one; the second and the third are
/// each the sum of an offset that is a multiple of eight and of a BAR below eight; a table entry has
/// sixteen bytes; and the PBA has the fewest multiple of eight bytes with one bit per vector.
pub proof fn law_first_msix_is_found(config: spec_fn(u32) -> u32, caps: Seq<u16>)
    requires
        config(0x04) / 0x10_0000 % 2 == 1,
        places_in_list(config, caps),
        caps.len() > 0,
        forall|i: int| 0 <= i < caps.len() - 1 ==> config(#[trigger] caps[i] as u32) % 0x100 != 0x11,
        config(caps.last() as u32) % 0x100 == 0x11,
    ensures
        msix_capability(config) is Some,
        ({
            let layout = msix_capability(config)->0;
            let cap = caps.last() as int;
            let vectors = config(cap as u32) as int / 0x1_0000 % 0x800 + 1;
            &&& layout.cap_offset == cap
            &&& layout.vectors() == vectors
            &&& layout.table_size == vectors * 16
            &&& layout.table_bar < 8
            &&& layout.table_offset % 8 == 0
            &&& layout.table_offset + layout.table_bar == config((cap + 4) as u32)
            &&& layout.pba_bar < 8
            &&& layout.pba_offset % 8 == 0
            &&& layout.pba_offset + layout.pba_bar == config((cap + 8) as u32)
            &&& layout.pba_size % 8 == 0
            &&& vectors <= layout.pba_size * 8 < vectors + 64
        }),
{
    let last = (caps.len() - 1) as nat;
    let cap = caps[last as int];
    lemma_list_bit(config(0x04));
    lemma_places_are_capabilities(config, caps, last);
    lemma_capability_is_byte(config, last);
    assert(cap != 0);
    assert(msix_stands_at(config, capability(config, last)));
    assert forall|m: nat| m < last implies !msix_stands_at(
        config,
        #[trigger] capability(config, m),
    ) by {
        lemma_places_are_capabilities(config, caps, m);
        assert(config(caps[m as int] as u32) % 0x100 != 0x11);
    }
    assert(first_msix(config, last));
    let n = choose|n: nat| first_msix(config, n);
    assert(n == last) by {
        if n < last {
            assert(!msix_stands_at(config, capability(config, n)));
        } else if last < n {
            assert(!msix_stands_at(config, capability(config, last)));
        }
    }
    lemma_described_layout_wf(
        cap,
        config(cap as u32),
        config((cap + 4) as u32),
        config((cap + 8) as u32),
    );
}

/// Nothing is found where bit 20 of the dword at 0x04 is clear, and nothing where no header of the
/// list has the low byte 0x11, be it that the list ends or that it comes back to a place.
pub proof fn law_missing_msix_is_not_found(config: spec_fn(u32) -> u32, caps: Seq<u16>)
    requires
        config(0x04) / 0x10_0000 % 2 == 0 || {
            &&& places_in_list(config, caps)
            &&& forall|i: int|
                0 <= i < caps.len() ==> config(#[trigger] caps[i] as u32) % 0x100 != 0x11
            &&& named_next(config, caps) == 0 || exists|i: int|
                0 <= i < caps.len() && #[trigger] caps[i] == named_next(config, caps)
        },
    ensures
        msix_capability(config) is None,
{
    lemma_list_bit(config(0x04));
    if config(0x04) / 0x10_0000 % 2 == 1 {
        let end = caps.len();
        lemma_places_are_capabilities(config, caps, end);
        assert forall|n: nat| !#[trigger] first_msix(config, n) by {
            let m = if named_next(config, caps) == 0 {
                if end <= n {
                    lemma_list_ended(config, end, n);
                }
                n
            } else {
                let i = choose|i: int|
                    0 <= i < caps.len() && #[trigger] caps[i] == named_next(config, caps);
                lemma_places_are_capabilities(config, caps, i as nat);
                lemma_capability_cycle(config, i as nat, end, n)
            };
            if m < end {
                lemma_places_are_capabilities(config, caps, m);
                assert(config(caps[m as int] as u32) % 0x100 != 0x11);
            }
        }
    }
}

/// Of the dword at 0x04, bit 20 alone decides whether a capability is found: two configuration
/// spaces that agree but for the other bits of that dword have the same MSI-X capability, unless the
/// list itself goes through that dword.
pub proof fn law_list_bit_alone_counts(a: spec_fn(u32) -> u32, b: spec_fn(u32) -> u32)
    requires
        forall|offset: u32| offset != 0x04 ==> #[trigger] a(offset) == b(offset),
        a(0x04) / 0x10_0000 % 2 == b(0x04) / 0x10_0000 % 2,
        forall|n: nat| #[trigger] capability(a, n) != 0x04,
    ensures
        msix_capability(a) == msix_capability(b),
{
    lemma_list_bit(a(0x04));
    lemma_list_bit(b(0x04));
    assert forall|n: nat| #[trigger] capability(a, n) == capability(b, n) && msix_stands_at(
        a,
        capability(a, n),
    ) == msix_stands_at(b, capability(b, n)) by {
        lemma_same_list(a, b, n);
    }
    assert forall|n: nat| #[trigger] first_msix(a, n) == first_msix(b, n) by {
        assert(capability(a, n) == capability(b, n));
        if first_msix(a, n) {
            assert forall|m: nat| m < n implies !msix_stands_at(b, #[trigger] capability(b, m)) by {
                assert(!msix_stands_at(a, capability(a, m)));
            }
        }
        if first_msix(b, n) {
            assert forall|m: nat| m < n implies !msix_stands_at(a, #[trigger] capability(a, m)) by {
                assert(!msix_stands_at(b, capability(b, m)));
            }
        }
    }
    if exists|n: nat| first_msix(a, n) {
        let n = choose|n: nat| first_msix(a, n);
        assert(first_msix(b, n));
        let m = choose|m: nat| first_msix(b, m);
        assert(m == n) by {
            if m < n {
                assert(!msix_stands_at(b, capability(b, m)));
            } else if n < m {
                assert(!msix_stands_at(b, capability(b, n)));
            }
        }
        let cap = capability(a, n);
        lemma_capability_is_byte(a, n);
        assert(a(cap as u32) == b(cap as u32));
        assert(a((cap + 4) as u32) == b((cap + 4) as u32));
        assert(a((cap + 8) as u32) == b((cap + 8) as u32));
    } else {
        assert forall|n: nat| !#[trigger] first_msix(b, n) by {
            assert(!first_msix(a, n));
        }
    }
}

proof fn lemma_same_list(a: spec_fn(u32) -> u32, b: spec_fn(u32) -> u32, n: nat)
    requires
        forall|offset: u32| offset != 0x04 ==> #[trigger] a(offset) == b(offset),
        forall|m: nat| #[trigger] capability(a, m) != 0x04,
    ensures
        capability(a, n) == capability(b, n),
        a(capability(a, n) as u32) == b(capability(a, n) as u32),
    decreases n,
{
    assert(capability(a, n) != 0x04);
    if n > 0 {
        lemma_same_list(a, b, (n - 1) as nat);
    } else {
        assert(a(0x34) == b(0x34));
    }
}

/// What is read of a device that always answers from the same configuration space is what stands
/// there: a layout that was read is that of its MSI-X capability, and where none was read it has
/// none.
pub proof fn law_read_capability_is_the_one_there<F: Fn(u32) -> u32>(
    read: F,
    config: spec_fn(u32) -> u32,
    layout: MsixLayout,
)
    requires
        reads_from(read, config),
    ensures
        layout_was_read(read, layout) ==> msix_capability(config) == Some(layout),
        no_msix_was_read(read) ==> msix_capability(config) is None,
{
    if layout_was_read(read, layout) {
        let (pointer, headers, table, pba) = choose|
            pointer: u32,
            headers: Seq<u32>,
            table: u32,
            pba: u32,
        |
            {
                &&& #[trigger] list_was_read(read, pointer, headers)
                &&& #[trigger] call_ensures(read, ((layout.cap_offset + 4) as u32,), table)
                &&& #[trigger] call_ensures(read, ((layout.cap_offset + 8) as u32,), pba)
                &&& headers.len() > 0
                &&& no_msix_among(headers.drop_last())
                &&& capability_id(headers.last()) == PCI_CAP_ID_MSIX
                &&& layout == described_layout(
                    place_read(pointer, headers, headers.len() - 1),
                    headers.last(),
                    table,
                    pba,
                )
            };
        let last = (headers.len() - 1) as nat;
        lemma_read_places(read, config, pointer, headers, last);
        assert(msix_stands_at(config, capability(config, last)));
        assert forall|m: nat| m < last implies !msix_stands_at(
            config,
            #[trigger] capability(config, m),
        ) by {
            lemma_read_places(read, config, pointer, headers, m);
            assert(headers.drop_last()[m as int] == headers[m as int]);
        }
        assert(first_msix(config, last));
        let n = choose|n: nat| first_msix(config, n);
        assert(n == last) by {
            if n < last {
                assert(!msix_stands_at(config, capability(config, n)));
            } else if last < n {
                assert(!msix_stands_at(config, capability(config, last)));
            }
        }
    }
    if no_msix_was_read(read) && has_capability_list(config) {
        let (pointer, headers) = choose|pointer: u32, headers: Seq<u32>|
            {
                &&& #[trigger] list_was_read(read, pointer, headers)
                &&& no_msix_among(headers)
                &&& place_read(pointer, headers, headers.len() as int) == 0 || headers.len()
                    == CAPABILITY_PLACES
            };
        assert forall|m: nat| m < headers.len() implies !msix_stands_at(
            config,
            #[trigger] capability(config, m),
        ) by {
            lemma_read_places(read, config, pointer, headers, m);
            assert(capability_id(headers[m as int]) != PCI_CAP_ID_MSIX);
        }
        lemma_read_places(read, config, pointer, headers, headers.len());
        assert forall|n: nat| !#[trigger] first_msix(config, n) by {
            if headers.len() == CAPABILITY_PLACES {
                lemma_no_msix(config, n);
            } else if n >= headers.len() {
                lemma_list_ended(config, headers.len(), n);
            } else {
                assert(!msix_stands_at(config, capability(config, n)));
            }
        }
    }
}

proof fn lemma_read_places<F: Fn(u32) -> u32>(
    read: F,
    config: spec_fn(u32) -> u32,
    pointer: u32,
    headers: Seq<u32>,
    n: nat,
)
    requires
        reads_from(read, config),
        list_was_read(read, pointer, headers),
        n <= headers.len(),
    ensures
        capability(config, n) == place_read(pointer, headers, n as int),
        n < headers.len() ==> headers[n as int] == config(capability(config, n) as u32)
            && capability(config, n) != 0,
    decreases n,
{
    if n > 0 {
        lemma_read_places(read, config, pointer, headers, (n - 1) as nat);
    }
    if n < headers.len() {
        assert(place_read(pointer, headers, n as int) != 0);
    }
}

/// The number of vectors that the MSI-X capability of a device asks for, if it has one.
pub open spec fn required_vectors(config: spec_fn(u32) -> u32) -> Option<u16> {
    match msix_capability(config) {
        Some(layout) => Some(layout.vectors() as u16),
        None => None,
    }
}

/// A device asks for vectors exactly where it has an MSI-X capability, and for as many as its table
/// has entries of sixteen bytes: from one to 2048.
pub proof fn law_required_vectors_fill_the_table(config: spec_fn(u32) -> u32)
    ensures
        required_vectors(config) is Some <==> msix_capability(config) is Some,
        required_vectors(config) matches Some(n) ==> n as int * 16 == msix_capability(
            config,
        )->0.table_size && 1 <= n <= 2048,
{
    if let Some(layout) = msix_capability(config) {
        let n = choose|n: nat| first_msix(config, n);
        let cap = capability(config, n);
        lemma_capability_is_byte(config, n);
        lemma_described_layout_wf(
            cap,
            config(cap as u32),
            config((cap + 4) as u32),
            config((cap + 8) as u32),
        );
    }
}

/// A list that was read was read along its own pointers, from the low byte at 0x34 on: each header
/// at the place that the second byte of the header before names, at most 255 of them.
pub proof fn law_list_is_read_along_its_pointers<F: Fn(u32) -> u32>(
    read: F,
    pointer: u32,
    headers: Seq<u32>,
    i: int,
)
    requires
        list_was_read(read, pointer, headers),
        0 <= i < headers.len(),
    ensures
        headers.len() <= 255,
        call_ensures(read, (0x34u32,), pointer),
        ({
            let place = if i == 0 {
                pointer % 0x100
            } else {
                headers[i - 1] / 0x100 % 0x100
            };
            place != 0 && call_ensures(read, (place,), headers[i])
        }),
{
    assert(place_read(pointer, headers, i) != 0);
}

/// A layout that was read came from answers that describe it: a status with bit 20 set, a header
/// with the low byte 0x11 at its place, and the two dwords that follow.
pub proof fn law_read_layout_was_answered<F: Fn(u32) -> u32>(read: F, layout: MsixLayout)
    requires
        layout_was_read(read, layout),
    ensures
        exists|status: u32| #[trigger]
            call_ensures(read, (0x04u32,), status) && status / 0x10_0000 % 2 == 1,
        exists|header: u32| #[trigger]
            call_ensures(read, (layout.cap_offset as u32,), header) && header % 0x100 == 0x11
                && layout.table_size == 16 * (header as int / 0x1_0000 % 0x800 + 1),
        exists|table: u32| #[trigger]
            call_ensures(read, ((layout.cap_offset + 4) as u32,), table) && layout.table_offset
                + layout.table_bar == table,
        exists|pba: u32| #[trigger]
            call_ensures(read, ((layout.cap_offset + 8) as u32,), pba) && layout.pba_offset
                + layout.pba_bar == pba,
{
    let status = choose|status: u32| #[trigger]
        call_ensures(read, (PCI_CONFIG_STATUS,), status) && (status
            & PCI_CONFIG_STATUS_CAPABILITIES_LIST != 0) == true;
    lemma_list_bit(status);
    let (pointer, headers, table, pba) = choose|
        pointer: u32,
        headers: Seq<u32>,
        table: u32,
        pba: u32,
    |
        {
            &&& #[trigger] list_was_read(read, pointer, headers)
            &&& #[trigger] call_ensures(read, ((layout.cap_offset + 4) as u32,), table)
            &&& #[trigger] call_ensures(read, ((layout.cap_offset + 8) as u32,), pba)
            &&& headers.len() > 0
            &&& no_msix_among(headers.drop_last())
            &&& capability_id(headers.last()) == PCI_CAP_ID_MSIX
            &&& layout == described_layout(
                place_read(pointer, headers, headers.len() - 1),
                headers.last(),
                table,
                pba,
            )
        };
    let cap = place_read(pointer, headers, headers.len() - 1);
    assert(cap != 0);
    lemma_described_layout_wf(cap, headers.last(), table, pba);
}

/// That no capability was found came from answers that show none: a status with bit 20 clear, or
/// headers none of which has the low byte 0x11, the last of which names no further place or is the
/// 255th.
pub proof fn law_unread_layout_was_answered<F: Fn(u32) -> u32>(read: F)
    requires
        no_msix_was_read(read),
    ensures
        (exists|status: u32| #[trigger]
            call_ensures(read, (0x04u32,), status) && status / 0x10_0000 % 2 == 0) || (
        exists|pointer: u32, headers: Seq<u32>|
            {
                &&& #[trigger] list_was_read(read, pointer, headers)
                &&& forall|i: int| 0 <= i < headers.len() ==> #[trigger] headers[i] % 0x100 != 0x11
                &&& headers.len() == 255 || (headers.len() == 0 && pointer % 0x100 == 0) || (
                headers.len() > 0 && headers.last() / 0x100 % 0x100 == 0)
            }),
{
    if status_was_read(read, false) {
        let status = choose|status: u32| #[trigger]
            call_ensures(read, (PCI_CONFIG_STATUS,), status) && (status
                & PCI_CONFIG_STATUS_CAPABILITIES_LIST != 0) == false;
        lemma_list_bit(status);
    } else {
        let (pointer, headers) = choose|pointer: u32, headers: Seq<u32>|
            {
                &&& #[trigger] list_was_read(read, pointer, headers)
                &&& no_msix_among(headers)
                &&& place_read(pointer, headers, headers.len() as int) == 0 || headers.len()
                    == CAPABILITY_PLACES
            };
        assert forall|i: int| 0 <= i < headers.len() implies #[trigger] headers[i] % 0x100
            != 0x11 by {
            assert(capability_id(headers[i]) != PCI_CAP_ID_MSIX);
        }
    }
}

} // verus!
