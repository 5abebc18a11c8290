//! Guest address space for BARs.
//!
//! The address space of a window is managed by `vm_allocator::AddressAllocator`, an interval tree
//! whose nodes are ranges of addresses that are free or taken.

use vstd::prelude::*;

use crate::align;

verus! {

/// `vm_allocator::AddressAllocator`, an allocator of address ranges.
#[verifier::external_type_specification]
#[verifier::external_body]
pub struct ExAddressAllocator(vm_allocator::AddressAllocator);

/// `vm_allocator::Error`, the reason why the allocator gave out no range.
#[verifier::external_type_specification]
#[verifier::external_body]
pub struct ExAllocatorError(vm_allocator::Error);

/// Why a window gave out no range.
#[derive(Debug, Clone, Copy, PartialEq, Eq)]
pub enum AllocError {
    /// The address after the range, or the height of the allocator's tree, is too large.
    Overflow,
    /// No free node has room for the range.
    ResourceNotAvailable,
    /// The alignment is not a power of two.
    InvalidAlignment,
    /// The size is zero.
    InvalidSize(u64),
    /// Any other error of the allocator.
    Other(vm_allocator::Error),
}

/// The nodes of the allocator's interval tree, in rising order of address: the first and the last
/// address of each, and whether it is free.
pub uninterp spec fn address_nodes(window: vm_allocator::AddressAllocator) -> Seq<(u64, u64, bool)>;

/// The least multiple of `alignment` that is not below `first`.
pub open spec fn first_aligned(first: u64, alignment: u64) -> int {
    (first + alignment - 1) / (alignment as int) * alignment
}

/// Whether a node is free and has room for `size` aligned bytes.
pub open spec fn node_fits(node: (u64, u64, bool), size: u64, alignment: u64) -> bool {
    node.2 && first_aligned(node.0, alignment) + size - 1 <= node.1
}

/// Whether node `i` is the lowest one that has room for `size` aligned bytes.
pub open spec fn first_fit(
    nodes: Seq<(u64, u64, bool)>,
    size: u64,
    alignment: u64,
    i: int,
) -> bool {
    &&& 0 <= i < nodes.len()
    &&& node_fits(nodes[i], size, alignment)
    &&& forall|j: int| 0 <= j < i ==> !node_fits(#[trigger] nodes[j], size, alignment)
}

/// The address that a request for `size` aligned bytes is given, if it can be met: the lowest
/// aligned one of the lowest node with room. The address after the range must fit in 64 bits.
pub open spec fn given_address(
    nodes: Seq<(u64, u64, bool)>,
    size: u64,
    alignment: u64,
) -> Option<u64> {
    if size > 0 && align::is_power_of_two(alignment) && exists|i: int|
        first_fit(nodes, size, alignment, i) {
        let i = choose|i: int| first_fit(nodes, size, alignment, i);
        let address = first_aligned(nodes[i].0, alignment);
        if address + size <= u64::MAX {
            Some(address as u64)
        } else {
            None
        }
    } else {
        None
    }
}

/// Why a request for `size` aligned bytes that cannot be met is refused.
pub open spec fn refusal(nodes: Seq<(u64, u64, bool)>, size: u64, alignment: u64) -> AllocError {
    if size == 0 {
        AllocError::InvalidSize(size)
    } else if !align::is_power_of_two(alignment) {
        AllocError::InvalidAlignment
    } else if !exists|i: int| first_fit(nodes, size, alignment, i) {
        AllocError::ResourceNotAvailable
    } else {
        AllocError::Overflow
    }
}

/// The nodes after the `size` bytes at `address` were taken out of node `i`.
pub open spec fn take_from_node(
    nodes: Seq<(u64, u64, bool)>,
    i: int,
    address: u64,
    size: u64,
) -> Seq<(u64, u64, bool)> {
    let node = nodes[i];
    let below = if node.0 < address {
        seq![(node.0, (address - 1) as u64, true)]
    } else {
        seq![]
    };
    let above = if address + size <= node.1 {
        seq![((address + size) as u64, node.1, true)]
    } else {
        seq![]
    };
    nodes.take(i) + below + seq![(address, (address + size - 1) as u64, false)] + above
        + nodes.skip(i + 1)
}

/// The nodes after a request for `size` aligned bytes.
pub open spec fn nodes_after(
    nodes: Seq<(u64, u64, bool)>,
    size: u64,
    alignment: u64,
) -> Seq<(u64, u64, bool)> {
    match given_address(nodes, size, alignment) {
        Some(address) => {
            let i = choose|i: int| first_fit(nodes, size, alignment, i);
            take_from_node(nodes, i, address, size)
        },
        None => nodes,
    }
}

/// Whether the nodes are ranges that do not overlap, in rising order of address.
pub open spec fn nodes_apart(nodes: Seq<(u64, u64, bool)>) -> bool {
    &&& forall|i: int| 0 <= i < nodes.len() ==> (#[trigger] nodes[i]).0 <= nodes[i].1
    &&& forall|i: int, j: int|
        0 <= i < j < nodes.len() ==> (#[trigger] nodes[i]).1 < (#[trigger] nodes[j]).0
}

/// Number of nodes below which the height of the allocator's tree stays under its limit.
pub const TREE_NODES: u64 = 0x1_0000_0000;

/// Whether a request for `size` aligned bytes can have `outcome`, and turn the nodes `before` into
/// the nodes `after`.
pub open spec fn allocation(
    before: Seq<(u64, u64, bool)>,
    size: u64,
    alignment: u64,
    outcome: Result<u64, AllocError>,
    after: Seq<(u64, u64, bool)>,
) -> bool {
    match outcome {
        Ok(address) => {
            &&& given_address(before, size, alignment) == Some(address)
            &&& after == nodes_after(before, size, alignment)
        },
        Err(error) => before.len() < TREE_NODES ==> {
            &&& given_address(before, size, alignment) is None
            &&& error == refusal(before, size, alignment)
            &&& after == before
        },
    }
}

/// `vm_allocator::AddressAllocator::allocate` with the policy `FirstMatch`, and the start of the
/// range that it returns.
///
/// Claimed of it: a range is given out only as [`given_address`] says, and is then taken out of
/// the free nodes. As long as the tree has fewer than [`TREE_NODES`] nodes, every request that
/// [`given_address`] can meet is met, and any other one is refused as [`refusal`] says and leaves
/// the nodes as they were. A taller tree may refuse a request because it would pass its height
/// limit of 50, and what its nodes are then is left unsaid. The nodes never overlap.
#[verifier::external_body]
pub(crate) fn allocate_first_match(
    window: &mut vm_allocator::AddressAllocator,
    size: u64,
    alignment: u64,
) -> (address: Result<u64, AllocError>)
    ensures
        allocation(
            address_nodes(*old(window)),
            size,
            alignment,
            address,
            address_nodes(*final(window)),
        ),
        nodes_apart(address_nodes(*final(window))),
{
    match window.allocate(size, alignment, vm_allocator::AllocPolicy::FirstMatch) {
        Ok(range) => Ok(range.start()),
        Err(vm_allocator::Error::Overflow) => Err(AllocError::Overflow),
        Err(vm_allocator::Error::ResourceNotAvailable) => Err(AllocError::ResourceNotAvailable),
        Err(vm_allocator::Error::InvalidAlignment) => Err(AllocError::InvalidAlignment),
        Err(vm_allocator::Error::InvalidSize(n)) => Err(AllocError::InvalidSize(n)),
        Err(other) => Err(AllocError::Other(other)),
    }
}

/// A given address is a multiple of the alignment, and the range fits in 64 bits.
pub proof fn law_given_address_is_aligned(
    nodes: Seq<(u64, u64, bool)>,
    size: u64,
    alignment: u64,
)
    ensures
        given_address(nodes, size, alignment) matches Some(address) ==> address % alignment == 0
            && address + size <= u64::MAX,
{
    if let Some(address) = given_address(nodes, size, alignment) {
        let i = choose|i: int| first_fit(nodes, size, alignment, i);
        align::law_aligned_down(0, alignment);
        vstd::arithmetic::div_mod::lemma_mod_multiples_basic(
            (nodes[i].0 + alignment - 1) / (alignment as int),
            alignment as int,
        );
    }
}

/// A range that was given out is a taken node afterwards.
pub proof fn law_given_range_is_taken(nodes: Seq<(u64, u64, bool)>, size: u64, alignment: u64)
    ensures
        given_address(nodes, size, alignment) matches Some(address) ==> nodes_after(
            nodes,
            size,
            alignment,
        ).contains((address, (address + size - 1) as u64, false)),
{
    if let Some(address) = given_address(nodes, size, alignment) {
        let i = choose|i: int| first_fit(nodes, size, alignment, i);
        let after = nodes_after(nodes, size, alignment);
        let at = if nodes[i].0 < address {
            i + 1
        } else {
            i
        };
        assert(after[at] == (address, (address + size - 1) as u64, false));
    }
}

/// A node that was taken before a range was given out stays taken, and has no address in common
/// with the range.
pub proof fn law_taken_nodes_stay_apart(
    nodes: Seq<(u64, u64, bool)>,
    size: u64,
    alignment: u64,
    first: u64,
    last: u64,
)
    requires
        nodes.contains((first, last, false)),
        nodes_apart(nodes_after(nodes, size, alignment)),
    ensures
        nodes_after(nodes, size, alignment).contains((first, last, false)),
        given_address(nodes, size, alignment) matches Some(address) ==> last < address || address
            + size <= first,
{
    if let Some(address) = given_address(nodes, size, alignment) {
        let i = choose|i: int| first_fit(nodes, size, alignment, i);
        let after = nodes_after(nodes, size, alignment);
        let k = choose|k: int| 0 <= k < nodes.len() && nodes[k] == (first, last, false);
        let at = if nodes[i].0 < address {
            i + 1
        } else {
            i
        };
        let grown = after.len() - nodes.len();
        assert(after[at] == (address, (address + size - 1) as u64, false));
        if k < i {
            assert(after[k] == (first, last, false));
        } else {
            assert(after[k + grown] == (first, last, false));
        }
    }
}

/// The two windows of guest address space that BARs are placed in.
pub struct MmioWindows {
    /// Addresses for 32-bit BARs.
    pub mmio32_memory: vm_allocator::AddressAllocator,
    /// Addresses for 64-bit BARs.
    pub mmio64_memory: vm_allocator::AddressAllocator,
}

/// Whether the `size` addresses from `address` on lie in one free node.
pub open spec fn has_room(nodes: Seq<(u64, u64, bool)>, address: int, size: int) -> bool {
    exists|k: int|
        0 <= k < nodes.len() && (#[trigger] nodes[k]).2 && nodes[k].0 <= address && address + size
            - 1 <= nodes[k].1
}

/// Whether an address lies in a node that is free, or in one that is taken.
pub open spec fn address_is(nodes: Seq<(u64, u64, bool)>, free: bool, x: int) -> bool {
    exists|k: int|
        0 <= k < nodes.len() && (#[trigger] nodes[k]).2 == free && nodes[k].0 <= x <= nodes[k].1
}

proof fn lemma_first_aligned(first: u64, alignment: u64, a: int)
    requires
        alignment >= 1,
        a % (alignment as int) == 0,
        first <= a,
    ensures
        first_aligned(first, alignment) <= a,
        first <= first_aligned(first, alignment),
{
    let p = alignment as int;
    let v = first + p - 1;
    vstd::arithmetic::div_mod::lemma_fundamental_div_mod(v, p);
    vstd::arithmetic::div_mod::lemma_fundamental_div_mod(a, p);
    let q = v / p;
    let r = a / p;
    assert(q * p <= a && q * p > v - p) by (nonlinear_arith)
        requires
            p >= 1,
            v == p * q + v % p,
            0 <= v % p < p,
            a == p * r,
            v <= a + p - 1,
    ;
}

proof fn lemma_first_fit(nodes: Seq<(u64, u64, bool)>, size: u64, alignment: u64, k: int) -> (i: int)
    requires
        0 <= k < nodes.len(),
        node_fits(nodes[k], size, alignment),
    ensures
        i <= k,
        first_fit(nodes, size, alignment, i),
        i == choose|j: int| first_fit(nodes, size, alignment, j),
    decreases k,
{
    if exists|j: int| 0 <= j < k && node_fits(#[trigger] nodes[j], size, alignment) {
        let j = choose|j: int| 0 <= j < k && node_fits(#[trigger] nodes[j], size, alignment);
        lemma_first_fit(nodes, size, alignment, j)
    } else {
        assert(first_fit(nodes, size, alignment, k));
        let c = choose|j: int| first_fit(nodes, size, alignment, j);
        assert(c == k) by {
            if c < k {
                assert(!node_fits(nodes[c], size, alignment));
            } else if k < c {
                assert(!node_fits(nodes[k], size, alignment));
            }
        }
        k
    }
}

/// A given address is the lowest multiple of the alignment at which a free node has room; and a
/// request for which there is such an address, with the address after the range within 64 bits, is
/// met.
pub proof fn law_given_address_is_lowest(
    nodes: Seq<(u64, u64, bool)>,
    size: u64,
    alignment: u64,
    a: int,
)
    requires
        nodes_apart(nodes),
        size > 0,
        align::is_power_of_two(alignment),
    ensures
        match given_address(nodes, size, alignment) {
            Some(address) => {
                &&& address % alignment == 0
                &&& address + size <= u64::MAX
                &&& has_room(nodes, address as int, size as int)
                &&& a % (alignment as int) == 0 && has_room(nodes, a, size as int) ==> address <= a
            },
            None => a % (alignment as int) == 0 && has_room(nodes, a, size as int) ==> a + size
                > u64::MAX,
        },
{
    align::law_aligned_down(0, alignment);
    law_given_address_is_aligned(nodes, size, alignment);
    if let Some(address) = given_address(nodes, size, alignment) {
        let i = choose|i: int| first_fit(nodes, size, alignment, i);
        let p = alignment as int;
        let v = nodes[i].0 + p - 1;
        vstd::arithmetic::div_mod::lemma_fundamental_div_mod(v, p);
        assert(p * (v / p) == v / p * p) by (nonlinear_arith);
        assert(nodes[i].0 <= address);
        assert(has_room(nodes, address as int, size as int));
    }
    if a % (alignment as int) == 0 && has_room(nodes, a, size as int) {
        let k = choose|k: int|
            0 <= k < nodes.len() && (#[trigger] nodes[k]).2 && nodes[k].0 <= a && a + size - 1
                <= nodes[k].1;
        lemma_first_aligned(nodes[k].0, alignment, a);
        assert(node_fits(nodes[k], size, alignment));
        let i = lemma_first_fit(nodes, size, alignment, k);
        if i < k {
            assert(nodes[i].1 < nodes[k].0);
        }
    }
}

proof fn lemma_joined_nodes(
    a: Seq<(u64, u64, bool)>,
    b: Seq<(u64, u64, bool)>,
    free: bool,
    x: int,
)
    ensures
        address_is(a + b, free, x) <==> address_is(a, free, x) || address_is(b, free, x),
{
    let all = a + b;
    if address_is(a, free, x) {
        let k = choose|k: int|
            0 <= k < a.len() && (#[trigger] a[k]).2 == free && a[k].0 <= x <= a[k].1;
        assert(all[k] == a[k]);
    }
    if address_is(b, free, x) {
        let k = choose|k: int|
            0 <= k < b.len() && (#[trigger] b[k]).2 == free && b[k].0 <= x <= b[k].1;
        assert(all[a.len() + k] == b[k]);
    }
    if address_is(all, free, x) {
        let k = choose|k: int|
            0 <= k < all.len() && (#[trigger] all[k]).2 == free && all[k].0 <= x <= all[k].1;
        if k < a.len() {
            assert(a[k] == all[k]);
        } else {
            assert(b[k - a.len()] == all[k]);
        }
    }
}

proof fn lemma_one_node(node: (u64, u64, bool), free: bool, x: int)
    ensures
        address_is(seq![node], free, x) <==> node.2 == free && node.0 <= x <= node.1,
{
    assert(seq![node][0] == node);
}

/// Giving out a range makes exactly its addresses taken: they were free before, and every other
/// address stays as it was.
pub proof fn law_given_range_alone_is_taken(
    nodes: Seq<(u64, u64, bool)>,
    size: u64,
    alignment: u64,
    x: int,
)
    requires
        nodes_apart(nodes),
        given_address(nodes, size, alignment) is Some,
    ensures
        ({
            let address = given_address(nodes, size, alignment)->0;
            let after = nodes_after(nodes, size, alignment);
            let given = address <= x < address + size;
            &&& given ==> address_is(nodes, true, x)
            &&& address_is(after, true, x) <==> address_is(nodes, true, x) && !given
            &&& address_is(after, false, x) <==> address_is(nodes, false, x) || given
        }),
{
    let address = given_address(nodes, size, alignment)->0;
    let after = nodes_after(nodes, size, alignment);
    let given = address <= x < address + size;
    let i = choose|i: int| first_fit(nodes, size, alignment, i);
    let node = nodes[i];
    law_given_address_is_lowest(nodes, size, alignment, 0);
    let p = alignment as int;
    let v = node.0 + p - 1;
    align::law_aligned_down(0, alignment);
    vstd::arithmetic::div_mod::lemma_fundamental_div_mod(v, p);
    assert(p * (v / p) == v / p * p) by (nonlinear_arith);
    assert(node.0 <= address);
    let lower = nodes.take(i);
    let upper = nodes.skip(i + 1);
    let below: Seq<(u64, u64, bool)> = if node.0 < address {
        seq![(node.0, (address - 1) as u64, true)]
    } else {
        seq![]
    };
    let taken: Seq<(u64, u64, bool)> = seq![(address, (address + size - 1) as u64, false)];
    let above: Seq<(u64, u64, bool)> = if address + size <= node.1 {
        seq![((address + size) as u64, node.1, true)]
    } else {
        seq![]
    };
    assert(after == lower + below + taken + above + upper);
    assert(nodes =~= lower + seq![node] + upper);
    assert forall|free: bool| #[trigger] address_is(lower, free, x) || address_is(upper, free, x)
        implies !(node.0 <= x <= node.1) by {
        if address_is(lower, free, x) {
            let k = choose|k: int|
                0 <= k < lower.len() && (#[trigger] lower[k]).2 == free && lower[k].0 <= x
                    <= lower[k].1;
            assert(nodes[k].1 < nodes[i].0);
        } else {
            let k = choose|k: int|
                0 <= k < upper.len() && (#[trigger] upper[k]).2 == free && upper[k].0 <= x
                    <= upper[k].1;
            assert(nodes[i].1 < nodes[i + 1 + k].0);
        }
    }
    lemma_parts(lower, below, taken, above, upper, true, x);
    lemma_parts(lower, below, taken, above, upper, false, x);
    lemma_parts(lower, seq![node], seq![], seq![], upper, true, x);
    lemma_parts(lower, seq![node], seq![], seq![], upper, false, x);
    assert(lower + seq![node] + Seq::<(u64, u64, bool)>::empty() + Seq::<
        (u64, u64, bool),
    >::empty() + upper =~= nodes);
    lemma_one_node(node, true, x);
    lemma_one_node(node, false, x);
    lemma_one_node(taken[0], true, x);
    lemma_one_node(taken[0], false, x);
    if node.0 < address {
        lemma_one_node(below[0], true, x);
        lemma_one_node(below[0], false, x);
    }
    if address + size <= node.1 {
        lemma_one_node(above[0], true, x);
        lemma_one_node(above[0], false, x);
    }
}

proof fn lemma_parts(
    a: Seq<(u64, u64, bool)>,
    b: Seq<(u64, u64, bool)>,
    c: Seq<(u64, u64, bool)>,
    d: Seq<(u64, u64, bool)>,
    e: Seq<(u64, u64, bool)>,
    free: bool,
    x: int,
)
    ensures
        address_is(a + b + c + d + e, free, x) <==> address_is(a, free, x) || address_is(b, free, x)
            || address_is(c, free, x) || address_is(d, free, x) || address_is(e, free, x),
{
    lemma_joined_nodes(a, b, free, x);
    lemma_joined_nodes(a + b, c, free, x);
    lemma_joined_nodes(a + b + c, d, free, x);
    lemma_joined_nodes(a + b + c + d, e, free, x);
}

} // verus!
