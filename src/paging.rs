//! Page entries, page tables, and the four-level hierarchy built from them.
//!
//! Physical memory that holds page tables is modelled as an arena: the
//! hierarchy owns every table it has created, each tagged with the physical
//! frame it occupies, and an entry refers to a lower table by that frame's
//! address.
use vstd::prelude::*;
use crate::uflags::{Flags16, truncation_mask};
use x86_64::structures::paging::{PhysFrame, Size4KiB};
use x86_64::PhysAddr;

verus! {

/// Physical addresses are below 2^52.
pub const PHYS_ADDR_LIMIT: u64 = 0x10_0000_0000_0000;

/// Relies on x86_64's `PhysFrame::<Size4KiB>::from_start_address`, which
/// fails exactly when the address is not 4 KiB aligned; `PhysAddr::new`
/// only converts the argument, and panics from bit 52 up, which `requires`
/// rules out.
#[verifier::external_body]
fn starts_frame(addr: u64) -> (r: bool)
    requires
        addr < PHYS_ADDR_LIMIT,
    ensures
        r == (addr % 4096 == 0),
{
    PhysFrame::<Size4KiB>::from_start_address(PhysAddr::new(addr)).is_ok()
}

/// The page is present; walking a non-present entry faults.
pub const PRESENT: u16 = 1;
/// Writes are allowed; otherwise the page is read-only.
pub const WRITE_ENABLE: u16 = 2;
/// User mode may use the page; otherwise only the kernel may.
pub const USER_ACCESSIBLE: u16 = 4;
/// Write-through caching; otherwise write-back.
pub const WRITE_THROUGH_ENABLE: u16 = 8;
/// Caching is disabled for the page.
pub const CACHE_DISABLE: u16 = 16;
/// Set by the MMU when a translation used the entry.
pub const ACCESSED: u16 = 32;
/// Set by the MMU when the page was written to.
pub const WRITTEN_TO: u16 = 64;
/// Free for the operating system.
pub const AVAILABLE_1: u16 = 128;
/// A large page; it must then be aligned to its size.
pub const LARGE_PAGE: u16 = 256;
/// Free for the operating system.
pub const AVAILABLE_2: u16 = 512;
/// Free for the operating system.
pub const AVAILABLE_3: u16 = 1024;
/// Free for the operating system.
pub const AVAILABLE_4: u16 = 2048;

/// Base of the virtual window through which all physical memory is mapped.
pub const OFFSET: u64 = 0xB0000000;

/// How many 4 KiB pages a 48-bit virtual address space holds: 2^36.
pub const PAGES_IN_ADDRESS_SPACE: u64 = 0x10_0000_0000;

/// The low twelve bits of an entry: its flag register.
pub const FLAG_BITS: u64 = 0xFFF;

/// The source of fresh physical frames.
pub trait FrameAllocator {
    /// The start address of a fresh 4 KiB frame, or `None` when memory is
    /// exhausted.
    fn allocate_frame(&mut self) -> Option<u64>;
}

/// What can stop the construction of the hierarchy.
#[derive(Copy, Clone, Debug, PartialEq, Eq, Structural)]
pub enum PagingError {
    /// The frame allocator had no frame to give.
    FrameUnavailable,
    /// The frame allocator gave a frame that already holds a page table.
    FrameInUse,
    /// A present entry names a frame that holds no table of the hierarchy.
    CorruptEntry,
    /// The root table's address does not fit in a physical address.
    AddressOutOfRange,
    /// Paging has already been enabled.
    AlreadyActive,
}

/// One 64-bit entry: a 4 KiB-aligned physical address in bits 12 to 63 and
/// a flag register in bits 0 to 11.
#[derive(Copy, Clone, Debug)]
pub struct PageEntry {
    pub raw: u64,
}

/// The address an entry holds: its word with the low twelve bits cleared.
pub open spec fn entry_address(raw: u64) -> u64 {
    raw & !FLAG_BITS
}

/// The flag register of an entry.
pub open spec fn entry_flags(raw: u64) -> u16 {
    (raw & FLAG_BITS) as u16
}

/// Whether an entry's flags are exactly `PRESENT`, the state in which the
/// hierarchy follows it.
pub open spec fn is_present(e: PageEntry) -> bool {
    entry_flags(e.raw) == PRESENT
}

impl PageEntry {
    pub fn from_u64(num: u64) -> (r: PageEntry)
        ensures
            r.raw == num,
    {
        PageEntry { raw: num }
    }

    /// The stored address, aligned down to 4 KiB.
    pub fn address(&self) -> (r: u64)
        ensures
            r == entry_address(self.raw),
    {
        self.raw & !FLAG_BITS
    }

    /// The flag register.
    pub fn flags(&self) -> (r: Flags16)
        ensures
            r.0 == entry_flags(self.raw),
    {
        let low = (self.raw & FLAG_BITS) as u16;
        let raw = self.raw;
        assert(truncation_mask(4) == 0x7000u16) by (bit_vector);
        assert(low & !0x7000u16 == low) by (bit_vector)
            requires
                low == (raw & 0xFFFu64) as u16,
        ;
        Flags16::from_u16(low).truncate_bits(4)
    }

    /// Stores `addr` aligned down to 4 KiB and keeps the flags.
    pub fn set_address(&mut self, addr: u64)
        ensures
            final(self).raw == entry_address(addr) | (old(self).raw & FLAG_BITS),
    {
        self.raw = (addr & !FLAG_BITS) | (self.raw & FLAG_BITS);
    }

    /// Stores the flag register's low twelve bits and keeps the address.
    pub fn set_flags(&mut self, flags: Flags16)
        ensures
            final(self).raw == entry_address(old(self).raw) | ((flags.0 as u64) & FLAG_BITS),
    {
        let t = flags.truncate_bits(4);
        let f = flags.0;
        let tv = t.0;
        assert(truncation_mask(4) == 0x7000u16) by (bit_vector);
        assert((tv as u64) & 0xFFFu64 == (f as u64) & 0xFFFu64) by (bit_vector)
            requires
                tv == f & !0x7000u16,
        ;
        self.raw = (self.raw & !FLAG_BITS) | ((t.0 as u64) & FLAG_BITS);
    }

    /// Points the entry at a fresh frame from `fralloc`, present and with no
    /// other flag. When no frame comes, the entry is left as it was.
    pub fn init_page<A: FrameAllocator>(&mut self, fralloc: &mut A) -> (r: Result<(), PagingError>)
        ensures
            r is Ok ==> entry_flags(final(self).raw) == PRESENT,
            r is Err ==> r == Err::<(), PagingError>(PagingError::FrameUnavailable) && *final(self) == *old(self),
    {
        match fralloc.allocate_frame() {
            Some(frame) => {
                self.init_page_with_paddr(frame);
                Ok(())
            },
            None => Err(PagingError::FrameUnavailable),
        }
    }

    /// Points the entry at `paddr` aligned down to 4 KiB, present and with no
    /// other flag.
    pub fn init_page_with_paddr(&mut self, paddr: u64)
        ensures
            final(self).raw == entry_address(paddr) | (PRESENT as u64),
            entry_address(final(self).raw) == entry_address(paddr),
            entry_flags(final(self).raw) == PRESENT,
    {
        let a = paddr;
        let o = self.raw;
        self.set_address(paddr);
        self.set_flags(Flags16::from_u16(PRESENT));
        let r = self.raw;
        assert(r == (a & !0xFFFu64) | 1u64) by (bit_vector)
            requires
                r == (((a & !0xFFFu64) | (o & 0xFFFu64)) & !0xFFFu64) | ((1u16 as u64) & 0xFFFu64),
        ;
        assert(((a & !0xFFFu64) | 1u64) & !0xFFFu64 == a & !0xFFFu64) by (bit_vector);
        assert((((a & !0xFFFu64) | 1u64) & 0xFFFu64) as u16 == 1u16) by (bit_vector);
    }

    /// The address and the flag register.
    pub fn as_raw_parts(&self) -> (r: (u64, u16))
        ensures
            r == (entry_address(self.raw), entry_flags(self.raw)),
    {
        (self.address(), self.flags().0)
    }
}

/// Setting an address and reading it back gives the address rounded down to
/// a multiple of 4096, and leaves the flags as they were.
pub proof fn lemma_set_address_round_trip(raw: u64, addr: u64)
    ensures
        entry_address(entry_address(addr) | (raw & FLAG_BITS)) == addr - addr % 4096,
        entry_flags(entry_address(addr) | (raw & FLAG_BITS)) == entry_flags(raw),
{
    assert((((addr & !0xFFFu64) | (raw & 0xFFFu64)) & !0xFFFu64) == addr - addr % 4096) by (bit_vector);
    assert((((addr & !0xFFFu64) | (raw & 0xFFFu64)) & 0xFFFu64) == raw & 0xFFFu64) by (bit_vector);
}

/// Setting flags and reading them back gives them cut to the twelve bits of
/// the flag register, and leaves the address as it was.
pub proof fn lemma_set_flags_round_trip(raw: u64, flags: u16)
    ensures
        entry_flags(entry_address(raw) | ((flags as u64) & FLAG_BITS)) == flags & 0xFFFu16,
        entry_address(entry_address(raw) | ((flags as u64) & FLAG_BITS)) == entry_address(raw),
{
    assert(((((raw & !0xFFFu64) | ((flags as u64) & 0xFFFu64)) & 0xFFFu64) as u16) == flags & 0xFFFu16) by (bit_vector);
    assert((((raw & !0xFFFu64) | ((flags as u64) & 0xFFFu64)) & !0xFFFu64) == raw & !0xFFFu64) by (bit_vector);
}

/// The four table indices of a virtual address: bits 39 to 47, 30 to 38,
/// 21 to 29 and 12 to 20.
pub open spec fn vaddr_indices(v: u64) -> (usize, usize, usize, usize) {
    (
        ((v & (511u64 << 39u64)) >> 39u64) as usize,
        ((v & (511u64 << 30u64)) >> 30u64) as usize,
        ((v & (511u64 << 21u64)) >> 21u64) as usize,
        ((v & (511u64 << 12u64)) >> 12u64) as usize,
    )
}

/// The address whose indices are `i` and whose page offset is zero.
pub open spec fn vaddr_from_indices(i: (usize, usize, usize, usize)) -> u64 {
    ((i.0 as u64) << 39u64) | ((i.1 as u64) << 30u64) | ((i.2 as u64) << 21u64) | ((i.3 as u64)
        << 12u64)
}

proof fn lemma_indices_bounded(v: u64)
    ensures
        (v & (511u64 << 39u64)) >> 39u64 < 512,
        (v & (511u64 << 30u64)) >> 30u64 < 512,
        (v & (511u64 << 21u64)) >> 21u64 < 512,
        (v & (511u64 << 12u64)) >> 12u64 < 512,
{
    assert((v & (511u64 << 39u64)) >> 39u64 < 512) by (bit_vector);
    assert((v & (511u64 << 30u64)) >> 30u64 < 512) by (bit_vector);
    assert((v & (511u64 << 21u64)) >> 21u64 < 512) by (bit_vector);
    assert((v & (511u64 << 12u64)) >> 12u64 < 512) by (bit_vector);
}

/// Splitting a 4 KiB-aligned address below 2^48 into its indices and
/// putting them back together gives the address again.
pub proof fn lemma_indices_round_trip(v: u64)
    requires
        v % 4096 == 0,
        v < 0x1_0000_0000_0000,
    ensures
        vaddr_from_indices(vaddr_indices(v)) == v,
{
    let a = (v & (511u64 << 39u64)) >> 39u64;
    let b = (v & (511u64 << 30u64)) >> 30u64;
    let c = (v & (511u64 << 21u64)) >> 21u64;
    let d = (v & (511u64 << 12u64)) >> 12u64;
    lemma_indices_bounded(v);
    assert((a << 39u64) | (b << 30u64) | (c << 21u64) | (d << 12u64) == v) by (bit_vector)
        requires
            v % 4096 == 0,
            v < 0x1_0000_0000_0000,
            a == (v & (511u64 << 39u64)) >> 39u64,
            b == (v & (511u64 << 30u64)) >> 30u64,
            c == (v & (511u64 << 21u64)) >> 21u64,
            d == (v & (511u64 << 12u64)) >> 12u64,
    ;
}

/// 512 entries: one 4 KiB page.
#[derive(Copy, Clone)]
pub struct PageTable {
    table: [PageEntry; 512],
}

impl View for PageTable {
    type V = Seq<PageEntry>;

    closed spec fn view(&self) -> Seq<PageEntry> {
        self.table@
    }
}

impl PageTable {
    /// A table whose entries are all zero.
    pub fn new() -> (r: PageTable)
        ensures
            r@.len() == 512,
            forall|i: int| 0 <= i < 512 ==> (#[trigger] r@[i]).raw == 0,
    {
        PageTable { table: [PageEntry { raw: 0 }; 512] }
    }

    pub fn index(&self, index: usize) -> (r: PageEntry)
        requires
            index < 512,
        ensures
            r == self@[index as int],
    {
        self.table[index]
    }

    pub fn set_index(&mut self, index: usize, entry: PageEntry)
        requires
            index < 512,
        ensures
            final(self)@ == old(self)@.update(index as int, entry),
    {
        self.table[index] = entry;
    }
}

/// The hierarchy: an arena of page tables, each tagged with the physical
/// frame it occupies. Table 0 is the root.
pub struct PageHierarchy {
    tables: Vec<PageTable>,
    frames: Vec<u64>,
    root: u64,
    active: bool,
    levels: Ghost<Seq<int>>,
}

impl PageHierarchy {
    /// Entry `i` of table `t` is present and names the frame of table `u`.
    pub closed spec fn child(self, t: int, i: int, u: int) -> bool {
        &&& 0 <= u < self.frames@.len()
        &&& is_present(self.tables@[t]@[i])
        &&& entry_address(self.tables@[t]@[i].raw) == self.frames@[u]
    }

    /// The walk for `v` goes from the root through tables `t1` and `t2` to
    /// the last-level table `t3`.
    pub closed spec fn walk(self, v: u64, t1: int, t2: int, t3: int) -> bool {
        let (a, b, c, d) = vaddr_indices(v);
        &&& self.child(0, a as int, t1)
        &&& self.child(t1, b as int, t2)
        &&& self.child(t2, c as int, t3)
    }

    /// Walking the hierarchy for `v` ends at a present entry whose address
    /// is `paddr`.
    pub closed spec fn maps_to(self, v: u64, paddr: u64) -> bool {
        exists|t1: int, t2: int, t3: int|
            #![trigger self.walk(v, t1, t2, t3)]
            self.walk(v, t1, t2, t3) && is_present(self.tables@[t3]@[vaddr_indices(v).3 as int])
                && entry_address(self.tables@[t3]@[vaddr_indices(v).3 as int].raw) == paddr
    }

    /// The frame that table `t` occupies.
    pub closed spec fn table_frame(self, t: int) -> u64 {
        self.frames@[t]
    }

    /// The depth of table `t`: 0 for the root, 3 for a last-level table.
    pub closed spec fn table_level(self, t: int) -> int {
        self.levels@[t]
    }

    /// Entry `vaddr_indices(v).3` of table `t`: the leaf that a walk for `v`
    /// ending at `t` reads.
    pub closed spec fn leaf_entry(self, t: int, v: u64) -> PageEntry {
        self.tables@[t]@[vaddr_indices(v).3 as int]
    }

    /// How many tables the hierarchy holds.
    pub closed spec fn table_count(self) -> nat {
        self.tables@.len()
    }

    /// Entry `i` of table `t`.
    pub closed spec fn table_entry(self, t: int, i: int) -> PageEntry {
        self.tables@[t]@[i]
    }

    /// Entry `i` of table `t` where `t` is a table of `self`, and a zero
    /// entry for a table made later.
    pub closed spec fn entry_or_zero(self, t: int, i: int) -> PageEntry {
        if t < self.tables@.len() {
            self.tables@[t]@[i]
        } else {
            PageEntry { raw: 0 }
        }
    }

    /// Some table of the hierarchy occupies frame `addr`.
    pub closed spec fn holds_table_frame(self, addr: u64) -> bool {
        exists|k: int| 0 <= k < self.frames@.len() && self.frames@[k] == addr
    }

    /// Entry `j` of table `k` lies on the walk for `v`: the root's entry, the
    /// entry of the table that it names, or the entry of the table below.
    pub closed spec fn on_path(self, v: u64, k: int, j: int) -> bool {
        let (a, b, c, d) = vaddr_indices(v);
        ||| k == 0 && j == a as int
        ||| self.child(0, a as int, k) && j == b as int
        ||| exists|u: int| self.child(0, a as int, u) && #[trigger] self.child(u, b as int, k) && j
            == c as int
    }

    /// The walk for `v` reaches a last-level table.
    pub closed spec fn has_walk(self, v: u64) -> bool {
        exists|t1: int, t2: int, t3: int| #[trigger] self.walk(v, t1, t2, t3)
    }

    /// `v` is mapped to some address.
    pub closed spec fn is_mapped(self, v: u64) -> bool {
        exists|p: u64| #[trigger] self.maps_to(v, p)
    }

    /// The physical address kept for the root table.
    pub closed spec fn root_spec(self) -> u64 {
        self.root
    }

    /// Whether the root has been installed into the CPU.
    pub closed spec fn is_active(self) -> bool {
        self.active
    }

    /// Well-formedness: table frames are distinct and aligned; table levels
    /// run from 0 at the root to 3; every present entry of a table above the
    /// last level names a table one level down, and no two such entries name
    /// the same table.
    pub closed spec fn wf(self) -> bool {
        let n = self.tables@.len();
        &&& self.frames@.len() == n
        &&& self.levels@.len() == n
        &&& n >= 1
        &&& self.levels@[0] == 0
        &&& self.root & FLAG_BITS == 0
        &&& forall|t: int| 0 <= t < n ==> (#[trigger] self.tables@[t])@.len() == 512
        &&& forall|t: int| 0 <= t < n ==> 0 <= #[trigger] self.levels@[t] <= 3
        &&& forall|j: int, k: int|
            0 <= j < n && 0 <= k < n && j != k ==> self.frames@[j] != self.frames@[k]
        &&& forall|t: int, i: int|
            0 <= t < n && self.levels@[t] < 3 && 0 <= i < 512 && is_present(
                #[trigger] self.tables@[t]@[i],
            ) ==> exists|u: int| self.child(t, i, u)
        &&& forall|t: int, i: int, u: int|
            0 <= t < n && self.levels@[t] < 3 && 0 <= i < 512 && #[trigger] self.child(t, i, u)
                ==> self.levels@[u] == self.levels@[t] + 1
        &&& forall|t: int, i: int, s: int, j: int|
            0 <= t < n && 0 <= s < n && self.levels@[t] < 3 && self.levels@[s] < 3 && 0 <= i
                < 512 && 0 <= j < 512 && is_present(#[trigger] self.tables@[t]@[i])
                && is_present(#[trigger] self.tables@[s]@[j]) && entry_address(
                self.tables@[t]@[i].raw,
            ) == entry_address(self.tables@[s]@[j].raw) ==> t == s && i == j
    }

    /// `new` keeps every table, frame and level of `self`, and changes only
    /// entries of upper-level tables that were not present.
    pub closed spec fn grows_to(self, new: Self) -> bool {
        let n = self.tables@.len();
        &&& n <= new.tables@.len()
        &&& new.root == self.root
        &&& new.active == self.active
        &&& forall|k: int| 0 <= k < n ==> #[trigger] new.frames@[k] == self.frames@[k]
        &&& forall|k: int| 0 <= k < n ==> #[trigger] new.levels@[k] == self.levels@[k]
        &&& forall|k: int, j: int|
            0 <= k < n && 0 <= j < 512 ==> new.tables@[k]@[j] == self.tables@[k]@[j] || (
            self.levels@[k] < 3 && !is_present(self.tables@[k]@[j]))
    }

    /// The index of the table held in frame `addr`, if any.
    fn find_frame(&self, addr: u64) -> (r: Option<usize>)
        ensures
            r matches Some(k) ==> k < self.frames@.len() && self.frames@[k as int] == addr,
            r is None ==> forall|k: int| 0 <= k < self.frames@.len() ==> self.frames@[k] != addr,
    {
        let mut j: usize = 0;
        while j < self.frames.len()
            invariant
                j <= self.frames@.len(),
                forall|k: int| 0 <= k < j ==> self.frames@[k] != addr,
            decreases self.frames@.len() - j,
        {
            if self.frames[j] == addr {
                return Some(j);
            }
            j = j + 1;
        }
        None
    }
    /// Hangs a fresh zeroed table below entry `i` of table `t`, in the frame
    /// that an allocator gave: `None` when it gave none. A frame that already
    /// holds a table is refused and nothing changes.
    pub fn attach_table(&mut self, t: usize, i: usize, frame: Option<u64>) -> (r: Result<
        usize,
        PagingError,
    >)
        requires
            old(self).wf(),
            t < old(self).table_count(),
            old(self).table_level(t as int) < 3,
            i < 512,
            !is_present(old(self).table_entry(t as int, i as int)),
        ensures
            final(self).wf(),
            old(self).grows_to(*final(self)),
            frame is None ==> r == Err::<usize, PagingError>(PagingError::FrameUnavailable)
                && *final(self) == *old(self),
            frame is Some && old(self).holds_table_frame(entry_address(frame->Some_0)) ==> r == Err::<
                usize,
                PagingError,
            >(PagingError::FrameInUse) && *final(self) == *old(self),
            frame is Some && !old(self).holds_table_frame(entry_address(frame->Some_0)) ==> r == Ok::<
                usize,
                PagingError,
            >(old(self).table_count() as usize) && final(self).table_count() == old(self).table_count()
                + 1 && final(self).table_frame(old(self).table_count() as int) == entry_address(frame->Some_0)
                && final(self).table_level(old(self).table_count() as int) == old(self).table_level(
                t as int,
            ) + 1 && final(self).table_entry(t as int, i as int).raw == entry_address(frame->Some_0) | (
            PRESENT as u64) && final(self).child(t as int, i as int, old(self).table_count() as int)
                && (forall|j: int|
                0 <= j < 512 ==> #[trigger] final(self).table_entry(
                    old(self).table_count() as int,
                    j,
                ).raw == 0) && (forall|k: int, j: int|
                0 <= k < old(self).table_count() && 0 <= j < 512 && !(k == t && j == i)
                    ==> #[trigger] final(self).table_entry(k, j) == old(self).table_entry(k, j)),
    {
        let frame = match frame {
            Some(f) => f,
            None => {
                return Err(PagingError::FrameUnavailable);
            },
        };
        let a = frame & !FLAG_BITS;
        if self.find_frame(a).is_some() {
            return Err(PagingError::FrameInUse);
        }
        let ghost old_self = *self;
        let mut entry = self.tables[t].index(i);
        entry.init_page_with_paddr(frame);
        let mut table = self.tables[t];
        table.set_index(i, entry);
        self.tables.set(t, table);
        self.tables.push(PageTable::new());
        self.frames.push(a);
        self.levels = Ghost(self.levels@.push(self.levels@[t as int] + 1));
        let u = self.tables.len() - 1;
        proof {
            let n = old_self.tables@.len();
            assert((0u64 & 0xFFFu64) as u16 == 0u16) by (bit_vector);
            assert(self.child(t as int, i as int, u as int));
            assert forall|k: int, j: int|
                0 <= k < n && 0 <= j < 512 && #[trigger] is_present(self.tables@[k]@[j])
                    && old_self.levels@[k] < 3 && !(k == t && j == i) implies self.tables@[k]@[j]
                == old_self.tables@[k]@[j] && entry_address(self.tables@[k]@[j].raw) != a
                && exists|w: int| 0 <= w < n && old_self.child(k, j, w) && self.child(k, j, w) by {
                let w = choose|w: int| old_self.child(k, j, w);
                assert(self.child(k, j, w));
            }
            assert forall|k: int, j: int|
                0 <= k < self.tables@.len() && self.levels@[k] < 3 && 0 <= j < 512 && is_present(
                    #[trigger] self.tables@[k]@[j],
                ) implies exists|w: int| self.child(k, j, w) by {
                if k == n {
                    assert(self.tables@[k]@[j].raw == 0);
                } else if k == t && j == i {
                    assert(self.child(k, j, u as int));
                } else {
                }
            }
            assert forall|k: int, j: int, w: int|
                0 <= k < self.tables@.len() && self.levels@[k] < 3 && 0 <= j < 512
                    && #[trigger] self.child(k, j, w) implies self.levels@[w] == self.levels@[k]
                + 1 by {
                if k == n {
                    assert(self.tables@[k]@[j].raw == 0);
                } else if k == t && j == i {
                    assert(w == u);
                } else {
                    let w2 = choose|w2: int| 0 <= w2 < n && old_self.child(k, j, w2);
                    assert(w == w2);
                    assert(old_self.child(k, j, w));
                }
            }
            assert forall|k: int, j: int, k2: int, j2: int|
                0 <= k < self.tables@.len() && 0 <= k2 < self.tables@.len() && self.levels@[k] < 3
                    && self.levels@[k2] < 3 && 0 <= j < 512 && 0 <= j2 < 512 && is_present(
                    #[trigger] self.tables@[k]@[j],
                ) && is_present(#[trigger] self.tables@[k2]@[j2]) && entry_address(
                    self.tables@[k]@[j].raw,
                ) == entry_address(self.tables@[k2]@[j2].raw) implies k == k2 && j == j2 by {
                if k == n {
                    assert(self.tables@[k]@[j].raw == 0);
                }
                if k2 == n {
                    assert(self.tables@[k2]@[j2].raw == 0);
                }
            }
        }
        Ok(u)
    }

    /// The table that entry `i` of table `t` names; where the entry is not
    /// present, a fresh zeroed table is hung below it in a frame from
    /// `fralloc`.
    fn next_table<A: FrameAllocator>(&mut self, fralloc: &mut A, t: usize, i: usize) -> (r: Result<
        usize,
        PagingError,
    >)
        requires
            old(self).wf(),
            t < old(self).tables@.len(),
            old(self).levels@[t as int] < 3,
            i < 512,
        ensures
            final(self).wf(),
            old(self).grows_to(*final(self)),
            final(self).tables@.len() <= old(self).tables@.len() + 1,
            forall|k: int, j: int|
                0 <= k < final(self).tables@.len() && 0 <= j < 512 ==> #[trigger] final(self).table_entry(k, j)
                    == old(self).entry_or_zero(k, j) || (k == t && j == i),
            is_present(old(self).table_entry(t as int, i as int)) ==> *final(self) == *old(self)
                && (r matches Ok(u) && old(self).child(t as int, i as int, u as int)),
            r matches Ok(u) ==> final(self).child(t as int, i as int, u as int)
                && final(self).levels@[u as int] == old(self).levels@[t as int] + 1,
            r matches Err(e) ==> e == PagingError::FrameUnavailable || e == PagingError::FrameInUse,
    {
        let e = self.tables[t].index(i);
        if e.flags() == Flags16::from_u16(PRESENT) {
            match self.find_frame(e.address()) {
                Some(u) => {
                    return Ok(u);
                },
                None => {
                    // a present entry always names a table
                    proof {
                        assert(self.tables@[t as int]@[i as int] == e);
                        let w = choose|w: int| self.child(t as int, i as int, w);
                        assert(self.frames@[w] == entry_address(e.raw));
                        assert(false);
                    }
                    return Err(PagingError::FrameInUse);
                },
            }
        }
        let ghost old_self = *self;
        let n = self.tables.len();
        let frame = fralloc.allocate_frame();
        let r = self.attach_table(t, i, frame);
        proof {
            assert forall|k: int, j: int|
                0 <= k < self.tables@.len() && 0 <= j < 512 implies #[trigger] self.table_entry(k, j)
                == old_self.entry_or_zero(k, j) || (k == t && j == i) by {
                if *self != old_self && k == old_self.tables@.len() {
                    assert(self.table_entry(k, j).raw == 0);
                    assert(self.table_entry(k, j) == PageEntry { raw: 0 });
                }
            }
            if r is Ok {
                assert(frame is Some && !old_self.holds_table_frame(entry_address(frame->Some_0)));
                assert(r->Ok_0 == n);
            }
        }
        r
    }

    /// Splits a virtual address into its four table indices.
    pub fn vaddr_into_indices(virt_address: u64) -> (r: (usize, usize, usize, usize))
        ensures
            r == vaddr_indices(virt_address),
            r.0 < 512 && r.1 < 512 && r.2 < 512 && r.3 < 512,
    {
        proof {
            lemma_indices_bounded(virt_address);
        }
        (
            ((virt_address & (511u64 << 39u64)) >> 39u64) as usize,
            ((virt_address & (511u64 << 30u64)) >> 30u64) as usize,
            ((virt_address & (511u64 << 21u64)) >> 21u64) as usize,
            ((virt_address & (511u64 << 12u64)) >> 12u64) as usize,
        )
    }

    /// The physical address of the last-level table for `virt_address`,
    /// creating zeroed tables in frames from `fralloc` wherever the walk
    /// meets an entry that is not present.
    pub fn get_table_at_vaddr<A: FrameAllocator>(&mut self, fralloc: &mut A, virt_address: u64) -> (r:
        Result<u64, PagingError>)
        requires
            old(self).wf(),
        ensures
            final(self).wf(),
            old(self).grows_to(*final(self)),
            r matches Ok(p) ==> exists|t1: int, t2: int, t3: int|
                #![trigger final(self).walk(virt_address, t1, t2, t3)]
                final(self).walk(virt_address, t1, t2, t3) && final(self).table_frame(t3) == p
                    && final(self).table_level(t3) == 3,
            r matches Err(e) ==> e == PagingError::FrameUnavailable || e == PagingError::FrameInUse,
            forall|t1: int, t2: int, t3: int|
                #![trigger old(self).walk(virt_address, t1, t2, t3)]
                old(self).walk(virt_address, t1, t2, t3) ==> r == Ok::<u64, PagingError>(
                    old(self).table_frame(t3),
                ) && *final(self) == *old(self),
            final(self).table_count() <= old(self).table_count() + 3,
            forall|k: int, j: int|
                0 <= k < final(self).table_count() && 0 <= j < 512 ==> #[trigger] final(
                    self).table_entry(k, j) == old(self).entry_or_zero(k, j) || final(self).on_path(
                    virt_address,
                    k,
                    j,
                ),
    {
        let ghost s0 = *self;
        let indices = PageHierarchy::vaddr_into_indices(virt_address);
        let ghost (i0, i1, i2) = (indices.0 as int, indices.1 as int, indices.2 as int);
        let second = match self.next_table(fralloc, 0, indices.0) {
            Ok(u) => u,
            Err(e) => {
                proof {
                    lemma_three_steps(s0, *self, *self, *self, 0, i0, 0, i0, 0, i0);
                    assert forall|t1: int, t2: int, t3: int|
                        !#[trigger] s0.walk(virt_address, t1, t2, t3) by {
                        if s0.walk(virt_address, t1, t2, t3) {
                            assert(s0.child(0, i0, t1));
                        }
                    }
                }
                return Err(e);
            },
        };
        let ghost s1 = *self;
        let third = match self.next_table(fralloc, second, indices.1) {
            Ok(u) => u,
            Err(e) => {
                proof {
                    lemma_grows_to_trans(s0, s1, *self);
                    lemma_child_kept(s1, *self, 0, i0, second as int);
                    lemma_three_steps(s0, s1, *self, *self, 0, i0, second as int, i1, 0, i0);
                    assert forall|t1: int, t2: int, t3: int|
                        !#[trigger] s0.walk(virt_address, t1, t2, t3) by {
                        if s0.walk(virt_address, t1, t2, t3) {
                            assert(s0.child(0, i0, t1));
                            lemma_child_unique(s0, 0, i0, t1, second as int);
                            assert(s1.child(t1, i1, t2));
                        }
                    }
                }
                return Err(e);
            },
        };
        let ghost s2 = *self;
        proof {
            lemma_grows_to_trans(s0, s1, s2);
            lemma_child_kept(s1, s2, 0, i0, second as int);
        }
        let last = match self.next_table(fralloc, third, indices.2) {
            Ok(u) => u,
            Err(e) => {
                proof {
                    lemma_grows_to_trans(s0, s2, *self);
                    lemma_child_kept(s2, *self, 0, i0, second as int);
                    lemma_child_kept(s2, *self, second as int, i1, third as int);
                    lemma_three_steps(s0, s1, s2, *self, 0, i0, second as int, i1, third as int, i2);
                    assert forall|t1: int, t2: int, t3: int|
                        !#[trigger] s0.walk(virt_address, t1, t2, t3) by {
                        if s0.walk(virt_address, t1, t2, t3) {
                            assert(s0.child(0, i0, t1));
                            lemma_child_unique(s0, 0, i0, t1, second as int);
                            assert(s1.child(t1, i1, t2));
                            lemma_child_unique(s1, t1, i1, t2, third as int);
                            assert(s2.child(t2, i2, t3));
                        }
                    }
                }
                return Err(e);
            },
        };
        proof {
            lemma_grows_to_trans(s0, s2, *self);
            lemma_child_kept(s2, *self, 0, i0, second as int);
            lemma_child_kept(s2, *self, second as int, i1, third as int);
            assert(self.walk(virt_address, second as int, third as int, last as int));
            lemma_three_steps(s0, s1, s2, *self, 0, i0, second as int, i1, third as int, i2);
            assert forall|k: int, j: int|
                0 <= k < self.table_count() && 0 <= j < 512 implies #[trigger] self.table_entry(
                    k,
                    j,
                ) == s0.entry_or_zero(k, j) || self.on_path(virt_address, k, j) by {
                if k == third && j == i2 {
                    assert(self.child(second as int, i1, third as int));
                }
            }
        }
        let p = self.frames[last];
        proof {
            assert forall|t1: int, t2: int, t3: int|
                #[trigger] s0.walk(virt_address, t1, t2, t3) implies Ok::<u64, PagingError>(p)
                == Ok::<u64, PagingError>(s0.table_frame(t3)) && *self == s0 by {
                assert(s0.child(0, i0, t1));
                lemma_child_unique(s0, 0, i0, t1, second as int);
                assert(s1.child(t1, i1, t2));
                lemma_child_unique(s1, t1, i1, t2, third as int);
                assert(s2.child(t2, i2, t3));
                lemma_child_unique(s2, t2, i2, t3, last as int);
            }
        }
        Ok(p)
    }
    /// Points entry `i` of the last-level table `t` at `paddr`, present.
    fn set_leaf(&mut self, t: usize, i: usize, paddr: u64)
        requires
            old(self).wf(),
            t < old(self).tables@.len(),
            old(self).levels@[t as int] == 3,
            i < 512,
        ensures
            final(self).wf(),
            final(self).frames@ == old(self).frames@,
            final(self).levels@ == old(self).levels@,
            final(self).root == old(self).root,
            final(self).active == old(self).active,
            final(self).tables@.len() == old(self).tables@.len(),
            forall|k: int|
                0 <= k < old(self).tables@.len() && k != t ==> #[trigger] final(self).tables@[k]
                    == old(self).tables@[k],
            forall|j: int|
                0 <= j < 512 && j != i ==> #[trigger] final(self).tables@[t as int]@[j] == old(
                    self,
                ).tables@[t as int]@[j],
            final(self).tables@[t as int]@.len() == 512,
            is_present(final(self).tables@[t as int]@[i as int]),
            entry_address(final(self).tables@[t as int]@[i as int].raw) == entry_address(paddr),
    {
        let mut table = self.tables[t];
        let mut entry = table.index(i);
        entry.init_page_with_paddr(paddr);
        table.set_index(i, entry);
        let ghost before = *self;
        self.tables.set(t, table);
        proof {
            assert forall|k: int, j: int|
                0 <= k < self.tables@.len() && self.levels@[k] < 3 && 0 <= j < 512 && is_present(
                    #[trigger] self.tables@[k]@[j],
                ) implies exists|w: int| self.child(k, j, w) by {
                assert(self.tables@[k] == before.tables@[k]);
                let w = choose|w: int| before.child(k, j, w);
                assert(self.child(k, j, w));
            }
            assert forall|k: int, j: int, w: int|
                0 <= k < self.tables@.len() && self.levels@[k] < 3 && 0 <= j < 512
                    && #[trigger] self.child(k, j, w) implies self.levels@[w] == self.levels@[k]
                + 1 by {
                assert(self.tables@[k] == before.tables@[k]);
                assert(before.child(k, j, w));
            }
            assert forall|k: int, j: int, k2: int, j2: int|
                0 <= k < self.tables@.len() && 0 <= k2 < self.tables@.len() && self.levels@[k] < 3
                    && self.levels@[k2] < 3 && 0 <= j < 512 && 0 <= j2 < 512 && is_present(
                    #[trigger] self.tables@[k]@[j],
                ) && is_present(#[trigger] self.tables@[k2]@[j2]) && entry_address(
                    self.tables@[k]@[j].raw,
                ) == entry_address(self.tables@[k2]@[j2].raw) implies k == k2 && j == j2 by {
                assert(self.tables@[k] == before.tables@[k]);
                assert(self.tables@[k2] == before.tables@[k2]);
            }
        }
    }

    /// Maps the page of `vaddr` to the frame of `paddr`, creating the tables
    /// on its walk from `fralloc` where needed.
    pub fn map_page<A: FrameAllocator>(&mut self, fralloc: &mut A, vaddr: u64, paddr: u64) -> (r:
        Result<(), PagingError>)
        requires
            old(self).wf(),
        ensures
            final(self).wf(),
            final(self).root_spec() == old(self).root_spec(),
            final(self).is_active() == old(self).is_active(),
            r is Ok ==> final(self).maps_to(vaddr, entry_address(paddr)),
            old(self).has_walk(vaddr) ==> r is Ok,
            r matches Err(e) ==> e == PagingError::FrameUnavailable || e == PagingError::FrameInUse,
            forall|w: u64, q: u64|
                #![trigger final(self).maps_to(w, q)]
                old(self).maps_to(w, q) && vaddr_indices(w) != vaddr_indices(vaddr)
                    ==> final(self).maps_to(w, q),
            forall|w: u64| #[trigger] old(self).has_walk(w) ==> final(self).has_walk(w),
            forall|w: u64| #[trigger] old(self).is_mapped(w) ==> final(self).is_mapped(w),
    {
        let ghost before = *self;
        let p = match self.get_table_at_vaddr(fralloc, vaddr) {
            Ok(p) => p,
            Err(e) => {
                proof {
                    assert forall|w: u64, q: u64| #[trigger] before.maps_to(w, q) implies self.maps_to(w, q) by {
                        lemma_maps_to_grows(before, *self, w, q);
                    }
                    assert forall|w: u64| #[trigger] before.has_walk(w) implies self.has_walk(w) by {
                        let (t1, t2, t3) = choose|t1: int, t2: int, t3: int| #[trigger] before.walk(w, t1, t2, t3);
                        lemma_walk_grows(before, *self, w, t1, t2, t3);
                    }
                    assert forall|w: u64| #[trigger] before.is_mapped(w) implies self.is_mapped(w) by {
                        let q = choose|q: u64| #[trigger] before.maps_to(w, q);
                        lemma_maps_to_grows(before, *self, w, q);
                    }
                    if before.has_walk(vaddr) {
                        let (t1, t2, t3) = choose|t1: int, t2: int, t3: int| #[trigger] before.walk(vaddr, t1, t2, t3);
                    }
                }
                return Err(e);
            },
        };
        let ghost grown = *self;
        let t = match self.find_frame(p) {
            Some(t) => t,
            None => {
                // the frame returned is that of a table of the hierarchy
                proof {
                    let (t1, t2, t3) = choose|t1: int, t2: int, t3: int|
                        self.walk(vaddr, t1, t2, t3) && self.table_frame(t3) == p
                            && self.table_level(t3) == 3;
                    assert(self.frames@[t3] == p);
                    assert(false);
                }
                return Err(PagingError::FrameInUse);
            },
        };
        let ghost (t1, t2, t3) = choose|t1: int, t2: int, t3: int|
            grown.walk(vaddr, t1, t2, t3) && grown.table_frame(t3) == p && grown.table_level(t3) == 3;
        proof {
            assert(t3 == t);
        }
        let indices = PageHierarchy::vaddr_into_indices(vaddr);
        self.set_leaf(t, indices.3, paddr);
        proof {
            lemma_levels_on_walk(grown, vaddr, t1, t2, t3);
            assert(self.walk(vaddr, t1, t2, t3));
            assert(self.maps_to(vaddr, entry_address(paddr)));
            assert forall|w: u64, s1: int, s2: int, s3: int| #[trigger] grown.walk(w, s1, s2, s3) implies self.walk(
                w,
                s1,
                s2,
                s3,
            ) by {
                lemma_levels_on_walk(grown, w, s1, s2, s3);
            }
            assert forall|w: u64, q: u64|
                #[trigger] grown.maps_to(w, q) && !(vaddr_indices(w) == vaddr_indices(vaddr)) implies self.maps_to(w, q) by {
                let (s1, s2, s3) = choose|s1: int, s2: int, s3: int|
                    #![trigger grown.walk(w, s1, s2, s3)]
                    grown.walk(w, s1, s2, s3) && is_present(grown.tables@[s3]@[vaddr_indices(w).3 as int])
                        && entry_address(grown.tables@[s3]@[vaddr_indices(w).3 as int].raw) == q;
                lemma_levels_on_walk(grown, w, s1, s2, s3);
                lemma_indices_bounded(w);
                if s3 == t3 && vaddr_indices(w).3 == vaddr_indices(vaddr).3 {
                    lemma_walk_injective(grown, w, vaddr, s1, s2, s3, t1, t2, t3);
                    assert(false);
                }
                assert(self.walk(w, s1, s2, s3));
                if s3 != t as int {
                    assert(self.tables@[s3] == grown.tables@[s3]);
                } else {
                    assert(self.tables@[t as int]@[vaddr_indices(w).3 as int]
                        == grown.tables@[t as int]@[vaddr_indices(w).3 as int]);
                }
            }
            assert forall|w: u64, q: u64| #[trigger] before.maps_to(w, q) implies grown.maps_to(w, q) by {
                lemma_maps_to_grows(before, grown, w, q);
            }
            assert forall|w: u64| #[trigger] before.has_walk(w) implies self.has_walk(w) by {
                let (s1, s2, s3) = choose|s1: int, s2: int, s3: int| #[trigger] before.walk(w, s1, s2, s3);
                lemma_walk_grows(before, grown, w, s1, s2, s3);
                assert(self.walk(w, s1, s2, s3));
            }
            assert forall|w: u64| #[trigger] before.is_mapped(w) implies self.is_mapped(w) by {
                let q = choose|q: u64| #[trigger] before.maps_to(w, q);
                assert(grown.maps_to(w, q));
                if vaddr_indices(w) == vaddr_indices(vaddr) {
                    let (s1, s2, s3) = choose|s1: int, s2: int, s3: int|
                        #![trigger grown.walk(w, s1, s2, s3)]
                        grown.walk(w, s1, s2, s3) && is_present(grown.tables@[s3]@[vaddr_indices(w).3 as int])
                            && entry_address(grown.tables@[s3]@[vaddr_indices(w).3 as int].raw) == q;
                    lemma_levels_on_walk(grown, w, s1, s2, s3);
                    lemma_child_unique(grown, 0, vaddr_indices(w).0 as int, s1, t1);
                    lemma_child_unique(grown, s1, vaddr_indices(w).1 as int, s2, t2);
                    lemma_child_unique(grown, s2, vaddr_indices(w).2 as int, s3, t3);
                    assert(self.walk(w, s1, s2, s3));
                    assert(self.maps_to(w, entry_address(paddr)));
                } else {
                    assert(self.maps_to(w, q));
                }
            }
        }
        Ok(())
    }

    /// Maps the first `memory_page_count - 1` physical pages linearly into
    /// the virtual window that starts at `offset`: page `k` at
    /// `offset + 0x1000 * k`.
    pub fn init_direct_mapping<A: FrameAllocator>(
        &mut self,
        fralloc: &mut A,
        memory_page_count: usize,
        offset: u64,
    ) -> (r: Result<(), PagingError>)
        requires
            old(self).wf(),
            offset % 4096 == 0,
            memory_page_count >= 1,
            memory_page_count >= 2 ==> offset + 0x1000 * (memory_page_count - 2) <= u64::MAX,
        ensures
            final(self).wf(),
            final(self).root_spec() == old(self).root_spec(),
            final(self).is_active() == old(self).is_active(),
            r is Ok && memory_page_count - 1 <= PAGES_IN_ADDRESS_SPACE ==> forall|k: int|
                0 <= k < memory_page_count - 1 ==> #[trigger] final(self).maps_to(
                    (offset + 0x1000 * k) as u64,
                    (0x1000 * k) as u64,
                ),
            r matches Err(e) ==> e == PagingError::FrameUnavailable || e == PagingError::FrameInUse,
            memory_page_count == 1 ==> r is Ok && *final(self) == *old(self),
            (forall|k: int|
                0 <= k < memory_page_count - 1 ==> #[trigger] old(self).has_walk(
                    (offset + 0x1000 * k) as u64,
                )) ==> r is Ok,
            forall|w: u64, q: u64|
                #![trigger final(self).maps_to(w, q)]
                old(self).maps_to(w, q) && !in_direct_window(w, offset, memory_page_count - 1)
                    ==> final(self).maps_to(w, q),
            forall|w: u64| #[trigger] old(self).is_mapped(w) ==> final(self).is_mapped(w),
    {
        let ghost small = memory_page_count - 1 <= PAGES_IN_ADDRESS_SPACE;
        let ghost all_walks = forall|k: int|
            0 <= k < memory_page_count - 1 ==> #[trigger] old(self).has_walk(
                (offset + 0x1000 * k) as u64,
            );
        let ghost start = *self;
        let mut i: usize = 0;
        while i < memory_page_count - 1
            invariant
                self.wf(),
                i <= memory_page_count - 1,
                self.root == old(self).root,
                self.active == old(self).active,
                start == *old(self),
                i == 0 ==> *self == *old(self),
                offset % 4096 == 0,
                memory_page_count >= 2 ==> offset + 0x1000 * (memory_page_count - 2) <= u64::MAX,
                small == (memory_page_count - 1 <= PAGES_IN_ADDRESS_SPACE),
                small ==> forall|k: int|
                    0 <= k < i ==> #[trigger] self.maps_to(
                        (offset + 0x1000 * k) as u64,
                        (0x1000 * k) as u64,
                    ),
                all_walks == (forall|k: int|
                    0 <= k < memory_page_count - 1 ==> #[trigger] start.has_walk(
                        (offset + 0x1000 * k) as u64,
                    )),
                all_walks ==> forall|k: int|
                    0 <= k < memory_page_count - 1 ==> #[trigger] self.has_walk(
                        (offset + 0x1000 * k) as u64,
                    ),
                forall|w: u64, q: u64|
                    #![trigger self.maps_to(w, q)]
                    start.maps_to(w, q) && !in_direct_window(w, offset, i as int) ==> self.maps_to(w, q),
                forall|w: u64| #[trigger] start.is_mapped(w) ==> self.is_mapped(w),
            decreases memory_page_count - 1 - i,
        {
            let vaddr = offset + 0x1000u64 * (i as u64);
            let paddr = 0x1000u64 * (i as u64);
            let ghost before = *self;
            proof {
                if all_walks {
                    assert(self.has_walk((offset + 0x1000 * (i as int)) as u64));
                }
            }
            let r = self.map_page(fralloc, vaddr, paddr);
            proof {
                assert forall|w: u64, q: u64|
                    #[trigger] start.maps_to(w, q) && !in_direct_window(w, offset, i + 1) implies self.maps_to(w, q) by {
                    assert(!in_direct_window(w, offset, i as int));
                    assert(before.maps_to(w, q));
                    if vaddr_indices(w) == vaddr_indices(vaddr) {
                        assert(vaddr == (offset + 0x1000 * (i as int)) as u64);
                        assert(false);
                    }
                }
            }
            if r.is_err() {
                return r;
            }
            proof {
                lemma_page_address_aligned(i as u64, paddr);
                if all_walks {
                    assert forall|k: int| 0 <= k < memory_page_count - 1 implies #[trigger] self.has_walk(
                        (offset + 0x1000 * k) as u64,
                    ) by {
                        assert(before.has_walk((offset + 0x1000 * k) as u64));
                    }
                }
                if small {
                    assert forall|k: int| 0 <= k < i + 1 implies #[trigger] self.maps_to(
                        (offset + 0x1000 * k) as u64,
                        (0x1000 * k) as u64,
                    ) by {
                        if k < i {
                            let w = (offset + 0x1000 * k) as u64;
                            assert(before.maps_to(w, (0x1000 * k) as u64));
                            if vaddr_indices(w) == vaddr_indices(vaddr) {
                                lemma_direct_slots_distinct(offset, k as u64, i as u64);
                                assert(vaddr == (offset + 0x1000 * (i as u64)) as u64);
                                assert(w == (offset + 0x1000 * (k as u64)) as u64);
                                assert(false);
                            }
                        } else {
                            assert(vaddr == (offset + 0x1000 * k) as u64);
                            assert(paddr == (0x1000 * k) as u64);
                        }
                    }
                }
            }
            i = i + 1;
        }
        Ok(())
    }

    /// The leaf entry that walking the hierarchy for `virt_address` reaches,
    /// without creating anything; `None` where the walk meets an entry that
    /// is not present.
    pub fn lookup(&self, virt_address: u64) -> (r: Option<PageEntry>)
        requires
            self.wf(),
        ensures
            forall|p: u64| #[trigger]
                self.maps_to(virt_address, p) ==> (r matches Some(e) && is_present(e)
                    && entry_address(e.raw) == p),
            r matches Some(e) ==> exists|t1: int, t2: int, t3: int|
                #![trigger self.walk(virt_address, t1, t2, t3)]
                self.walk(virt_address, t1, t2, t3) && self.leaf_entry(t3, virt_address) == e,
    {
        let indices = PageHierarchy::vaddr_into_indices(virt_address);
        let e0 = self.tables[0].index(indices.0);
        if !(e0.flags() == Flags16::from_u16(PRESENT)) {
            return None;
        }
        let t1 = match self.find_frame(e0.address()) {
            Some(t) => t,
            None => {
                return None;
            },
        };
        proof {
            assert(self.child(0, indices.0 as int, t1 as int));
        }
        let e1 = self.tables[t1].index(indices.1);
        if !(e1.flags() == Flags16::from_u16(PRESENT)) {
            return None;
        }
        let t2 = match self.find_frame(e1.address()) {
            Some(t) => t,
            None => {
                return None;
            },
        };
        proof {
            assert(self.child(t1 as int, indices.1 as int, t2 as int));
        }
        let e2 = self.tables[t2].index(indices.2);
        if !(e2.flags() == Flags16::from_u16(PRESENT)) {
            return None;
        }
        let t3 = match self.find_frame(e2.address()) {
            Some(t) => t,
            None => {
                return None;
            },
        };
        proof {
            assert(self.child(t2 as int, indices.2 as int, t3 as int));
            assert(self.walk(virt_address, t1 as int, t2 as int, t3 as int));
            lemma_levels_on_walk(*self, virt_address, t1 as int, t2 as int, t3 as int);
        }
        Some(self.tables[t3].index(indices.3))
    }
    /// A hierarchy of one empty root table in the frame of `frame`.
    pub fn with_root(frame: u64) -> (r: PageHierarchy)
        ensures
            r.wf(),
            !r.is_active(),
            r.root_spec() == entry_address(frame),
            r.table_count() == 1,
            r.table_frame(0) == entry_address(frame),
            forall|j: int| 0 <= j < 512 ==> (#[trigger] r.table_entry(0, j)).raw == 0,
            forall|v: u64| !#[trigger] r.has_walk(v),
    {
        let root = frame & !FLAG_BITS;
        assert(root & 0xFFFu64 == 0) by (bit_vector)
            requires
                root == frame & !0xFFFu64,
        ;
        let hierarchy = PageHierarchy {
            tables: vec![PageTable::new()],
            frames: vec![root],
            root,
            active: false,
            levels: Ghost(Seq::empty().push(0int)),
        };
        proof {
            assert((0u64 & 0xFFFu64) as u16 == 0u16) by (bit_vector);
            assert(hierarchy.tables@[0]@.len() == 512);
            assert forall|v: u64| !#[trigger] hierarchy.has_walk(v) by {
                if hierarchy.has_walk(v) {
                    let (t1, t2, t3) = choose|t1: int, t2: int, t3: int| #[trigger] hierarchy.walk(v, t1, t2, t3);
                    lemma_indices_bounded(v);
                    assert(hierarchy.child(0, vaddr_indices(v).0 as int, t1));
                }
            }
        }
        hierarchy
    }

    /// Builds the hierarchy: a root table in a frame from `fralloc`, a
    /// fresh page from `fralloc` mapped at virtual address 0, and the direct
    /// window of `physpagecount` pages at `OFFSET`.
    pub fn new<A: FrameAllocator>(fralloc: &mut A, physpagecount: usize) -> (r: Result<
        PageHierarchy,
        PagingError,
    >)
        requires
            physpagecount >= 1,
            physpagecount >= 2 ==> OFFSET + 0x1000 * (physpagecount - 2) <= u64::MAX,
        ensures
            r matches Ok(h) ==> h.wf() && !h.is_active() && h.root_spec() % 4096 == 0
                && h.is_mapped(0) && (physpagecount - 1 <= PAGES_IN_ADDRESS_SPACE ==> forall|k: int|
                0 <= k < physpagecount - 1 ==> #[trigger] h.maps_to(
                    (OFFSET + 0x1000 * k) as u64,
                    (0x1000 * k) as u64,
                )),
            r matches Err(e) ==> e == PagingError::FrameUnavailable || e == PagingError::FrameInUse,
    {
        let frame = match fralloc.allocate_frame() {
            Some(f) => f,
            None => {
                return Err(PagingError::FrameUnavailable);
            },
        };
        let mut hierarchy = PageHierarchy::with_root(frame);
        let page = match fralloc.allocate_frame() {
            Some(f) => f,
            None => {
                return Err(PagingError::FrameUnavailable);
            },
        };
        match hierarchy.map_page(fralloc, 0, page) {
            Ok(()) => {},
            Err(e) => {
                return Err(e);
            },
        }
        proof {
            assert(hierarchy.maps_to(0, entry_address(page)));
            assert(hierarchy.is_mapped(0));
            let root = hierarchy.root;
            assert(root % 4096 == 0) by (bit_vector)
                requires
                    root & 0xFFFu64 == 0,
            ;
        }
        match hierarchy.init_direct_mapping(fralloc, physpagecount, OFFSET) {
            Ok(()) => Ok(hierarchy),
            Err(e) => Err(e),
        }
    }

    /// Moves the kept root address into the direct window and hands back
    /// the start of the frame to install in the translation-control
    /// register. Each hierarchy is enabled once.
    pub fn enable_paging(&mut self) -> (r: Result<u64, PagingError>)
        requires
            old(self).wf(),
        ensures
            final(self).wf(),
            old(self).is_active() ==> r == Err::<u64, PagingError>(
                PagingError::AlreadyActive,
            ) && *final(self) == *old(self),
            !old(self).is_active() && old(self).root_spec() + OFFSET >= PHYS_ADDR_LIMIT ==> r
                == Err::<u64, PagingError>(PagingError::AddressOutOfRange)
                && *final(self) == *old(self),
            !old(self).is_active() && old(self).root_spec() + OFFSET < PHYS_ADDR_LIMIT ==> r
                == Ok::<u64, PagingError>((old(self).root_spec() + OFFSET) as u64) && final(self).is_active() && final(self).root_spec() == old(self).root_spec()
                + OFFSET,
            forall|v: u64, p: u64| #[trigger]
                final(self).maps_to(v, p) == old(self).maps_to(v, p),
    {
        if self.active {
            return Err(PagingError::AlreadyActive);
        }
        if self.root >= PHYS_ADDR_LIMIT - OFFSET {
            return Err(PagingError::AddressOutOfRange);
        }
        let relocated = self.root + OFFSET;
        let root = self.root;
        assert(relocated & 0xFFFu64 == 0 && relocated % 4096 == 0) by (bit_vector)
            requires
                root & 0xFFFu64 == 0,
                relocated == root + 0xB0000000u64,
                root < 0x10_0000_0000_0000u64,
        ;
        if !starts_frame(relocated) {
            // the root frame is aligned, and so is the window
            proof {
                assert(false);
            }
            return Err(PagingError::AddressOutOfRange);
        }
        let ghost before = *self;
        self.root = relocated;
        self.active = true;
        proof {
            lemma_same_tables(before, *self);
        }
        Ok(relocated)
    }

    /// Entry `i` of table `t`.
    pub fn entry(&self, t: usize, i: usize) -> (r: PageEntry)
        requires
            self.wf(),
            t < self.table_count(),
            i < 512,
        ensures
            r == self.table_entry(t as int, i as int),
    {
        self.tables[t].index(i)
    }

    /// The physical address kept for the root table.
    pub fn root_address(&self) -> (r: u64)
        ensures
            r == self.root_spec(),
    {
        self.root
    }

    /// Whether paging has been enabled with this hierarchy.
    pub fn is_paging_enabled(&self) -> (r: bool)
        ensures
            r == self.is_active(),
    {
        self.active
    }
}

/// Two hierarchies with the same tables, frames and levels map alike.
proof fn lemma_same_tables(a: PageHierarchy, b: PageHierarchy)
    requires
        a.wf(),
        a.tables@ == b.tables@,
        a.frames@ == b.frames@,
        a.levels@ == b.levels@,
        b.root & FLAG_BITS == 0,
    ensures
        b.wf(),
        forall|v: u64, p: u64| #[trigger] b.maps_to(v, p) == a.maps_to(v, p),
{
    assert forall|t: int, i: int, u: int| #[trigger] b.child(t, i, u) == a.child(t, i, u) by {}
    assert forall|t: int, i: int|
        0 <= t < b.tables@.len() && b.levels@[t] < 3 && 0 <= i < 512 && is_present(
            #[trigger] b.tables@[t]@[i],
        ) implies exists|u: int| b.child(t, i, u) by {
        let u = choose|u: int| a.child(t, i, u);
        assert(b.child(t, i, u));
    }
    assert forall|v: u64, t1: int, t2: int, t3: int| #[trigger] b.walk(v, t1, t2, t3) == a.walk(
        v,
        t1,
        t2,
        t3,
    ) by {}
    assert forall|v: u64, p: u64| #[trigger] b.maps_to(v, p) == a.maps_to(v, p) by {
        if a.maps_to(v, p) {
            let (t1, t2, t3) = choose|t1: int, t2: int, t3: int|
                #![trigger a.walk(v, t1, t2, t3)]
                a.walk(v, t1, t2, t3) && is_present(a.tables@[t3]@[vaddr_indices(v).3 as int])
                    && entry_address(a.tables@[t3]@[vaddr_indices(v).3 as int].raw) == p;
            assert(b.walk(v, t1, t2, t3));
        }
        if b.maps_to(v, p) {
            let (t1, t2, t3) = choose|t1: int, t2: int, t3: int|
                #![trigger b.walk(v, t1, t2, t3)]
                b.walk(v, t1, t2, t3) && is_present(b.tables@[t3]@[vaddr_indices(v).3 as int])
                    && entry_address(b.tables@[t3]@[vaddr_indices(v).3 as int].raw) == p;
            assert(a.walk(v, t1, t2, t3));
        }
    }
}

/// Composes the changes of up to three steps, each of which may change one
/// entry of the tables it had and add zeroed tables.
proof fn lemma_three_steps(
    s0: PageHierarchy,
    s1: PageHierarchy,
    s2: PageHierarchy,
    s3: PageHierarchy,
    k0: int,
    j0: int,
    k1: int,
    j1: int,
    k2: int,
    j2: int,
)
    requires
        s0.tables@.len() <= s1.tables@.len() <= s2.tables@.len() <= s3.tables@.len(),
        forall|k: int, j: int|
            0 <= k < s1.tables@.len() && 0 <= j < 512 ==> #[trigger] s1.table_entry(k, j)
                == s0.entry_or_zero(k, j) || (k == k0 && j == j0),
        forall|k: int, j: int|
            0 <= k < s2.tables@.len() && 0 <= j < 512 ==> #[trigger] s2.table_entry(k, j)
                == s1.entry_or_zero(k, j) || (k == k1 && j == j1),
        forall|k: int, j: int|
            0 <= k < s3.tables@.len() && 0 <= j < 512 ==> #[trigger] s3.table_entry(k, j)
                == s2.entry_or_zero(k, j) || (k == k2 && j == j2),
    ensures
        forall|k: int, j: int|
            0 <= k < s3.tables@.len() && 0 <= j < 512 ==> #[trigger] s3.table_entry(k, j)
                == s0.entry_or_zero(k, j) || (k == k0 && j == j0) || (k == k1 && j == j1) || (k
                == k2 && j == j2),
{
    assert forall|k: int, j: int| 0 <= k < s3.tables@.len() && 0 <= j < 512 implies #[trigger] s3.table_entry(k, j)
        == s0.entry_or_zero(k, j) || (k == k0 && j == j0) || (k == k1 && j == j1) || (k == k2
        && j == j2) by {
        if k < s2.tables@.len() {
            assert(s2.table_entry(k, j) == s1.entry_or_zero(k, j) || (k == k1 && j == j1));
            if k < s1.tables@.len() {
                assert(s1.table_entry(k, j) == s0.entry_or_zero(k, j) || (k == k0 && j == j0));
            }
        }
    }
}

/// A link that is present stays in place while the hierarchy grows.
proof fn lemma_child_kept(a: PageHierarchy, b: PageHierarchy, t: int, i: int, u: int)
    requires
        a.wf(),
        b.wf(),
        a.grows_to(b),
        0 <= t < a.tables@.len(),
        0 <= i < 512,
        a.child(t, i, u),
    ensures
        b.child(t, i, u),
{
    assert(b.tables@[t]@[i] == a.tables@[t]@[i]);
}

/// An entry names at most one table.
proof fn lemma_child_unique(h: PageHierarchy, t: int, i: int, u: int, w: int)
    requires
        h.wf(),
        h.child(t, i, u),
        h.child(t, i, w),
    ensures
        u == w,
{
    assert(h.frames@[u] == h.frames@[w]);
}

/// `v` shares all four table indices with one of the first `count` pages
/// of the direct window at `offset`.
pub open spec fn in_direct_window(v: u64, offset: u64, count: int) -> bool {
    exists|k: int|
        0 <= k < count && vaddr_indices(v) == #[trigger] vaddr_indices((offset + 0x1000 * k) as u64)
}

/// Two addresses that share their first three table indices share their
/// walks; so once the table for one is found, looking it up for the other
/// finds the same table and changes nothing.
pub proof fn lemma_walk_shared_by_prefix(h: PageHierarchy, v: u64, w: u64, t1: int, t2: int, t3: int)
    requires
        h.walk(v, t1, t2, t3),
        vaddr_indices(v).0 == vaddr_indices(w).0,
        vaddr_indices(v).1 == vaddr_indices(w).1,
        vaddr_indices(v).2 == vaddr_indices(w).2,
    ensures
        h.walk(w, t1, t2, t3),
{
}

/// Growth keeps every walk that was in place.
proof fn lemma_walk_grows(a: PageHierarchy, b: PageHierarchy, v: u64, t1: int, t2: int, t3: int)
    requires
        a.wf(),
        b.wf(),
        a.grows_to(b),
        a.walk(v, t1, t2, t3),
    ensures
        b.walk(v, t1, t2, t3),
{
    lemma_levels_on_walk(a, v, t1, t2, t3);
    lemma_indices_bounded(v);
    let (i0, i1, i2, i3) = vaddr_indices(v);
    lemma_child_kept(a, b, 0, i0 as int, t1);
    lemma_child_kept(a, b, t1, i1 as int, t2);
    lemma_child_kept(a, b, t2, i2 as int, t3);
}

/// Growth keeps every mapping that was in place.
proof fn lemma_maps_to_grows(a: PageHierarchy, b: PageHierarchy, v: u64, p: u64)
    requires
        a.wf(),
        b.wf(),
        a.grows_to(b),
        a.maps_to(v, p),
    ensures
        b.maps_to(v, p),
{
    let (t1, t2, t3) = choose|t1: int, t2: int, t3: int|
        #![trigger a.walk(v, t1, t2, t3)]
        a.walk(v, t1, t2, t3) && is_present(a.tables@[t3]@[vaddr_indices(v).3 as int])
            && entry_address(a.tables@[t3]@[vaddr_indices(v).3 as int].raw) == p;
    lemma_levels_on_walk(a, v, t1, t2, t3);
    lemma_indices_bounded(v);
    let (i0, i1, i2, i3) = vaddr_indices(v);
    assert(b.tables@[0]@[i0 as int] == a.tables@[0]@[i0 as int]);
    assert(b.tables@[t1]@[i1 as int] == a.tables@[t1]@[i1 as int]);
    assert(b.tables@[t2]@[i2 as int] == a.tables@[t2]@[i2 as int]);
    assert(b.tables@[t3]@[i3 as int] == a.tables@[t3]@[i3 as int]);
    assert(b.walk(v, t1, t2, t3));
}

/// The tables on a walk stand at levels 1, 2 and 3.
proof fn lemma_levels_on_walk(h: PageHierarchy, v: u64, t1: int, t2: int, t3: int)
    requires
        h.wf(),
        h.walk(v, t1, t2, t3),
    ensures
        0 <= t1 < h.tables@.len() && h.levels@[t1] == 1,
        0 <= t2 < h.tables@.len() && h.levels@[t2] == 2,
        0 <= t3 < h.tables@.len() && h.levels@[t3] == 3,
{
    lemma_indices_bounded(v);
    let (i0, i1, i2, i3) = vaddr_indices(v);
    assert(h.child(0, i0 as int, t1));
    assert(h.child(t1, i1 as int, t2));
    assert(h.child(t2, i2 as int, t3));
}

/// Two walks that end in the same table went through the same entries.
proof fn lemma_walk_injective(
    h: PageHierarchy,
    v: u64,
    w: u64,
    t1: int,
    t2: int,
    t3: int,
    s1: int,
    s2: int,
    s3: int,
)
    requires
        h.wf(),
        h.walk(v, t1, t2, t3),
        h.walk(w, s1, s2, s3),
        t3 == s3,
    ensures
        vaddr_indices(v).0 == vaddr_indices(w).0,
        vaddr_indices(v).1 == vaddr_indices(w).1,
        vaddr_indices(v).2 == vaddr_indices(w).2,
{
    lemma_levels_on_walk(h, v, t1, t2, t3);
    lemma_levels_on_walk(h, w, s1, s2, s3);
    lemma_indices_bounded(v);
    lemma_indices_bounded(w);
    let (a0, a1, a2, a3) = vaddr_indices(v);
    let (b0, b1, b2, b3) = vaddr_indices(w);
    assert(is_present(h.tables@[t2]@[a2 as int]) && is_present(h.tables@[s2]@[b2 as int]));
    assert(t2 == s2 && a2 == b2);
    assert(is_present(h.tables@[t1]@[a1 as int]) && is_present(h.tables@[s1]@[b1 as int]));
    assert(t1 == s1 && a1 == b1);
    assert(is_present(h.tables@[0]@[a0 as int]) && is_present(h.tables@[0]@[b0 as int]));
}

proof fn lemma_page_address_aligned(i: u64, a: u64)
    requires
        a == 0x1000 * i,
    ensures
        entry_address(a) == a,
{
    assert(a & !0xFFFu64 == a) by (bit_vector)
        requires
            a == 0x1000 * i,
    ;
}

/// Distinct pages of one direct window, fewer than 2^36 apart, differ in at
/// least one table index.
proof fn lemma_direct_slots_distinct(offset: u64, k: u64, j: u64)
    requires
        k < j,
        j < PAGES_IN_ADDRESS_SPACE,
        offset + 0x1000 * j <= u64::MAX,
    ensures
        vaddr_indices((offset + 0x1000 * k) as u64) != vaddr_indices((offset + 0x1000 * j) as u64),
{
    let x = (offset + 0x1000 * k) as u64;
    let y = (offset + 0x1000 * j) as u64;
    let d = (j - k) as u64;
    assert(y == x + d * 4096);
    lemma_indices_bounded(x);
    lemma_indices_bounded(y);
    assert(!(((x & (511u64 << 39u64)) >> 39u64) == ((y & (511u64 << 39u64)) >> 39u64)
        && ((x & (511u64 << 30u64)) >> 30u64) == ((y & (511u64 << 30u64)) >> 30u64)
        && ((x & (511u64 << 21u64)) >> 21u64) == ((y & (511u64 << 21u64)) >> 21u64)
        && ((x & (511u64 << 12u64)) >> 12u64) == ((y & (511u64 << 12u64)) >> 12u64))) by (bit_vector)
        requires
            y == x + d * 4096,
            0 < d,
            d < 0x10_0000_0000u64,
    ;
}


proof fn lemma_grows_to_trans(a: PageHierarchy, b: PageHierarchy, c: PageHierarchy)
    requires
        a.grows_to(b),
        b.grows_to(c),
    ensures
        a.grows_to(c),
{
    assert forall|k: int| 0 <= k < a.tables@.len() implies c.frames@[k] == a.frames@[k]
        && c.levels@[k] == a.levels@[k] by {
        assert(b.frames@[k] == a.frames@[k] && b.levels@[k] == a.levels@[k]);
        assert(c.frames@[k] == b.frames@[k] && c.levels@[k] == b.levels@[k]);
    }
    assert forall|k: int, j: int| 0 <= k < a.tables@.len() && 0 <= j < 512 implies c.tables@[k]@[j]
        == a.tables@[k]@[j] || (a.levels@[k] < 3 && !is_present(a.tables@[k]@[j])) by {
        assert(b.tables@[k]@[j] == a.tables@[k]@[j] || (a.levels@[k] < 3 && !is_present(
            a.tables@[k]@[j],
        )));
        assert(c.tables@[k]@[j] == b.tables@[k]@[j] || (b.levels@[k] < 3 && !is_present(
            b.tables@[k]@[j],
        )));
    }
}

} // verus!
