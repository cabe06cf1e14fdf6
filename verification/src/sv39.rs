//! An SV39 three-level page table, with page-table pages kept in a map from
//! physical page number to node, and a page-table walk that translates
//! virtual addresses.
//!
//! Virtual address layout: VPN[2] bits [38:30], VPN[1] bits [29:21],
//! VPN[0] bits [20:12], page offset bits [11:0].
use std::collections::HashMap;
use vstd::arithmetic::power2::pow2;
use vstd::bits::lemma_u64_shr_is_div;
use vstd::prelude::*;

pub use crate::pte::{PTE_R, PTE_V, PTE_W, PTE_X};
use crate::pte::{has_flag, leaf_spec, PPN_SHIFT};

verus! {

broadcast use vstd::std_specs::hash::group_hash_axioms;

/// Size of a base page in bytes.
pub const PAGE_SIZE: usize = 4096;
/// Entries in one page-table page.
pub const PT_ENTRIES: usize = 512;
/// Physical page number of the root table of a fresh page table.
pub const ROOT_PPN: u64 = 0x80000;
/// Page-table pages get physical page numbers below this bound, so that a
/// pointer entry can hold them in its 27-bit next-level field.
pub const NODE_PPN_LIMIT: u64 = 0x800_0000;
/// Mask of the next-level page number once the entry is shifted down.
const NEXT_PPN_MASK: u64 = 0x7ff_ffff;
/// Size of a superpage mapped at level 1 (2 MiB).
const MEGA_SIZE: u64 = 0x20_0000;

/// One page-table page: 512 entries.
#[derive(Clone)]
pub struct PageTableNode {
    pub entries: [u64; 512],
}

impl PageTableNode {
    /// Every entry is zero, hence invalid.
    pub open spec fn is_zeroed(self) -> bool {
        forall|i: int| 0 <= i < 512 ==> #[trigger] self.entries@[i] == 0
    }

    /// A page-table page whose entries are all zero.
    pub fn new() -> (node: Self)
        ensures
            node.is_zeroed(),
    {
        Self { entries: [0u64; 512] }
    }
}

impl Default for PageTableNode {
    fn default() -> (node: Self)
        ensures
            node.is_zeroed(),
    {
        Self::new()
    }
}

/// Outcome of a translation.
#[derive(Debug, PartialEq, Eq, Structural)]
pub enum TranslateResult {
    Mapped(u64),
    PageFault,
}

/// The 9-bit index that a virtual address selects at `level`.
pub open spec fn vpn(va: u64, level: nat) -> nat {
    ((va as nat) / pow2(12 + 9 * level)) % 512
}

/// The page number that an entry holds, as the walk reads it (27 bits).
pub open spec fn next_level_ppn(pte: u64) -> u64 {
    (pte >> 10u64) & 0x7ff_ffff
}

/// The entry that points to the page-table page `ppn`.
pub open spec fn table_pte(ppn: u64) -> u64 {
    (ppn << 10u64) | 1
}

/// The entry that maps the page holding physical address `pa`.
pub open spec fn leaf_pte(pa: u64, flags: u64) -> u64 {
    ((pa >> 12u64) << 10u64) | flags | 1
}

/// The page-offset bits that a leaf at `level` keeps from the virtual
/// address: 21 bits at level 1, 12 bits otherwise.
pub open spec fn offset_mask(level: nat) -> u64 {
    if level == 1 {
        0x1f_ffff
    } else {
        0xfff
    }
}

/// What a leaf entry at `level` gives for `va`.
pub open spec fn leaf_address(pte: u64, va: u64, level: nat) -> u64 {
    (next_level_ppn(pte) << 12u64) | (va & offset_mask(level))
}

/// What the walk gives when it reads `pte` at level 0.
pub open spec fn last_level_result(pte: u64, va: u64) -> TranslateResult {
    if has_flag(pte, PTE_V) && leaf_spec(pte) {
        TranslateResult::Mapped(leaf_address(pte, va, 0))
    } else {
        TranslateResult::PageFault
    }
}

/// Two addresses lie in the same 4 KiB virtual page.
pub open spec fn same_page(va1: u64, va2: u64) -> bool {
    &&& vpn(va1, 2) == vpn(va2, 2)
    &&& vpn(va1, 1) == vpn(va2, 1)
    &&& vpn(va1, 0) == vpn(va2, 0)
}

/// Two addresses lie in the same 2 MiB virtual superpage.
pub open spec fn same_superpage(va1: u64, va2: u64) -> bool {
    &&& vpn(va1, 2) == vpn(va2, 2)
    &&& vpn(va1, 1) == vpn(va2, 1)
}

/// The effect of mapping the page of `va` to the frame of `pa`: the
/// addresses of that page translate through the new leaf, all others as
/// before.
pub open spec fn maps_page(
    before: Sv39PageTable,
    after: Sv39PageTable,
    va: u64,
    pa: u64,
    flags: u64,
) -> bool {
    forall|va2: u64|
        #[trigger] after.walk(va2) == if same_page(va, va2) {
            last_level_result(leaf_pte(pa, flags), va2)
        } else {
            before.walk(va2)
        }
}

/// The effect of mapping the superpage of `va` to the frame of `pa`.
pub open spec fn maps_superpage(
    before: Sv39PageTable,
    after: Sv39PageTable,
    va: u64,
    pa: u64,
    flags: u64,
) -> bool {
    forall|va2: u64|
        #[trigger] after.walk(va2) == if same_superpage(va, va2) {
            TranslateResult::Mapped(leaf_address(leaf_pte(pa, flags), va2, 1))
        } else {
            before.walk(va2)
        }
}

/// A simulated SV39 page table: page-table pages are kept in a map from
/// physical page number to node; `root_ppn` names the root table.
///
/// The fields are public so that contracts can speak of `root_ppn`; every
/// operation asks for `wf()`, which ties them together.
pub struct Sv39PageTable {
    /// Page-table pages by physical page number.
    pub nodes: HashMap<u64, PageTableNode>,
    pub root_ppn: u64,
    /// The page number that the next new page-table page takes.
    pub next_ppn: u64,
    /// The level (2 for the root, then 1 and 0) of each page-table page.
    pub levels: Ghost<Map<u64, nat>>,
}

impl Sv39PageTable {
    /// Entry `idx` of the page-table page `ppn`.
    pub closed spec fn entry(self, ppn: u64, idx: nat) -> u64 {
        self.nodes@[ppn].entries@[idx as int]
    }

    /// How many more page-table pages can be allocated.
    pub closed spec fn spare_nodes(self) -> nat {
        (NODE_PPN_LIMIT - self.next_ppn) as nat
    }

    /// How many page-table pages `map_page` creates for `va`: both lower
    /// levels when the root entry is invalid, the last level when only the
    /// level-1 entry is invalid, none otherwise.
    pub open spec fn pages_needed(self, va: u64) -> nat {
        let e2 = self.entry(self.root(), vpn(va, 2));
        if !has_flag(e2, PTE_V) {
            2
        } else if !has_flag(self.entry(next_level_ppn(e2), vpn(va, 1)), PTE_V) {
            1
        } else {
            0
        }
    }

    /// How many page-table pages `map_superpage` creates for `va`: one when
    /// the root entry is invalid, none otherwise.
    pub open spec fn superpage_pages_needed(self, va: u64) -> nat {
        if !has_flag(self.entry(self.root(), vpn(va, 2)), PTE_V) {
            1
        } else {
            0
        }
    }

    /// The page-table walk from page `ppn` at `level` down to a leaf.
    pub open spec fn walk_from(self, ppn: u64, level: nat, va: u64) -> TranslateResult
        decreases level,
    {
        let pte = self.entry(ppn, vpn(va, level));
        if !has_flag(pte, PTE_V) {
            TranslateResult::PageFault
        } else if leaf_spec(pte) {
            TranslateResult::Mapped(leaf_address(pte, va, level))
        } else if level == 0 {
            TranslateResult::PageFault
        } else {
            self.walk_from(next_level_ppn(pte), (level - 1) as nat, va)
        }
    }

    /// The page number of the root table.
    pub open spec fn root(self) -> u64 {
        self.root_ppn
    }

    /// The SV39 walk of `va` from the root table.
    pub open spec fn walk(self, va: u64) -> TranslateResult {
        self.walk_from(self.root(), 2, va)
    }

    /// The walk of `va` meets a valid leaf at level 1: a superpage covers it.
    pub closed spec fn superpage_covers(self, va: u64) -> bool {
        let e2 = self.entry(self.root_ppn, vpn(va, 2));
        let e1 = self.entry(next_level_ppn(e2), vpn(va, 1));
        has_flag(e2, PTE_V) && !leaf_spec(e2) && has_flag(e1, PTE_V) && leaf_spec(e1)
    }

    /// Entry `idx` of page `ppn` points to a lower-level page-table page.
    spec fn links(self, ppn: u64, idx: nat) -> bool {
        &&& self.nodes@.contains_key(ppn)
        &&& idx < 512
        &&& self.levels@[ppn] >= 1
        &&& has_flag(self.entry(ppn, idx), PTE_V)
        &&& !leaf_spec(self.entry(ppn, idx))
    }

    /// The child of a pointer entry is a page one level down, and the root
    /// holds no leaves.
    spec fn entry_ok(self, ppn: u64, idx: nat) -> bool {
        &&& self.links(ppn, idx) ==> {
            &&& self.nodes@.contains_key(next_level_ppn(self.entry(ppn, idx)))
            &&& self.levels@[next_level_ppn(self.entry(ppn, idx))] + 1 == self.levels@[ppn]
        }
        &&& self.levels@[ppn] == 2 && has_flag(self.entry(ppn, idx), PTE_V) ==> !leaf_spec(
            self.entry(ppn, idx),
        )
    }

    /// Well-formedness: the pages are numbered `root_ppn..next_ppn`, the
    /// root is at level 2, pointer entries go one level down, and no page is
    /// pointed to twice (the pages form a tree).
    pub closed spec fn wf(self) -> bool {
        &&& self.root_ppn < self.next_ppn <= NODE_PPN_LIMIT
        &&& forall|p: u64| #[trigger]
            self.nodes@.contains_key(p) <==> self.root_ppn <= p < self.next_ppn
        &&& forall|p: u64| #[trigger] self.nodes@.contains_key(p) ==> self.levels@[p] <= 2
        &&& self.levels@[self.root_ppn] == 2
        &&& forall|p: u64, i: nat|
            self.nodes@.contains_key(p) && i < 512 ==> #[trigger] self.entry_ok(p, i)
        &&& forall|p: u64, i: nat, q: u64, j: nat|
            #[trigger] self.links(p, i) && #[trigger] self.links(q, j) && next_level_ppn(
                self.entry(p, i),
            ) == next_level_ppn(self.entry(q, j)) ==> p == q && i == j
    }
}

/// A pointer entry is valid, not a leaf, and gives back the page it points to.
proof fn lemma_table_pte(ppn: u64)
    requires
        ppn < NODE_PPN_LIMIT,
    ensures
        has_flag(table_pte(ppn), PTE_V),
        !leaf_spec(table_pte(ppn)),
        next_level_ppn(table_pte(ppn)) == ppn,
{
    let e = table_pte(ppn);
    assert(e & 1 != 0 && e & 2 == 0 && e & 4 == 0 && e & 8 == 0 && (e >> 10u64) & 0x7ff_ffff == ppn)
        by (bit_vector)
        requires
            ppn < 0x800_0000u64,
            e == (ppn << 10u64) | 1,
    ;
}

/// A leaf entry is valid, and is a leaf exactly when its flags ask for one.
proof fn lemma_leaf_pte(pa: u64, flags: u64)
    ensures
        has_flag(leaf_pte(pa, flags), PTE_V),
        leaf_spec(leaf_pte(pa, flags)) == leaf_spec(flags),
{
    let e = leaf_pte(pa, flags);
    assert(e & 1 != 0 && (e & 2 != 0) == (flags & 2 != 0) && (e & 4 != 0) == (flags & 4 != 0) && (
    e & 8 != 0) == (flags & 8 != 0)) by (bit_vector)
        requires
            e == ((pa >> 12u64) << 10u64) | flags | 1,
    ;
}

/// A zero entry is invalid.
proof fn lemma_zero_entry()
    ensures
        !has_flag(0, PTE_V),
{
    assert(0u64 & 1 == 0) by (bit_vector);
}

impl Sv39PageTable {
    /// The index that `va` selects at `level`: bits [12 + 9 * level + 8 :
    /// 12 + 9 * level] of the address.
    pub fn extract_vpn(va: u64, level: usize) -> (idx: usize)
        requires
            level <= 5,
        ensures
            idx == vpn(va, level as nat),
            idx < 512,
    {
        let shift: u64 = 12 + (level as u64) * 9;
        proof {
            lemma_u64_shr_is_div(va, shift);
        }
        let v: u64 = (va >> shift) & 0x1ff;
        assert(v == (va >> shift) % 512) by (bit_vector)
            requires
                v == (va >> shift) & 0x1ffu64,
        ;
        v as usize
    }

    /// A page table with an empty root at `ROOT_PPN`: every address faults.
    pub fn new() -> (pt: Self)
        ensures
            pt.wf(),
            pt.root() == ROOT_PPN,
            pt.spare_nodes() == NODE_PPN_LIMIT - ROOT_PPN - 1,
            forall|va: u64| #[trigger] pt.walk(va) == TranslateResult::PageFault,
            forall|va: u64| !(#[trigger] pt.superpage_covers(va)),
    {
        let mut nodes: HashMap<u64, PageTableNode> = HashMap::new();
        nodes.insert(ROOT_PPN, PageTableNode::new());
        let pt = Self {
            nodes,
            root_ppn: ROOT_PPN,
            next_ppn: ROOT_PPN + 1,
            levels: Ghost(Map::empty().insert(ROOT_PPN, 2nat)),
        };
        proof {
            lemma_zero_entry();
            assert forall|va: u64| #[trigger] pt.walk(va) == TranslateResult::PageFault by {
                assert(pt.entry(ROOT_PPN, vpn(va, 2)) == 0);
            }
            assert forall|va: u64| !(#[trigger] pt.superpage_covers(va)) by {
                assert(pt.entry(ROOT_PPN, vpn(va, 2)) == 0);
            }
        }
        pt
    }
}

impl Sv39PageTable {
    /// Reads entry `idx` of page `ppn`.
    fn node_entry(&self, ppn: u64, idx: usize) -> (pte: u64)
        requires
            self.nodes@.contains_key(ppn),
            idx < 512,
        ensures
            pte == self.entry(ppn, idx as nat),
    {
        self.nodes.get(&ppn).unwrap().entries[idx]
    }

    /// Writes entry `idx` of page `ppn`; nothing else changes.
    fn set_entry(&mut self, ppn: u64, idx: usize, pte: u64)
        requires
            old(self).nodes@.contains_key(ppn),
            idx < 512,
        ensures
            final(self).root_ppn == old(self).root_ppn,
            final(self).next_ppn == old(self).next_ppn,
            final(self).levels == old(self).levels,
            final(self).nodes@.dom() == old(self).nodes@.dom(),
            final(self).entry(ppn, idx as nat) == pte,
            forall|q: u64, j: nat|
                !(q == ppn && j == idx) && j < 512 ==> #[trigger] final(self).entry(q, j)
                    == old(self).entry(q, j),
    {
        let mut node = self.nodes.remove(&ppn).unwrap();
        node.entries[idx] = pte;
        self.nodes.insert(ppn, node);
    }

    /// Takes the next free page number for a zeroed page-table page at
    /// `level`.
    fn alloc_node(&mut self, Ghost(level): Ghost<nat>) -> (ppn: u64)
        requires
            old(self).wf(),
            old(self).spare_nodes() >= 1,
            level <= 1,
        ensures
            final(self).wf(),
            ppn == old(self).next_ppn,
            !old(self).nodes@.contains_key(ppn),
            final(self).next_ppn == old(self).next_ppn + 1,
            final(self).root_ppn == old(self).root_ppn,
            final(self).nodes@.dom() == old(self).nodes@.dom().insert(ppn),
            final(self).levels@ == old(self).levels@.insert(ppn, level),
            forall|j: nat| j < 512 ==> #[trigger] final(self).entry(ppn, j) == 0,
            forall|q: u64, j: nat|
                old(self).nodes@.contains_key(q) ==> #[trigger] final(self).entry(q, j) == old(self).entry(q, j),
    {
        let ppn = self.next_ppn;
        self.next_ppn = self.next_ppn + 1;
        self.nodes.insert(ppn, PageTableNode::new());
        proof {
            self.levels@ = self.levels@.insert(ppn, level);
            lemma_zero_entry();
            let s = *self;
            let o = *old(self);
            assert forall|p: u64, i: nat| s.nodes@.contains_key(p) && i < 512 implies #[trigger] s.entry_ok(p, i) by {
                if p != ppn {
                    assert(o.entry_ok(p, i));
                    assert(s.entry(p, i) == o.entry(p, i));
                    if s.links(p, i) {
                        assert(o.links(p, i));
                    }
                } else {
                    assert(s.entry(p, i) == 0);
                }
            }
            assert forall|p: u64, i: nat, q: u64, j: nat|
                #[trigger] s.links(p, i) && #[trigger] s.links(q, j) && next_level_ppn(s.entry(p, i))
                    == next_level_ppn(s.entry(q, j)) implies p == q && i == j by {
                if p == ppn {
                    assert(s.entry(p, i) == 0);
                }
                if q == ppn {
                    assert(s.entry(q, j) == 0);
                }
                assert(o.links(p, i) && o.links(q, j));
            }
        }
        ppn
    }

    /// Translates a virtual address by walking the three levels from the
    /// root: an invalid entry faults, a leaf gives the physical address (a
    /// level-1 leaf keeps 21 offset bits, others 12), a pointer entry leads
    /// one level down, and a pointer at level 0 faults.
    pub fn translate(&self, va: u64) -> (r: TranslateResult)
        requires
            self.wf(),
        ensures
            r == self.walk(va),
    {
        let mut ppn = self.root_ppn;
        let mut level: usize = 2;
        loop
            invariant
                self.wf(),
                level <= 2,
                self.nodes@.contains_key(ppn),
                self.levels@[ppn] == level,
                self.walk(va) == self.walk_from(ppn, level as nat, va),
            decreases level,
        {
            let vpn = Self::extract_vpn(va, level);
            let pte = self.node_entry(ppn, vpn);
            if pte & PTE_V == 0 {
                return TranslateResult::PageFault;
            }
            if pte & PTE_R != 0 || pte & PTE_W != 0 || pte & PTE_X != 0 {
                let leaf_ppn = (pte >> 10) & NEXT_PPN_MASK;
                let offset = if level == 1 {
                    va & 0x1f_ffff
                } else {
                    va & 0xfff
                };
                return TranslateResult::Mapped((leaf_ppn << 12) | offset);
            }
            if level == 0 {
                return TranslateResult::PageFault;
            }
            proof {
                assert(self.entry_ok(ppn, vpn as nat));
                assert(self.links(ppn, vpn as nat));
            }
            ppn = (pte >> 10) & NEXT_PPN_MASK;
            level = level - 1;
        }
    }
}

/// Linking an invalid entry to a fresh zeroed page changes no translation and
/// no superpage coverage.
proof fn lemma_link_fresh_page(o: Sv39PageTable, s: Sv39PageTable, ppn: u64, idx: nat, n: u64)
    requires
        o.wf(),
        o.nodes@.contains_key(ppn),
        idx < 512,
        o.levels@[ppn] >= 1,
        !has_flag(o.entry(ppn, idx), PTE_V),
        !o.nodes@.contains_key(n),
        n < NODE_PPN_LIMIT,
        s.root_ppn == o.root_ppn,
        s.entry(ppn, idx) == table_pte(n),
        forall|j: nat| j < 512 ==> #[trigger] s.entry(n, j) == 0,
        forall|q: u64, j: nat|
            o.nodes@.contains_key(q) && j < 512 && !(q == ppn && j == idx) ==> #[trigger] s.entry(
                q,
                j,
            ) == o.entry(q, j),
    ensures
        forall|va: u64| #[trigger] s.walk(va) == o.walk(va),
        forall|va: u64| #[trigger] s.superpage_covers(va) == o.superpage_covers(va),
{
    lemma_table_pte(n);
    lemma_zero_entry();
    let r = o.root_ppn;
    assert forall|va: u64| #[trigger] s.walk(va) == o.walk(va) by {
        reveal_with_fuel(Sv39PageTable::walk_from, 3);
        let i2 = vpn(va, 2);
        let i1 = vpn(va, 1);
        let i0 = vpn(va, 0);
        assert(i2 < 512 && i1 < 512 && i0 < 512);
        assert(o.entry_ok(r, i2));
        if r == ppn && i2 == idx {
            assert(s.entry(n, i1) == 0);
        } else {
            let e2 = o.entry(r, i2);
            assert(s.entry(r, i2) == e2);
            if has_flag(e2, PTE_V) && !leaf_spec(e2) {
                assert(o.links(r, i2));
                let c1 = next_level_ppn(e2);
                assert(o.entry_ok(c1, i1));
                if c1 == ppn && i1 == idx {
                    assert(s.entry(n, i0) == 0);
                } else {
                    let e1 = o.entry(c1, i1);
                    assert(s.entry(c1, i1) == e1);
                    if has_flag(e1, PTE_V) && !leaf_spec(e1) {
                        assert(o.links(c1, i1));
                        let c0 = next_level_ppn(e1);
                        assert(s.entry(c0, i0) == o.entry(c0, i0));
                    }
                }
            }
        }
    }
    assert forall|va: u64| #[trigger] s.superpage_covers(va) == o.superpage_covers(va) by {
        let i2 = vpn(va, 2);
        let i1 = vpn(va, 1);
        assert(i2 < 512 && i1 < 512);
        assert(o.entry_ok(r, i2));
        if r == ppn && i2 == idx {
            assert(s.entry(n, i1) == 0);
        } else {
            let e2 = o.entry(r, i2);
            assert(s.entry(r, i2) == e2);
            if has_flag(e2, PTE_V) && !leaf_spec(e2) {
                assert(o.links(r, i2));
                let c1 = next_level_ppn(e2);
                if !(c1 == ppn && i1 == idx) {
                    assert(s.entry(c1, i1) == o.entry(c1, i1));
                }
            }
        }
    }
}

impl Sv39PageTable {
    /// One step of the walk that `map_page` makes: follows entry `idx` of
    /// page `ppn` down one level, first pointing it to a fresh zeroed page if
    /// it is invalid. Returns the page one level down.
    fn descend(&mut self, ppn: u64, idx: usize, Ghost(level): Ghost<nat>) -> (child: u64)
        requires
            old(self).wf(),
            old(self).nodes@.contains_key(ppn),
            idx < 512,
            old(self).levels@[ppn] == level,
            1 <= level <= 2,
            !(has_flag(old(self).entry(ppn, idx as nat), PTE_V) && leaf_spec(
                old(self).entry(ppn, idx as nat),
            )),
            !has_flag(old(self).entry(ppn, idx as nat), PTE_V) ==> old(self).spare_nodes() >= 1,
        ensures
            final(self).wf(),
            final(self).root_ppn == old(self).root_ppn,
            final(self).spare_nodes() + (if has_flag(old(self).entry(ppn, idx as nat), PTE_V) {
                0nat
            } else {
                1nat
            }) == old(self).spare_nodes(),
            has_flag(old(self).entry(ppn, idx as nat), PTE_V) ==> final(self).entry(ppn, idx as nat)
                == old(self).entry(ppn, idx as nat),
            !has_flag(old(self).entry(ppn, idx as nat), PTE_V) ==> forall|j: nat|
                j < 512 ==> #[trigger] final(self).entry(child, j) == 0,
            final(self).links(ppn, idx as nat),
            next_level_ppn(final(self).entry(ppn, idx as nat)) == child,
            final(self).nodes@.contains_key(child),
            final(self).levels@[child] + 1 == level,
            forall|q: u64|
                old(self).nodes@.contains_key(q) ==> #[trigger] final(self).nodes@.contains_key(q)
                    && final(self).levels@[q] == old(self).levels@[q],
            forall|q: u64, j: nat|
                old(self).nodes@.contains_key(q) && j < 512 && !(q == ppn && j == idx) ==> #[trigger] final(self).entry(q, j) == old(self).entry(q, j),
            forall|va: u64| #[trigger] final(self).walk(va) == old(self).walk(va),
            forall|va: u64| #[trigger]
                final(self).superpage_covers(va) == old(self).superpage_covers(va),
    {
        let pte = self.node_entry(ppn, idx);
        if pte & PTE_V == 0 {
            let ghost o = *old(self);
            let new_ppn = self.alloc_node(Ghost((level - 1) as nat));
            let ghost m = *self;
            self.set_entry(ppn, idx, (new_ppn << 10) | PTE_V);
            proof {
                let s = *self;
                lemma_table_pte(new_ppn);
                lemma_zero_entry();
                assert(s.entry(ppn, idx as nat) == table_pte(new_ppn));
                assert forall|q: u64, j: nat|
                    o.nodes@.contains_key(q) && j < 512 && !(q == ppn && j == idx) implies #[trigger] s.entry(
                        q,
                        j,
                    ) == o.entry(q, j) by {
                    assert(m.entry(q, j) == o.entry(q, j));
                }
                assert forall|j: nat| j < 512 implies #[trigger] s.entry(new_ppn, j) == 0 by {
                    assert(m.entry(new_ppn, j) == 0);
                }
                lemma_link_fresh_page(o, s, ppn, idx as nat, new_ppn);
                assert forall|p: u64, i: nat| s.nodes@.contains_key(p) && i < 512 implies #[trigger] s.entry_ok(p, i) by {
                    if p == new_ppn {
                        assert(s.entry(p, i) == 0);
                    } else if p == ppn && i == idx {
                        assert(s.links(p, i));
                    } else {
                        assert(o.entry_ok(p, i));
                        if s.links(p, i) {
                            assert(o.links(p, i));
                        }
                    }
                }
                assert forall|p: u64, i: nat, q: u64, j: nat|
                    #[trigger] s.links(p, i) && #[trigger] s.links(q, j) && next_level_ppn(
                        s.entry(p, i),
                    ) == next_level_ppn(s.entry(q, j)) implies p == q && i == j by {
                    if p == new_ppn {
                        assert(s.entry(p, i) == 0);
                    }
                    if q == new_ppn {
                        assert(s.entry(q, j) == 0);
                    }
                    if !(p == ppn && i == idx) {
                        assert(o.links(p, i));
                        assert(o.entry_ok(p, i));
                    }
                    if !(q == ppn && j == idx) {
                        assert(o.links(q, j));
                        assert(o.entry_ok(q, j));
                    }
                    if !(p == ppn && i == idx) && !(q == ppn && j == idx) {
                        assert(o.links(p, i) && o.links(q, j));
                    }
                }
            }
            new_ppn
        } else {
            proof {
                assert(self.entry_ok(ppn, idx as nat));
            }
            (pte >> 10) & NEXT_PPN_MASK
        }
    }
}

impl Sv39PageTable {
    /// Maps the 4 KiB page of `va` to the frame of `pa`: walks levels 2 and
    /// 1, creating missing page-table pages, and writes the level-0 entry
    /// `(pa >> 12) << 10 | flags | V`.
    ///
    /// The walk must not meet a superpage leaf at level 1: the walk would
    /// take that leaf's frame for a page-table page.
    pub fn map_page(&mut self, va: u64, pa: u64, flags: u64)
        requires
            old(self).wf(),
            old(self).spare_nodes() >= old(self).pages_needed(va),
            !old(self).superpage_covers(va),
        ensures
            final(self).wf(),
            final(self).root() == old(self).root(),
            final(self).spare_nodes() + old(self).pages_needed(va) == old(self).spare_nodes(),
            maps_page(*old(self), *final(self), va, pa, flags),
            forall|va2: u64| #[trigger]
                final(self).superpage_covers(va2) == old(self).superpage_covers(va2),
    {
        let root = self.root_ppn;
        let vpn2 = Self::extract_vpn(va, 2);
        proof {
            assert(self.entry_ok(root, vpn2 as nat));
        }
        let ppn1 = self.descend(root, vpn2, Ghost(2));
        let vpn1 = Self::extract_vpn(va, 1);
        let ghost t1 = *self;
        proof {
            let o = *old(self);
            assert(!t1.superpage_covers(va));
            assert(o.entry_ok(root, vpn2 as nat));
            if has_flag(o.entry(root, vpn2 as nat), PTE_V) {
                assert(o.links(root, vpn2 as nat));
                assert(t1.entry(ppn1, vpn1 as nat) == o.entry(ppn1, vpn1 as nat));
            } else {
                assert(t1.entry(ppn1, vpn1 as nat) == 0);
                lemma_zero_entry();
            }
        }
        let ppn0 = self.descend(ppn1, vpn1, Ghost(1));
        let vpn0 = Self::extract_vpn(va, 0);
        let ghost t = *self;
        let leaf = ((pa >> 12) << PPN_SHIFT) | flags | PTE_V;
        self.set_entry(ppn0, vpn0, leaf);
        proof {
            let s = *self;
            let o = *old(self);
            let r = root;
            assert(t.entry(r, vpn2 as nat) == t1.entry(r, vpn2 as nat));
            assert(t.links(r, vpn2 as nat));
            assert(next_level_ppn(t.entry(r, vpn2 as nat)) == ppn1);
            assert(t.levels@[ppn0] == 0);
            assert(leaf == leaf_pte(pa, flags));
            lemma_leaf_pte(pa, flags);
            assert forall|p: u64, i: nat| s.nodes@.contains_key(p) && i < 512 implies #[trigger] s.entry_ok(p, i) by {
                assert(t.entry_ok(p, i));
                if p != ppn0 {
                    assert(s.entry(p, i) == t.entry(p, i));
                }
            }
            assert forall|p: u64, i: nat, q: u64, j: nat|
                #[trigger] s.links(p, i) && #[trigger] s.links(q, j) && next_level_ppn(s.entry(p, i))
                    == next_level_ppn(s.entry(q, j)) implies p == q && i == j by {
                assert(p != ppn0 && q != ppn0);
                assert(t.links(p, i) && t.links(q, j));
            }
            assert(s.wf());
            assert forall|va2: u64| #[trigger] s.walk(va2) == if same_page(va, va2) {
                last_level_result(leaf_pte(pa, flags), va2)
            } else {
                o.walk(va2)
            } by {
                reveal_with_fuel(Sv39PageTable::walk_from, 3);
                let i2 = vpn(va2, 2);
                let i1 = vpn(va2, 1);
                let i0 = vpn(va2, 0);
                assert(i2 < 512 && i1 < 512 && i0 < 512);
                assert(t.walk(va2) == o.walk(va2));
                assert(t.entry_ok(r, i2));
                let e2 = t.entry(r, i2);
                assert(s.entry(r, i2) == e2);
                if has_flag(e2, PTE_V) && !leaf_spec(e2) {
                    assert(t.links(r, i2));
                    let c1 = next_level_ppn(e2);
                    assert(t.entry_ok(c1, i1));
                    let e1 = t.entry(c1, i1);
                    assert(s.entry(c1, i1) == e1);
                    if has_flag(e1, PTE_V) && !leaf_spec(e1) {
                        assert(t.links(c1, i1));
                        let c0 = next_level_ppn(e1);
                        if c0 == ppn0 {
                            assert(c1 == ppn1 && i1 == vpn1);
                            assert(i2 == vpn2);
                        }
                        if !(c0 == ppn0 && i0 == vpn0) {
                            assert(s.entry(c0, i0) == t.entry(c0, i0));
                        }
                    }
                }
                if same_page(va, va2) {
                    assert(i2 == vpn2 && i1 == vpn1 && i0 == vpn0);
                }
            }
            assert forall|va2: u64| #[trigger] s.superpage_covers(va2) == o.superpage_covers(va2) by {
                let i2 = vpn(va2, 2);
                let i1 = vpn(va2, 1);
                assert(i2 < 512 && i1 < 512);
                assert(t.superpage_covers(va2) == o.superpage_covers(va2));
                assert(t.entry_ok(r, i2));
                let e2 = t.entry(r, i2);
                assert(s.entry(r, i2) == e2);
                if has_flag(e2, PTE_V) && !leaf_spec(e2) {
                    assert(t.links(r, i2));
                    let c1 = next_level_ppn(e2);
                    assert(s.entry(c1, i1) == t.entry(c1, i1));
                }
            }
        }
    }

    /// Maps the 2 MiB superpage of `va` to the frame of `pa` with a leaf at
    /// level 1. Both addresses must be 2 MiB aligned, and the flags must make
    /// the entry a leaf (one of R, W, X).
    pub fn map_superpage(&mut self, va: u64, pa: u64, flags: u64)
        requires
            old(self).wf(),
            old(self).spare_nodes() >= old(self).superpage_pages_needed(va),
            va % 0x20_0000 == 0,
            pa % 0x20_0000 == 0,
            leaf_spec(flags),
        ensures
            final(self).wf(),
            final(self).root() == old(self).root(),
            final(self).spare_nodes() + old(self).superpage_pages_needed(va)
                == old(self).spare_nodes(),
            maps_superpage(*old(self), *final(self), va, pa, flags),
            forall|va2: u64| #[trigger]
                final(self).superpage_covers(va2) == (same_superpage(va, va2)
                    || old(self).superpage_covers(va2)),
    {
        let root = self.root_ppn;
        let vpn2 = Self::extract_vpn(va, 2);
        proof {
            assert(self.entry_ok(root, vpn2 as nat));
        }
        let ppn1 = self.descend(root, vpn2, Ghost(2));
        let vpn1 = Self::extract_vpn(va, 1);
        let ghost t = *self;
        let leaf = ((pa >> 12) << PPN_SHIFT) | flags | PTE_V;
        self.set_entry(ppn1, vpn1, leaf);
        proof {
            let s = *self;
            let o = *old(self);
            let r = root;
            assert(t.links(r, vpn2 as nat));
            assert(next_level_ppn(t.entry(r, vpn2 as nat)) == ppn1);
            assert(t.levels@[ppn1] == 1);
            assert(leaf == leaf_pte(pa, flags));
            lemma_leaf_pte(pa, flags);
            assert forall|p: u64, i: nat| s.nodes@.contains_key(p) && i < 512 implies #[trigger] s.entry_ok(p, i) by {
                assert(t.entry_ok(p, i));
                if !(p == ppn1 && i == vpn1) {
                    assert(s.entry(p, i) == t.entry(p, i));
                    if s.links(p, i) {
                        assert(t.links(p, i));
                    }
                }
            }
            assert forall|p: u64, i: nat, q: u64, j: nat|
                #[trigger] s.links(p, i) && #[trigger] s.links(q, j) && next_level_ppn(s.entry(p, i))
                    == next_level_ppn(s.entry(q, j)) implies p == q && i == j by {
                assert(!(p == ppn1 && i == vpn1) && !(q == ppn1 && j == vpn1));
                assert(t.links(p, i) && t.links(q, j));
            }
            assert(s.wf());
            assert forall|va2: u64| #[trigger] s.walk(va2) == if same_superpage(va, va2) {
                TranslateResult::Mapped(leaf_address(leaf_pte(pa, flags), va2, 1))
            } else {
                o.walk(va2)
            } by {
                reveal_with_fuel(Sv39PageTable::walk_from, 3);
                let i2 = vpn(va2, 2);
                let i1 = vpn(va2, 1);
                let i0 = vpn(va2, 0);
                assert(i2 < 512 && i1 < 512 && i0 < 512);
                assert(t.walk(va2) == o.walk(va2));
                assert(t.entry_ok(r, i2));
                let e2 = t.entry(r, i2);
                assert(s.entry(r, i2) == e2);
                if has_flag(e2, PTE_V) && !leaf_spec(e2) {
                    assert(t.links(r, i2));
                    let c1 = next_level_ppn(e2);
                    if c1 == ppn1 {
                        assert(i2 == vpn2);
                    }
                    if !(c1 == ppn1 && i1 == vpn1) {
                        let e1 = t.entry(c1, i1);
                        assert(s.entry(c1, i1) == e1);
                        assert(t.entry_ok(c1, i1));
                        if has_flag(e1, PTE_V) && !leaf_spec(e1) {
                            assert(t.links(c1, i1));
                            let c0 = next_level_ppn(e1);
                            assert(s.entry(c0, i0) == t.entry(c0, i0));
                        }
                    }
                }
                if same_superpage(va, va2) {
                    assert(i2 == vpn2 && i1 == vpn1);
                }
            }
            assert forall|va2: u64| #[trigger] s.superpage_covers(va2) == (same_superpage(va, va2)
                || o.superpage_covers(va2)) by {
                let i2 = vpn(va2, 2);
                let i1 = vpn(va2, 1);
                assert(i2 < 512 && i1 < 512);
                assert(t.superpage_covers(va2) == o.superpage_covers(va2));
                assert(t.entry_ok(r, i2));
                let e2 = t.entry(r, i2);
                assert(s.entry(r, i2) == e2);
                if has_flag(e2, PTE_V) && !leaf_spec(e2) {
                    assert(t.links(r, i2));
                    let c1 = next_level_ppn(e2);
                    if c1 == ppn1 {
                        assert(i2 == vpn2);
                    }
                    if !(c1 == ppn1 && i1 == vpn1) {
                        assert(s.entry(c1, i1) == t.entry(c1, i1));
                    }
                }
                if same_superpage(va, va2) {
                    assert(i2 == vpn2 && i1 == vpn1);
                }
            }
        }
    }
}

/// Read after write for pages: once the page of `va` is mapped to the frame
/// of `pa` with leaf flags that fit below bit 10, every address of that page
/// translates to the same offset in that frame, and every other address
/// translates as before. The frame must lie below 2^39, the reach of the
/// 27-bit page number that the walk reads.
pub proof fn lemma_translate_after_map_page(
    before: Sv39PageTable,
    after: Sv39PageTable,
    va: u64,
    pa: u64,
    flags: u64,
    va2: u64,
)
    requires
        maps_page(before, after, va, pa, flags),
        flags < 1024,
        leaf_spec(flags),
        pa < 0x80_0000_0000,
    ensures
        same_page(va, va2) ==> after.walk(va2) == TranslateResult::Mapped(
            ((pa / 4096) * 4096 + va2 % 4096) as u64,
        ),
        !same_page(va, va2) ==> after.walk(va2) == before.walk(va2),
{
    lemma_leaf_pte(pa, flags);
    let l = leaf_pte(pa, flags);
    let a = leaf_address(l, va2, 0);
    assert(a == (pa / 4096) * 4096 + va2 % 4096) by (bit_vector)
        requires
            l == ((pa >> 12u64) << 10u64) | flags | 1,
            a == (((l >> 10u64) & 0x7ff_ffff) << 12u64) | (va2 & 0xfff),
            flags < 1024,
            pa < 0x80_0000_0000,
    ;
    assert(after.walk(va2) == if same_page(va, va2) {
        last_level_result(l, va2)
    } else {
        before.walk(va2)
    });
}

/// Read after write for superpages: once the 2 MiB superpage of `va` is
/// mapped to the 2 MiB aligned frame `pa` (below 2^39, with flags below
/// bit 10), every address of the superpage translates to `pa` plus its
/// 21-bit offset, and every other address translates as before.
pub proof fn lemma_translate_after_map_superpage(
    before: Sv39PageTable,
    after: Sv39PageTable,
    va: u64,
    pa: u64,
    flags: u64,
    va2: u64,
)
    requires
        maps_superpage(before, after, va, pa, flags),
        flags < 1024,
        pa % 0x20_0000 == 0,
        pa < 0x80_0000_0000,
    ensures
        same_superpage(va, va2) ==> after.walk(va2) == TranslateResult::Mapped(
            (pa + va2 % 0x20_0000) as u64,
        ),
        !same_superpage(va, va2) ==> after.walk(va2) == before.walk(va2),
{
    let l = leaf_pte(pa, flags);
    let a = leaf_address(l, va2, 1);
    assert(a == pa + va2 % 0x20_0000) by (bit_vector)
        requires
            l == ((pa >> 12u64) << 10u64) | flags | 1,
            a == (((l >> 10u64) & 0x7ff_ffff) << 12u64) | (va2 & 0x1f_ffff),
            flags < 1024,
            pa % 0x20_0000 == 0,
            pa < 0x80_0000_0000,
    ;
    assert(after.walk(va2) == if same_superpage(va, va2) {
        TranslateResult::Mapped(a)
    } else {
        before.walk(va2)
    });
}

impl Default for Sv39PageTable {
    fn default() -> (pt: Self)
        ensures
            pt.wf(),
            pt.root() == ROOT_PPN,
            forall|va: u64| #[trigger] pt.walk(va) == TranslateResult::PageFault,
    {
        Self::new()
    }
}

} // verus!
