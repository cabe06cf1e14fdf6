//! RISC-V SV39 page-table entries: building and decoding the 64-bit word.
//!
//! Layout: bits [53:10] hold the physical page number (PPN), bits [9:8] are
//! reserved for software, bits [7:0] hold the flags V R W X U G A D.
use vstd::prelude::*;

verus! {

/// Valid.
pub const PTE_V: u64 = 0x1;
/// Readable.
pub const PTE_R: u64 = 0x2;
/// Writable.
pub const PTE_W: u64 = 0x4;
/// Executable.
pub const PTE_X: u64 = 0x8;
/// User accessible.
pub const PTE_U: u64 = 0x10;
/// Global.
pub const PTE_G: u64 = 0x20;
/// Accessed.
pub const PTE_A: u64 = 0x40;
/// Dirty.
pub const PTE_D: u64 = 0x80;

/// Bit position of the PPN field.
pub const PPN_SHIFT: u64 = 10;
/// The 44-bit PPN field, once shifted down.
pub const PPN_MASK: u64 = 0xfff_ffff_ffff;

/// Number of distinct physical page numbers that a PTE can hold (2^44).
pub open spec fn ppn_limit() -> nat {
    0x1000_0000_0000
}

/// `pte` has every bit of `flag` set (for a single-bit flag: that bit is set).
pub open spec fn has_flag(pte: u64, flag: u64) -> bool {
    pte & flag != 0
}

/// The PPN field of a PTE: the 44 bits starting at bit 10.
pub open spec fn ppn_field(pte: u64) -> nat {
    ((pte as nat) / 1024) % ppn_limit()
}

/// The flag byte of a PTE: its lowest 8 bits.
pub open spec fn flags_field(pte: u64) -> nat {
    (pte as nat) % 256
}

/// A PTE is a leaf when any of R, W or X is set; otherwise, when valid, it
/// points to the next-level table.
pub open spec fn leaf_spec(pte: u64) -> bool {
    has_flag(pte, PTE_R) || has_flag(pte, PTE_W) || has_flag(pte, PTE_X)
}

/// The access (read, write, execute) is allowed: the PTE is valid and holds
/// each requested permission.
pub open spec fn permits(pte: u64, read: bool, write: bool, execute: bool) -> bool {
    &&& has_flag(pte, PTE_V)
    &&& read ==> has_flag(pte, PTE_R)
    &&& write ==> has_flag(pte, PTE_W)
    &&& execute ==> has_flag(pte, PTE_X)
}

/// Builds a PTE from a physical page number and flags: the PPN shifted to
/// bit 10, or-ed with the flags.
pub fn make_pte(ppn: u64, flags: u64) -> (pte: u64)
    ensures
        pte == (ppn << 10u64) | flags,
        ppn < 0x40_0000_0000_0000 && flags < 1024 ==> pte == ppn * 1024 + flags,
{
    let pte = (ppn << PPN_SHIFT) | flags;
    proof {
        if ppn < 0x40_0000_0000_0000 && flags < 1024 {
            assert((ppn << 10u64) | flags == ppn * 1024 + flags) by (bit_vector)
                requires
                    ppn < 0x40_0000_0000_0000u64,
                    flags < 1024u64,
            ;
        }
    }
    pte
}

/// The physical page number held in bits [53:10].
pub fn extract_ppn(pte: u64) -> (ppn: u64)
    ensures
        ppn == ppn_field(pte),
{
    assert((pte >> 10u64) & 0xfff_ffff_ffffu64 == (pte / 1024) % 0x1000_0000_0000) by (bit_vector);
    (pte >> PPN_SHIFT) & PPN_MASK
}

/// The flag byte, bits [7:0].
pub fn extract_flags(pte: u64) -> (flags: u64)
    ensures
        flags == flags_field(pte),
{
    assert(pte & 0xffu64 == pte % 256) by (bit_vector);
    pte & 0xff
}

/// Whether the V bit is set.
pub fn is_valid(pte: u64) -> (valid: bool)
    ensures
        valid == has_flag(pte, PTE_V),
        valid == (pte % 2 == 1),
{
    assert((pte & 1u64 != 0) == (pte % 2 == 1)) by (bit_vector);
    pte & PTE_V != 0
}

/// Whether the entry is a leaf: any of R, W, X set.
pub fn is_leaf(pte: u64) -> (leaf: bool)
    ensures
        leaf == leaf_spec(pte),
{
    pte & PTE_R != 0 || pte & PTE_W != 0 || pte & PTE_X != 0
}

/// Whether the entry is valid and grants every requested permission.
pub fn check_permission(pte: u64, read: bool, write: bool, execute: bool) -> (ok: bool)
    ensures
        ok == permits(pte, read, write, execute),
{
    if pte & PTE_V == 0 {
        return false;
    }
    if read && pte & PTE_R == 0 {
        return false;
    }
    if write && pte & PTE_W == 0 {
        return false;
    }
    if execute && pte & PTE_X == 0 {
        return false;
    }
    true
}

/// Building a PTE and decoding it gives back the PPN and the flags, for a
/// PPN that fits in 44 bits and flags that fit in 8 bits.
pub proof fn lemma_make_pte_round_trip(ppn: u64, flags: u64)
    requires
        ppn < 0x1000_0000_0000,
        flags < 256,
    ensures
        ppn_field((ppn << 10u64) | flags) == ppn,
        flags_field((ppn << 10u64) | flags) == flags,
{
    let pte = (ppn << 10u64) | flags;
    assert(((pte / 1024) % 0x1000_0000_0000) == ppn && pte % 256 == flags) by (bit_vector)
        requires
            ppn < 0x1000_0000_0000u64,
            flags < 256u64,
            pte == (ppn << 10u64) | flags,
    ;
}

/// A flag bit is set in a built PTE exactly when it is set in the flags
/// given, whatever the PPN.
pub proof fn lemma_make_pte_flag(ppn: u64, flags: u64, flag: u64)
    requires
        flag == PTE_V || flag == PTE_R || flag == PTE_W || flag == PTE_X || flag == PTE_U
            || flag == PTE_G || flag == PTE_A || flag == PTE_D,
    ensures
        has_flag((ppn << 10u64) | flags, flag) == has_flag(flags, flag),
{
    assert(((ppn << 10u64) | flags) & flag != 0 <==> flags & flag != 0) by (bit_vector)
        requires
            flag == 1u64 || flag == 2u64 || flag == 4u64 || flag == 8u64 || flag == 16u64
                || flag == 32u64 || flag == 64u64 || flag == 128u64,
    ;
}

/// Permission implies validity, and asking for nothing beyond validity is
/// granted by every valid entry.
pub proof fn lemma_permission_basics(pte: u64, read: bool, write: bool, execute: bool)
    ensures
        permits(pte, read, write, execute) ==> has_flag(pte, PTE_V),
        permits(pte, false, false, false) == has_flag(pte, PTE_V),
{
}

/// What a permission check grants, bit by bit: a granted request implies the
/// V bit and, for each access asked for, its bit (R for a read, W for a
/// write, X for an execute); and a valid entry whose bits cover every
/// access asked for grants the request.
pub proof fn lemma_permission_needs_each_bit(pte: u64, read: bool, write: bool, execute: bool)
    ensures
        permits(pte, read, write, execute) ==> pte & 0x1 != 0,
        permits(pte, true, write, execute) ==> pte & 0x2 != 0,
        permits(pte, read, true, execute) ==> pte & 0x4 != 0,
        permits(pte, read, write, true) ==> pte & 0x8 != 0,
        pte & 0x1 != 0 && (read ==> pte & 0x2 != 0) && (write ==> pte & 0x4 != 0) && (execute
            ==> pte & 0x8 != 0) ==> permits(pte, read, write, execute),
        permits(pte, read, write, execute) == (permits(pte, read, false, false) && permits(
            pte,
            false,
            write,
            false,
        ) && permits(pte, false, false, execute)),
{
}

/// The permissions of a built PTE are those of the flags it was built with,
/// whatever the PPN.
pub proof fn lemma_permission_of_built_pte(
    ppn: u64,
    flags: u64,
    read: bool,
    write: bool,
    execute: bool,
)
    ensures
        permits((ppn << 10u64) | flags, read, write, execute) == permits(
            flags,
            read,
            write,
            execute,
        ),
{
    lemma_make_pte_flag(ppn, flags, PTE_V);
    lemma_make_pte_flag(ppn, flags, PTE_R);
    lemma_make_pte_flag(ppn, flags, PTE_W);
    lemma_make_pte_flag(ppn, flags, PTE_X);
}

} // verus!
