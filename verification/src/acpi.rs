use vstd::prelude::*;
use crate::multiboot::{le_u32, le_u64, read_u32, read_u64, tag_offsets, tag_walk, FIRST_TAG, TAG_ACPI_NEW, TAG_ACPI_OLD};

verus! {

/// Where the RSDP copy of the last ACPI tag among `tags` starts: 8 bytes into
/// the tag. `None` when no tag holds one.
pub open spec fn rsdp_in(s: Seq<u8>, tags: Seq<int>) -> Option<int>
    decreases tags.len(),
{
    if tags.len() == 0 {
        None
    } else {
        let off = tags.last();
        let ty = le_u32(s, off);
        if ty == TAG_ACPI_OLD || ty == TAG_ACPI_NEW {
            Some(off + 8)
        } else {
            rsdp_in(s, tags.drop_last())
        }
    }
}

/// The offset of the RSDP in the information structure `info`: `Some(None)` when
/// no tag holds one, `None` when `info` is malformed.
pub fn rsdp_offset(info: &[u8]) -> (r: Option<Option<usize>>)
    ensures
        match r {
            None => tag_walk(info@, FIRST_TAG as int) is None,
            Some(o) => tag_walk(info@, FIRST_TAG as int) matches Some(tags) && match o {
                None => rsdp_in(info@, tags) is None,
                Some(x) => rsdp_in(info@, tags) == Some(x as int),
            },
        },
{
    let tags = match tag_offsets(info) {
        None => return None,
        Some(t) => t,
    };
    let ghost ts = tags@.map_values(|o: usize| o as int);
    proof {
        crate::multiboot::lemma_tag_walk_bounds(info@, FIRST_TAG as int);
    }
    let mut k: usize = tags.len();
    assert(ts.subrange(0, k as int) =~= ts);
    while k > 0
        invariant
            k <= tags.len(),
            ts == tags@.map_values(|o: usize| o as int),
            tag_walk(info@, FIRST_TAG as int) == Some(ts),
            forall|j: int| 0 <= j < ts.len() ==> 0 <= #[trigger] ts[j] && ts[j] + 8 <= info@.len(),
            rsdp_in(info@, ts) == rsdp_in(info@, ts.subrange(0, k as int)),
        decreases k,
    {
        let off = tags[k - 1];
        proof {
            assert(ts.subrange(0, k as int).drop_last() =~= ts.subrange(0, k - 1));
            assert(ts[k - 1] == off as int);
        }
        assert(off + 8 <= info.len());
        let ty = read_u32(info, off);
        if ty == TAG_ACPI_OLD || ty == TAG_ACPI_NEW {
            return Some(Some(off + 8));
        }
        k = k - 1;
    }
    proof {
        assert(ts.subrange(0, 0) =~= Seq::<int>::empty());
    }
    Some(None)
}

/// The root table an RSDP points to: the XSDT (64-bit entries) from revision 2
/// on, else the RSDT (32-bit entries); `(is_xsdt, physical address)`.
pub fn root_table(rsdp: &[u8]) -> (r: (bool, u64))
    requires
        rsdp.len() >= 32,
    ensures
        r.0 == (rsdp@[15] >= 2),
        r.0 ==> r.1 == le_u64(rsdp@, 24),
        !r.0 ==> r.1 == le_u32(rsdp@, 16) as u64,
{
    if rsdp[15] >= 2 {
        (true, read_u64(rsdp, 24))
    } else {
        (false, read_u32(rsdp, 16) as u64)
    }
}

/// Size of the common header of an ACPI table.
pub const SDT_HEADER: usize = 36;

/// The table addresses a root table lists: `(len - 36) / 8` 64-bit entries for an
/// XSDT, `(len - 36) / 4` 32-bit ones for an RSDT, where `len` is the length its
/// header gives. Entries past the end of `sdt` are not read.
pub open spec fn sdt_entries_spec(sdt: Seq<u8>, xsdt: bool) -> Seq<u64> {
    let len = le_u32(sdt, 4) as int;
    let w: int = if xsdt { 8 } else { 4 };
    let n = if len < 36 { 0 } else { (len - 36) / w };
    let avail = if sdt.len() < 36 { 0 } else { (sdt.len() - 36) / w };
    let m = if n < avail { n } else { avail };
    Seq::new(m as nat, |i: int| if xsdt { le_u64(sdt, 36 + i * 8) } else { le_u32(sdt, 36 + i * 4) as u64 })
}

/// The table addresses a root table lists, as `sdt_entries_spec` says.
pub fn sdt_entries(sdt: &[u8], xsdt: bool) -> (r: Vec<u64>)
    requires
        sdt.len() >= 8,
    ensures
        r@ == sdt_entries_spec(sdt@, xsdt),
{
    let len = read_u32(sdt, 4) as usize;
    let w: usize = if xsdt { 8 } else { 4 };
    let n: usize = if len < SDT_HEADER { 0 } else { (len - SDT_HEADER) / w };
    let avail: usize = if sdt.len() < SDT_HEADER { 0 } else { (sdt.len() - SDT_HEADER) / w };
    let m: usize = if n < avail { n } else { avail };
    let mut r: Vec<u64> = Vec::new();
    let mut i: usize = 0;
    while i < m
        invariant
            i <= m,
            m <= avail,
            w == if xsdt { 8usize } else { 4usize },
            avail == if sdt.len() < SDT_HEADER { 0 } else { (sdt.len() - SDT_HEADER) / (w as int) },
            r@.len() == i,
            forall|k: int| 0 <= k < i ==> #[trigger] r@[k] == if xsdt { le_u64(sdt@, 36 + k * 8) } else { le_u32(sdt@, 36 + k * 4) as u64 },
        decreases m - i,
    {
        assert(36 + (i + 1) * w <= sdt.len()) by (nonlinear_arith)
            requires
                i < avail,
                avail == if sdt.len() < 36 { 0 } else { (sdt.len() - 36) / (w as int) },
                w == 8 || w == 4,
        ;
        if xsdt {
            r.push(read_u64(sdt, SDT_HEADER + i * 8));
        } else {
            r.push(read_u32(sdt, SDT_HEADER + i * 4) as u64);
        }
        i = i + 1;
    }
    assert(r@ =~= sdt_entries_spec(sdt@, xsdt));
    r
}

/// Whether `table` starts with the signature `sig`.
pub fn sig_match(table: &[u8], sig: &[u8]) -> (r: bool)
    ensures
        r == (sig@.len() <= table@.len() && table@.subrange(0, sig@.len() as int) == sig@),
{
    if sig.len() > table.len() {
        return false;
    }
    let mut i: usize = 0;
    while i < sig.len()
        invariant
            sig.len() <= table.len(),
            i <= sig.len(),
            table@.subrange(0, i as int) == sig@.subrange(0, i as int),
        decreases sig.len() - i,
    {
        if table[i] != sig[i] {
            assert(table@.subrange(0, sig@.len() as int)[i as int] != sig@[i as int]);
            return false;
        }
        i = i + 1;
        assert(table@.subrange(0, i as int) =~= sig@.subrange(0, i as int));
    }
    assert(sig@.subrange(0, sig@.len() as int) =~= sig@);
    true
}

/// Where the interrupt-controller entries of a MADT start.
pub const MADT_ENTRIES: usize = 44;
/// CPUs the kernel brings up at most.
pub const MAX_LAPICS: usize = 8;

/// The APIC IDs of the enabled processors the MADT entries from `off` on list, at
/// most `left` of them. The walk ends at an entry of length 0, at the end of the
/// table, or at a processor entry cut off by it.
pub open spec fn madt_ids(m: Seq<u8>, off: int, left: nat) -> Seq<u8>
    decreases (if off < m.len() { m.len() - off } else { 0 }),
{
    if off < 0 || off + 1 >= m.len() || left == 0 || m[off + 1] == 0 {
        Seq::empty()
    } else if m[off] == 0 {
        if off + 8 > m.len() {
            Seq::empty()
        } else if le_u32(m, off + 4) & 1 != 0 {
            seq![m[off + 3]] + madt_ids(m, off + m[off + 1], (left - 1) as nat)
        } else {
            madt_ids(m, off + m[off + 1], left)
        }
    } else {
        madt_ids(m, off + m[off + 1], left)
    }
}

/// The APIC IDs of the enabled processors a MADT lists, in table order, at most
/// `MAX_LAPICS`.
pub fn lapic_ids(madt: &[u8]) -> (r: Vec<u8>)
    ensures
        r@ == madt_ids(madt@, MADT_ENTRIES as int, MAX_LAPICS as nat),
{
    let mut r: Vec<u8> = Vec::new();
    let mut off: usize = MADT_ENTRIES;
    let mut done = false;
    let ghost goal = madt_ids(madt@, MADT_ENTRIES as int, MAX_LAPICS as nat);
    while !done && off < madt.len() && madt.len() - off > 1 && r.len() < MAX_LAPICS
        invariant
            r@.len() <= MAX_LAPICS,
            off >= MADT_ENTRIES,
            goal == madt_ids(madt@, MADT_ENTRIES as int, MAX_LAPICS as nat),
            !done ==> r@ + madt_ids(madt@, off as int, (MAX_LAPICS - r@.len()) as nat) == goal,
            done ==> r@ == goal,
        decreases madt.len() - off, (if done { 0int } else { 1int }),
    {
        let ty = madt[off];
        let elen = madt[off + 1] as usize;
        if elen == 0 {
            assert(r@ + Seq::<u8>::empty() =~= r@);
            done = true;
        } else {
            if ty == 0 {
                if madt.len() - off < 8 {
                    assert(r@ + Seq::<u8>::empty() =~= r@);
                    done = true;
                } else {
                    let flags = read_u32(madt, off + 4);
                    if flags & 1 != 0 {
                        let ghost before = r@;
                        r.push(madt[off + 3]);
                        assert(before + madt_ids(madt@, off as int, (MAX_LAPICS - before.len()) as nat) =~= r@ + madt_ids(
                            madt@,
                            off + elen,
                            (MAX_LAPICS - r@.len()) as nat,
                        ));
                    }
                }
            }
            if !done {
                if elen >= madt.len() - off {
                    assert(madt_ids(madt@, off + elen, (MAX_LAPICS - r@.len()) as nat) =~= Seq::<u8>::empty());
                    assert(r@ + Seq::<u8>::empty() =~= r@);
                    done = true;
                } else {
                    off = off + elen;
                }
            }
        }
    }
    proof {
        if !done {
            assert(r@ + madt_ids(madt@, off as int, (MAX_LAPICS - r@.len()) as nat) =~= r@);
        }
    }
    r
}

/// The physical address of an HPET's registers, from its ACPI table: the address
/// field of the base-address structure at byte 44.
pub fn hpet_mmio(table: &[u8]) -> (r: u64)
    requires
        table.len() >= 52,
    ensures
        r == le_u64(table@, 44),
{
    read_u64(table, 44)
}

} // verus!
