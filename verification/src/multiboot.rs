use vstd::prelude::*;

verus! {

/// The little-endian `u32` at `off` in `s`.
pub open spec fn le_u32(s: Seq<u8>, off: int) -> u32 {
    ((s[off] as u32) | ((s[off + 1] as u32) << 8u32) | ((s[off + 2] as u32) << 16u32) | ((s[off + 3] as u32)
        << 24u32)) as u32
}

/// The little-endian `u64` at `off` in `s`.
pub open spec fn le_u64(s: Seq<u8>, off: int) -> u64 {
    ((le_u32(s, off) as u64) | ((le_u32(s, off + 4) as u64) << 32u64)) as u64
}

/// Reads the little-endian `u32` at `off`.
pub fn read_u32(s: &[u8], off: usize) -> (r: u32)
    requires
        off + 4 <= s@.len(),
    ensures
        r == le_u32(s@, off as int),
{
    ((s[off] as u32) | ((s[off + 1] as u32) << 8u32) | ((s[off + 2] as u32) << 16u32) | ((s[off + 3] as u32)
        << 24u32)) as u32
}

/// Reads the little-endian `u64` at `off`.
pub fn read_u64(s: &[u8], off: usize) -> (r: u64)
    requires
        off + 8 <= s.len(),
    ensures
        r == le_u64(s@, off as int),
{
    let lo = read_u32(s, off);
    let hi = read_u32(s, off + 4);
    ((lo as u64) | ((hi as u64) << 32u64)) as u64
}

/// Where the first tag of a multiboot2 information structure starts.
pub const FIRST_TAG: usize = 8;

/// Type of the tag that ends the tag list.
pub const TAG_END: u32 = 0;
/// Type of the boot-module tag.
pub const TAG_MODULE: u32 = 3;
/// Type of the memory-map tag.
pub const TAG_MEMORY_MAP: u32 = 6;
/// Type of the framebuffer tag.
pub const TAG_FRAMEBUFFER: u32 = 8;
/// Type of the tag holding an ACPI 1.0 RSDP.
pub const TAG_ACPI_OLD: u32 = 14;
/// Type of the tag holding an ACPI 2.0 RSDP.
pub const TAG_ACPI_NEW: u32 = 15;

/// A tag's size rounded up to the 8-byte alignment of the next tag.
pub open spec fn padded(size: u32) -> int {
    ((size as int + 7) / 8) * 8
}

/// Offsets of the tags from `off` up to, not including, the end tag; `None` when
/// a tag header lies outside `s`, a tag is shorter than its header, or a tag runs
/// past the end of `s`.
pub open spec fn tag_walk(s: Seq<u8>, off: int) -> Option<Seq<int>>
    decreases s.len() - off,
{
    if off < 0 || off + 8 > s.len() {
        None
    } else if le_u32(s, off) == TAG_END {
        Some(Seq::empty())
    } else if le_u32(s, off + 4) < 8 || off + padded(le_u32(s, off + 4)) > s.len() {
        None
    } else {
        match tag_walk(s, off + padded(le_u32(s, off + 4))) {
            Some(rest) => Some(seq![off].add(rest)),
            None => None,
        }
    }
}

/// The offsets of all tags of the information structure `info`, in order, the end
/// tag left out; `None` when the structure is malformed (see `tag_walk`).
pub fn tag_offsets(info: &[u8]) -> (r: Option<Vec<usize>>)
    ensures
        match r {
            Some(v) => tag_walk(info@, FIRST_TAG as int) == Some(v@.map_values(|o: usize| o as int)),
            None => tag_walk(info@, FIRST_TAG as int) is None,
        },
{
    let mut acc: Vec<usize> = Vec::new();
    let mut off: usize = FIRST_TAG;
    loop
        invariant
            off <= info@.len() + 8,
            tag_walk(info@, FIRST_TAG as int) == match tag_walk(info@, off as int) {
                Some(rest) => Some(acc@.map_values(|o: usize| o as int).add(rest)),
                None => None::<Seq<int>>,
            },
        decreases info@.len() + 8 - off,
    {
        if off > info.len() || info.len() - off < 8 {
            return None;
        }
        let ty = read_u32(info, off);
        if ty == TAG_END {
            assert(acc@.map_values(|o: usize| o as int).add(Seq::<int>::empty()) =~= acc@.map_values(|o: usize| o as int));
            return Some(acc);
        }
        let size = read_u32(info, off + 4);
        let step: u64 = ((size as u64 + 7) / 8) * 8;
        if size < 8 || step > (info.len() - off) as u64 {
            return None;
        }
        let ghost old_acc = acc@;
        acc.push(off);
        proof {
            let next = off as int + padded(size);
            assert(acc@.map_values(|o: usize| o as int) =~= old_acc.map_values(|o: usize| o as int).push(off as int));
            match tag_walk(info@, next) {
                Some(rest) => {
                    assert(old_acc.map_values(|o: usize| o as int).add(seq![off as int].add(rest))
                        =~= acc@.map_values(|o: usize| o as int).add(rest));
                },
                None => {},
            }
        }
        off = off + step as usize;
    }
}


/// Entry type of usable RAM in the memory map.
pub const MEMORY_AVAILABLE: u32 = 1;

/// The memory-map entries `(base, length, type)` of the tag at `off`, read from
/// byte `read` of the entry area on. `None` when an entry lies outside `s` or the
/// entry size is 0 while entries remain.
pub open spec fn mmap_from(s: Seq<u8>, off: int, esize: u32, limit: int, read: int) -> Option<
    Seq<(u64, u64, u32)>,
>
    decreases (if read < limit { limit - read } else { 0 }),
{
    if read >= limit {
        Some(Seq::empty())
    } else if esize == 0 || off + 16 + read + 20 > s.len() {
        None
    } else {
        let e = off + 16 + read;
        match mmap_from(s, off, esize, limit, read + esize) {
            Some(rest) => Some(seq![(le_u64(s, e), le_u64(s, e + 8), le_u32(s, e + 16))].add(rest)),
            None => None,
        }
    }
}

/// The entries of the memory-map tag at `off`: the entry size is at byte 8 of the
/// tag and the entries fill the tag from byte 16 on. `None` when the tag is shorter
/// than 16 bytes or `mmap_from` finds it malformed.
pub open spec fn mmap_entries(s: Seq<u8>, off: int) -> Option<Seq<(u64, u64, u32)>> {
    if le_u32(s, off + 4) < 16 || off + 16 > s.len() {
        None
    } else {
        mmap_from(s, off, le_u32(s, off + 8), le_u32(s, off + 4) - 16, 0)
    }
}

/// The `(base, length)` of the entries of type `MEMORY_AVAILABLE`, in order.
pub open spec fn available_of(es: Seq<(u64, u64, u32)>) -> Seq<(u64, u64)>
    decreases es.len(),
{
    if es.len() == 0 {
        Seq::empty()
    } else {
        let e = es.last();
        available_of(es.drop_last()).add(
            if e.2 == MEMORY_AVAILABLE {
                seq![(e.0, e.1)]
            } else {
                Seq::empty()
            },
        )
    }
}

/// The available regions named by the memory-map tags among `tags`, in order.
pub open spec fn available_regions(s: Seq<u8>, tags: Seq<int>) -> Option<Seq<(u64, u64)>>
    decreases tags.len(),
{
    if tags.len() == 0 {
        Some(Seq::empty())
    } else {
        let off = tags.last();
        let here: Option<Seq<(u64, u64)>> = if le_u32(s, off) != TAG_MEMORY_MAP {
            Some(Seq::empty())
        } else {
            match mmap_entries(s, off) {
                Some(es) => Some(available_of(es)),
                None => None,
            }
        };
        match (available_regions(s, tags.drop_last()), here) {
            (Some(a), Some(b)) => Some(a.add(b)),
            _ => None,
        }
    }
}

/// The regions of usable RAM listed in the information structure `s`.
pub open spec fn memory_map(s: Seq<u8>) -> Option<Seq<(u64, u64)>> {
    match tag_walk(s, FIRST_TAG as int) {
        Some(tags) => available_regions(s, tags),
        None => None,
    }
}

proof fn lemma_available_of_add(a: Seq<(u64, u64, u32)>, b: Seq<(u64, u64, u32)>)
    ensures
        available_of(a.add(b)) == available_of(a).add(available_of(b)),
    decreases b.len(),
{
    if b.len() == 0 {
        assert(a.add(b) =~= a);
        assert(available_of(a).add(available_of(b)) =~= available_of(a));
    } else {
        assert(a.add(b).drop_last() =~= a.add(b.drop_last()));
        lemma_available_of_add(a, b.drop_last());
        assert(available_of(a.add(b)) =~= available_of(a).add(available_of(b)));
    }
}

/// Every entry, whatever its type, of the memory-map tags among `tags`, in order.
pub open spec fn map_entries_of(s: Seq<u8>, tags: Seq<int>) -> Option<Seq<(u64, u64, u32)>>
    decreases tags.len(),
{
    if tags.len() == 0 {
        Some(Seq::empty())
    } else {
        let off = tags.last();
        let here: Option<Seq<(u64, u64, u32)>> = if le_u32(s, off) != TAG_MEMORY_MAP {
            Some(Seq::empty())
        } else {
            mmap_entries(s, off)
        };
        match (map_entries_of(s, tags.drop_last()), here) {
            (Some(a), Some(b)) => Some(a.add(b)),
            _ => None,
        }
    }
}

/// Every memory-map entry of the information structure `s`, in order.
pub open spec fn all_map_entries(s: Seq<u8>) -> Option<Seq<(u64, u64, u32)>> {
    match tag_walk(s, FIRST_TAG as int) {
        Some(tags) => map_entries_of(s, tags),
        None => None,
    }
}

/// An entry of type 1: RAM free for use.
pub open spec fn is_type_1() -> spec_fn((u64, u64, u32)) -> bool {
    |e: (u64, u64, u32)| e.2 == 1u32
}

/// The `(base, length)` of an entry.
pub open spec fn base_and_length() -> spec_fn((u64, u64, u32)) -> (u64, u64) {
    |e: (u64, u64, u32)| (e.0, e.1)
}

/// The `(base, length)` of the entries of type 1 among `es`, in order.
pub open spec fn type_1_regions(es: Seq<(u64, u64, u32)>) -> Seq<(u64, u64)> {
    es.filter(is_type_1()).map_values(base_and_length())
}

proof fn lemma_type_1_regions(es: Seq<(u64, u64, u32)>)
    ensures
        available_of(es) == type_1_regions(es),
    decreases es.len(),
{
    reveal(Seq::filter);
    if es.len() > 0 {
        lemma_type_1_regions(es.drop_last());
        let p = es.drop_last().filter(is_type_1());
        if es.last().2 == 1u32 {
            assert(es.filter(is_type_1()) == p.push(es.last()));
            assert(p.push(es.last()).map_values(base_and_length()) =~= p.map_values(base_and_length()).push(
                (es.last().0, es.last().1),
            ));
        } else {
            assert(es.filter(is_type_1()) == p);
        }
        assert(available_of(es) =~= type_1_regions(es));
    } else {
        assert(type_1_regions(es) =~= Seq::<(u64, u64)>::empty());
    }
}

proof fn lemma_type_1_regions_add(a: Seq<(u64, u64, u32)>, b: Seq<(u64, u64, u32)>)
    ensures
        type_1_regions(a.add(b)) == type_1_regions(a).add(type_1_regions(b)),
{
    Seq::filter_distributes_over_add(a, b, is_type_1());
    assert(a.filter(is_type_1()).add(b.filter(is_type_1())).map_values(base_and_length()) =~= a.filter(
        is_type_1(),
    ).map_values(base_and_length()).add(b.filter(is_type_1()).map_values(base_and_length())));
}

proof fn lemma_regions_of_entries(s: Seq<u8>, tags: Seq<int>)
    ensures
        available_regions(s, tags) is Some <==> map_entries_of(s, tags) is Some,
        map_entries_of(s, tags) matches Some(es) ==> available_regions(s, tags) == Some(type_1_regions(es)),
    decreases tags.len(),
{
    if tags.len() > 0 {
        lemma_regions_of_entries(s, tags.drop_last());
        let off = tags.last();
        if le_u32(s, off) == TAG_MEMORY_MAP {
            if let Some(es) = mmap_entries(s, off) {
                lemma_type_1_regions(es);
                if let Some(a) = map_entries_of(s, tags.drop_last()) {
                    lemma_type_1_regions_add(a, es);
                }
            }
        } else {
            if let Some(a) = map_entries_of(s, tags.drop_last()) {
                lemma_type_1_regions_add(a, Seq::empty());
                assert(a.add(Seq::<(u64, u64, u32)>::empty()) =~= a);
                assert(type_1_regions(Seq::<(u64, u64, u32)>::empty()) =~= Seq::<(u64, u64)>::empty()) by {
                    reveal(Seq::filter);
                }
                assert(type_1_regions(a).add(Seq::<(u64, u64)>::empty()) =~= type_1_regions(a));
            }
        }
    }
}

/// `x` is the `(base, length)` of an entry of type 1 among `es`.
pub open spec fn from_type_1(x: (u64, u64), es: Seq<(u64, u64, u32)>) -> bool {
    exists|j: int| 0 <= j < es.len() && es[j].2 == 1u32 && x == (#[trigger] es[j].0, es[j].1)
}

/// Each region of `r` is the `(base, length)` of an entry of type 1 among `es`.
pub open spec fn each_from_type_1(r: Seq<(u64, u64)>, es: Seq<(u64, u64, u32)>) -> bool {
    forall|i: int| 0 <= i < r.len() ==> #[trigger] from_type_1(r[i], es)
}

/// Only RAM free for use goes to the allocator: the regions the memory map of `s`
/// lists are exactly the `(base, length)` of its entries of type 1, every one of
/// them, in the order listed; entries of any other type (reserved, ACPI, NVS, bad
/// memory) are left out. The map is malformed exactly when its entries cannot be read.
pub proof fn law_memory_map_is_type_1_entries(s: Seq<u8>)
    ensures
        memory_map(s) is Some <==> all_map_entries(s) is Some,
        all_map_entries(s) matches Some(es) ==> memory_map(s) == Some(type_1_regions(es)),
        all_map_entries(s) matches Some(es) ==> forall|i: int|
            0 <= i < es.len() && es[i].2 == 1u32 ==> #[trigger] memory_map(s).unwrap().contains((es[i].0, es[i].1)),
        all_map_entries(s) matches Some(es) ==> each_from_type_1(memory_map(s).unwrap(), es),
{
    if let Some(tags) = tag_walk(s, FIRST_TAG as int) {
        lemma_regions_of_entries(s, tags);
    }
    if let Some(es) = all_map_entries(s) {
        let f = es.filter(is_type_1());
        assert forall|i: int| 0 <= i < es.len() && es[i].2 == 1u32 implies #[trigger] memory_map(s).unwrap().contains(
            (es[i].0, es[i].1),
        ) by {
            es.lemma_filter_contains(is_type_1(), i);
            let k = choose|k: int| 0 <= k < f.len() && f[k] == es[i];
            assert(memory_map(s).unwrap()[k] == (es[i].0, es[i].1));
        }
        let r = memory_map(s).unwrap();
        assert forall|i: int| 0 <= i < r.len() implies #[trigger] from_type_1(r[i], es) by {
            es.lemma_filter_pred(is_type_1(), i);
            assert(f.contains(f[i]));
            es.lemma_filter_contains_rev(is_type_1(), f[i]);
            assert(es.contains(f[i]));
            let j = choose|j: int| 0 <= j < es.len() && es[j] == f[i];
            assert(memory_map(s).unwrap()[i] == (es[j].0, es[j].1));
            assert(es[j].2 == 1u32);
        }
    }
}

/// Appends to `out` the available regions of the memory-map tag at `off`; returns
/// false, `out` then left as it was, when the tag is malformed.
fn mmap_tag_regions(info: &[u8], off: usize, out: &mut Vec<(u64, u64)>) -> (ok: bool)
    requires
        off + 8 <= info.len(),
    ensures
        ok <==> mmap_entries(info@, off as int) is Some,
        ok ==> final(out)@ == old(out)@.add(available_of(mmap_entries(info@, off as int).unwrap())),
        !ok ==> final(out)@ == old(out)@,
{
    let tag_size = read_u32(info, off + 4);
    if tag_size < 16 || info.len() - off < 16 {
        return false;
    }
    let entry_size = read_u32(info, off + 8);
    let limit: u32 = tag_size - 16;
    let mut read: u32 = 0;
    let mut found: Vec<(u64, u64)> = Vec::new();
    let ghost whole = mmap_from(info@, off as int, entry_size, limit as int, 0);
    let ghost mut acc: Seq<(u64, u64, u32)> = Seq::empty();
    while read < limit
        invariant
            off + 16 <= info@.len(),
            limit == le_u32(info@, off as int + 4) - 16,
            entry_size == le_u32(info@, off as int + 8),
            whole == mmap_from(info@, off as int, entry_size, limit as int, 0),
            whole == match mmap_from(info@, off as int, entry_size, limit as int, read as int) {
                Some(rest) => Some(acc.add(rest)),
                None => None,
            },
            found@ == available_of(acc),
        decreases limit - read,
    {
        if entry_size == 0 || info.len() - off - 16 < read as usize || info.len() - off - 16 - (read as usize) < 20 {
            return false;
        }
        let e = off + 16 + read as usize;
        let base = read_u64(info, e);
        let length = read_u64(info, e + 8);
        let ty = read_u32(info, e + 16);
        let ghost entry = (base, length, ty);
        proof {
            match mmap_from(info@, off as int, entry_size, limit as int, read as int + entry_size) {
                Some(rest) => {
                    assert(acc.add(seq![entry].add(rest)) =~= acc.push(entry).add(rest));
                },
                None => {},
            }
            assert(acc.push(entry).drop_last() =~= acc);
            acc = acc.push(entry);
        }
        if ty == MEMORY_AVAILABLE {
            found.push((base, length));
        }
        assert(found@ =~= available_of(acc));
        let next: u64 = read as u64 + entry_size as u64;
        if next >= limit as u64 {
            proof {
                assert(mmap_from(info@, off as int, entry_size, limit as int, next as int) == Some(Seq::<(u64, u64, u32)>::empty()));
                assert(mmap_from(info@, off as int, entry_size, limit as int, limit as int) == Some(Seq::<(u64, u64, u32)>::empty()));
            }
            read = limit;
        } else {
            read = next as u32;
        }
    }
    proof {
        assert(acc.add(Seq::<(u64, u64, u32)>::empty()) =~= acc);
    }
    let ghost before = out@;
    let mut i: usize = 0;
    while i < found.len()
        invariant
            i <= found@.len(),
            out@ == before.add(found@.subrange(0, i as int)),
        decreases found@.len() - i,
    {
        out.push(found[i]);
        assert(found@.subrange(0, i + 1) =~= found@.subrange(0, i as int).push(found@[i as int]));
        i = i + 1;
    }
    assert(found@.subrange(0, found@.len() as int) =~= found@);
    true
}

/// The regions of usable RAM `(base, length)` that the memory-map tags of the
/// information structure `info` list, in the order listed; `None` when the
/// structure or one of its memory maps is malformed.
pub fn memory_regions(info: &[u8]) -> (r: Option<Vec<(u64, u64)>>)
    ensures
        match r {
            Some(v) => memory_map(info@) == Some(v@),
            None => memory_map(info@) is None,
        },
        r is None <==> all_map_entries(info@) is None,
        r matches Some(v) ==> all_map_entries(info@) matches Some(es) && v@ == type_1_regions(es),
{
    proof {
        law_memory_map_is_type_1_entries(info@);
    }
    let tags = match tag_offsets(info) {
        Some(t) => t,
        None => return None,
    };
    let ghost tseq = tags@.map_values(|o: usize| o as int);
    proof {
        lemma_tag_walk_bounds(info@, FIRST_TAG as int);
    }
    let mut out: Vec<(u64, u64)> = Vec::new();
    let mut i: usize = 0;
    while i < tags.len()
        invariant
            i <= tags@.len(),
            tseq == tags@.map_values(|o: usize| o as int),
            tag_walk(info@, FIRST_TAG as int) == Some(tseq),
            available_regions(info@, tseq.subrange(0, i as int)) == Some(out@),
            forall|k: int| 0 <= k < tseq.len() ==> tseq[k] + 8 <= info@.len(),
        decreases tags@.len() - i,
    {
        let off = tags[i];
        assert(tseq.subrange(0, i + 1).drop_last() =~= tseq.subrange(0, i as int));
        assert(tseq.subrange(0, i + 1).last() == off as int);
        let ty = read_u32(info, off);
        if ty == TAG_MEMORY_MAP {
            if !mmap_tag_regions(info, off, &mut out) {
                proof {
                    lemma_regions_none_extends(info@, tseq, i as int + 1);
                    law_memory_map_is_type_1_entries(info@);
                }
                return None;
            }
        } else {
            assert(out@.add(Seq::<(u64, u64)>::empty()) =~= out@);
        }
        i = i + 1;
    }
    assert(tseq.subrange(0, tseq.len() as int) =~= tseq);
    proof {
        law_memory_map_is_type_1_entries(info@);
    }
    Some(out)
}

pub proof fn lemma_tag_walk_bounds(s: Seq<u8>, off: int)
    requires
        tag_walk(s, off) is Some,
    ensures
        forall|k: int|
            0 <= k < tag_walk(s, off).unwrap().len() ==> 0 <= #[trigger] tag_walk(s, off).unwrap()[k]
                && tag_walk(s, off).unwrap()[k] + 8 <= s.len(),
    decreases s.len() - off,
{
    if off < 0 || off + 8 > s.len() {
    } else if le_u32(s, off) == TAG_END {
    } else if le_u32(s, off + 4) < 8 || off + padded(le_u32(s, off + 4)) > s.len() {
    } else {
        let next = off + padded(le_u32(s, off + 4));
        lemma_tag_walk_bounds(s, next);
        let t = tag_walk(s, off).unwrap();
        let r = tag_walk(s, next).unwrap();
        assert forall|k: int| 0 <= k < t.len() implies 0 <= #[trigger] t[k] && t[k] + 8 <= s.len() by {
            if k > 0 {
                assert(t[k] == r[k - 1]);
            }
        }
    }
}

proof fn lemma_regions_none_extends(s: Seq<u8>, tags: Seq<int>, n: int)
    requires
        0 < n <= tags.len(),
        available_regions(s, tags.subrange(0, n)) is None,
    ensures
        available_regions(s, tags) is None,
    decreases tags.len() - n,
{
    if n < tags.len() {
        assert(tags.subrange(0, n + 1).drop_last() =~= tags.subrange(0, n));
        lemma_regions_none_extends(s, tags, n + 1);
    } else {
        assert(tags.subrange(0, n) =~= tags);
    }
}

} // verus!
