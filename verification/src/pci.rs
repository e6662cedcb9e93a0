use vstd::prelude::*;

verus! {

/// Configuration-space address and data ports.
pub const CONFIG_ADDRESS: u16 = 0xCF8;
pub const CONFIG_DATA: u16 = 0xCFC;

/// The value written to `CONFIG_ADDRESS` to read the dword at `offset` of a
/// function: the enable bit, bus, device, function and the dword-aligned offset.
pub open spec fn config_address_spec(bus: u8, device: u8, function: u8, offset: u8) -> u32 {
    (0x8000_0000u32 | ((bus as u32) << 16u32) | ((device as u32) << 11u32) | ((function as u32) << 8u32) | ((offset as u32)
        & 0xFCu32)) as u32
}

/// The configuration address of a dword, as `config_address_spec` says.
pub fn config_address(bus: u8, device: u8, function: u8, offset: u8) -> (r: u32)
    ensures
        r == config_address_spec(bus, device, function, offset),
{
    assert(1u32 << 31u32 == 0x8000_0000u32) by (bit_vector);
    (1u32 << 31u32) | ((bus as u32) << 16u32) | ((device as u32) << 11u32) | ((function as u32) << 8u32) | ((offset as u32)
        & 0xFC)
}

/// Vendor and device ID from the first configuration dword: its low and high halves.
pub fn vendor_device(id_dword: u32) -> (r: (u16, u16))
    ensures
        r.0 == id_dword & 0xFFFF,
        r.1 == id_dword >> 16u32,
{
    assert(id_dword >> 16u32 <= 0xFFFF && id_dword & 0xFFFFu32 <= 0xFFFF) by (bit_vector);
    ((id_dword & 0xFFFF) as u16, (id_dword >> 16u32) as u16)
}

/// Class, subclass and programming interface from the configuration dword at 0x08.
pub fn class_info(class_dword: u32) -> (r: (u8, u8, u8))
    ensures
        r.0 == class_dword >> 24u32,
        r.1 == (class_dword >> 16u32) & 0xFF,
        r.2 == (class_dword >> 8u32) & 0xFF,
{
    assert(class_dword >> 24u32 <= 0xFF && (class_dword >> 16u32) & 0xFFu32 <= 0xFF && (class_dword >> 8u32) & 0xFFu32 <= 0xFF)
        by (bit_vector);
    ((class_dword >> 24u32) as u8, ((class_dword >> 16u32) & 0xFF) as u8, ((class_dword >> 8u32) & 0xFF) as u8)
}

/// Configuration offset of base address register `n`.
pub fn bar_offset(n: u8) -> (r: u8)
    requires
        n < 6,
    ensures
        r == 0x10 + n * 4,
{
    0x10 + n * 4
}

/// A present PCI function as the bus scan reads it.
#[derive(Debug, Clone, Copy, PartialEq, Eq, Structural)]
pub struct PciFunction {
    pub bus: u8,
    pub device: u8,
    pub function: u8,
    pub vendor: u16,
    pub device_id: u16,
    pub class: u8,
    pub subclass: u8,
    pub prog_if: u8,
    pub bar0: u32,
    pub bar1: u32,
}

/// What a find request asks for: a class, a subclass and an interface (0xFF for
/// any), and which of the matches.
pub open spec fn find_matches(f: PciFunction, class: u8, subclass: u8, prog_if: u8) -> bool {
    &&& f.vendor != 0xFFFF
    &&& f.class == class
    &&& (subclass == 0xFF || f.subclass == subclass)
    &&& (prog_if == 0xFF || f.prog_if == prog_if)
}

/// Indices of the functions of `fs` that match, in scan order.
pub open spec fn match_indices(fs: Seq<PciFunction>, class: u8, subclass: u8, prog_if: u8) -> Seq<int>
    decreases fs.len(),
{
    if fs.len() == 0 {
        Seq::empty()
    } else {
        let rest = match_indices(fs.drop_last(), class, subclass, prog_if);
        if find_matches(fs.last(), class, subclass, prog_if) {
            rest.push(fs.len() - 1)
        } else {
            rest
        }
    }
}

pub open spec fn le16(v: u16) -> Seq<u8> {
    seq![(v & 0xFF) as u8, (v >> 8u16) as u8]
}

pub open spec fn le32(v: u32) -> Seq<u8> {
    seq![(v & 0xFF) as u8, ((v >> 8u32) & 0xFF) as u8, ((v >> 16u32) & 0xFF) as u8, (v >> 24u32) as u8]
}

/// The reply that reports function `f`.
pub open spec fn found_reply(f: PciFunction) -> Seq<u8> {
    seq![1u8, f.bus, f.device, f.function] + le16(f.vendor) + le16(f.device_id) + seq![f.class, f.subclass, f.prog_if, 0u8]
        + le32(f.bar0) + le32(f.bar1)
}

/// The interface a request asks for: byte 3, or any when the request is shorter.
pub open spec fn want_prog_if(req: Seq<u8>) -> u8 {
    if req.len() > 3 { req[3] } else { 0xFF }
}

/// Which match a request asks for: byte 4, or the first when it is shorter.
pub open spec fn want_index(req: Seq<u8>) -> u8 {
    if req.len() > 4 { req[4] } else { 0 }
}

pub fn le16_bytes(v: u16) -> (r: [u8; 2])
    ensures
        r@ == le16(v),
{
    let r = [(v & 0xFF) as u8, (v >> 8u16) as u8];
    assert(r@ =~= le16(v));
    r
}

pub fn le32_bytes(v: u32) -> (r: [u8; 4])
    ensures
        r@ == le32(v),
{
    let r = [(v & 0xFF) as u8, ((v >> 8u32) & 0xFF) as u8, ((v >> 16u32) & 0xFF) as u8, (v >> 24u32) as u8];
    assert(r@ =~= le32(v));
    r
}

/// Answers a find request over the functions a bus scan found, in scan order:
/// the `want_index`-th function whose vendor is present and whose class, subclass
/// and interface match gets a reply of twenty bytes; no such function gives the
/// single byte 0. The request holds at least the class and subclass.
pub fn on_find(req: &[u8], functions: &[PciFunction]) -> (reply: Vec<u8>)
    requires
        req.len() >= 3,
    ensures
        ({
            let m = match_indices(functions@, req@[1], req@[2], want_prog_if(req@));
            &&& (want_index(req@) < m.len() ==> reply@ == found_reply(functions@[m[want_index(req@) as int]]))
            &&& (want_index(req@) >= m.len() ==> reply@ == seq![0u8])
        }),
{
    let class = req[1];
    let subclass = req[2];
    let prog_if: u8 = if req.len() > 3 { req[3] } else { 0xFF };
    let want: u8 = if req.len() > 4 { req[4] } else { 0 };
    let mut seen: u8 = 0;
    let mut k: usize = 0;
    while k < functions.len()
        invariant
            k <= functions.len(),
            prog_if == want_prog_if(req@),
            want == want_index(req@),
            class == req@[1],
            subclass == req@[2],
            seen <= want,
            match_indices(functions@.subrange(0, k as int), class, subclass, prog_if).len() == seen,
        decreases functions.len() - k,
    {
        let f = functions[k];
        let ghost pre = functions@.subrange(0, k as int);
        proof {
            assert(functions@.subrange(0, k + 1).drop_last() =~= pre);
            assert(functions@.subrange(0, k + 1).last() == f);
        }
        if f.vendor != 0xFFFF && f.class == class && (subclass == 0xFF || f.subclass == subclass) && (prog_if == 0xFF
            || f.prog_if == prog_if) {
            if seen == want {
                proof {
                    let m = match_indices(functions@, class, subclass, prog_if);
                    lemma_match_prefix(functions@, class, subclass, prog_if, k as int + 1);
                    assert(match_indices(functions@.subrange(0, k + 1), class, subclass, prog_if) == match_indices(pre, class, subclass, prog_if).push(k as int));
                }
                let mut r: Vec<u8> = Vec::new();
                r.push(1);
                r.push(f.bus);
                r.push(f.device);
                r.push(f.function);
                let v = le16_bytes(f.vendor);
                r.push(v[0]);
                r.push(v[1]);
                let d = le16_bytes(f.device_id);
                r.push(d[0]);
                r.push(d[1]);
                r.push(f.class);
                r.push(f.subclass);
                r.push(f.prog_if);
                r.push(0);
                let b0 = le32_bytes(f.bar0);
                r.push(b0[0]);
                r.push(b0[1]);
                r.push(b0[2]);
                r.push(b0[3]);
                let b1 = le32_bytes(f.bar1);
                r.push(b1[0]);
                r.push(b1[1]);
                r.push(b1[2]);
                r.push(b1[3]);
                assert(r@ =~= found_reply(f));
                return r;
            }
            seen = seen + 1;
        }
        k = k + 1;
    }
    proof {
        assert(functions@.subrange(0, functions.len() as int) =~= functions@);
    }
    let mut r: Vec<u8> = Vec::new();
    r.push(0);
    assert(r@ =~= seq![0u8]);
    r
}

/// The matches among the first `n` functions are the first matches of all of them.
pub proof fn lemma_match_prefix(fs: Seq<PciFunction>, class: u8, subclass: u8, prog_if: u8, n: int)
    requires
        0 <= n <= fs.len(),
    ensures
        match_indices(fs.subrange(0, n), class, subclass, prog_if).len() <= match_indices(fs, class, subclass, prog_if).len(),
        forall|j: int| 0 <= j < match_indices(fs.subrange(0, n), class, subclass, prog_if).len()
            ==> #[trigger] match_indices(fs, class, subclass, prog_if)[j] == match_indices(fs.subrange(0, n), class, subclass, prog_if)[j],
    decreases fs.len() - n,
{
    if n < fs.len() {
        lemma_match_prefix(fs, class, subclass, prog_if, n + 1);
        assert(fs.subrange(0, n + 1).drop_last() =~= fs.subrange(0, n));
    } else {
        assert(fs.subrange(0, n) =~= fs);
    }
}

/// What a find reply reports: nothing when its first byte is 0, else the
/// function whose fields it carries (see `found_reply`).
pub open spec fn parse_find_reply_spec(out: Seq<u8>) -> Option<PciFunction> {
    if out[0] == 0 {
        None
    } else {
        Some(
            PciFunction {
                bus: out[1],
                device: out[2],
                function: out[3],
                vendor: crate::elf::le_u16(out, 4),
                device_id: crate::elf::le_u16(out, 6),
                class: out[8],
                subclass: out[9],
                prog_if: out[10],
                bar0: crate::multiboot::le_u32(out, 12),
                bar1: crate::multiboot::le_u32(out, 16),
            },
        )
    }
}

/// Reads a find reply, as `parse_find_reply_spec` says.
pub fn parse_find_reply(out: &[u8]) -> (r: Option<PciFunction>)
    requires
        out.len() >= 20,
    ensures
        r == parse_find_reply_spec(out@),
{
    if out[0] == 0 {
        return None;
    }
    Some(
        PciFunction {
            bus: out[1],
            device: out[2],
            function: out[3],
            vendor: ((out[4] as u16) | ((out[5] as u16) << 8u16)) as u16,
            device_id: ((out[6] as u16) | ((out[7] as u16) << 8u16)) as u16,
            class: out[8],
            subclass: out[9],
            prog_if: out[10],
            bar0: crate::multiboot::read_u32(out, 12),
            bar1: crate::multiboot::read_u32(out, 16),
        },
    )
}

/// A client reads back what the driver reports: the reply for function `f`,
/// read as a find reply, gives `f`.
pub proof fn law_find_reply_round_trip(f: PciFunction)
    ensures
        parse_find_reply_spec(found_reply(f)) == Some(f),
{
    let r = found_reply(f);
    let (v, d, b0, b1) = (f.vendor, f.device_id, f.bar0, f.bar1);
    assert((((v & 0xFF) as u8 as u16) | (((v >> 8u16) as u8 as u16) << 8u16)) == v && (((d & 0xFF) as u8 as u16) | (((d
        >> 8u16) as u8 as u16) << 8u16)) == d) by (bit_vector);
    assert(r[4] == (v & 0xFF) as u8 && r[5] == (v >> 8u16) as u8);
    assert(r[6] == (d & 0xFF) as u8 && r[7] == (d >> 8u16) as u8);
    crate::libsys::lemma_le_bytes_u32(b0);
    crate::libsys::lemma_le_bytes_u32(b1);
    let e0 = crate::vfs::le_bytes_u32(b0);
    let e1 = crate::vfs::le_bytes_u32(b1);
    assert(r[12] == e0[0] && r[13] == e0[1] && r[14] == e0[2] && r[15] == e0[3]);
    assert(r[16] == e1[0] && r[17] == e1[1] && r[18] == e1[2] && r[19] == e1[3]);
    assert(crate::multiboot::le_u32(r, 12) == crate::multiboot::le_u32(e0, 0));
    assert(crate::multiboot::le_u32(r, 16) == crate::multiboot::le_u32(e1, 0));
}

} // verus!
