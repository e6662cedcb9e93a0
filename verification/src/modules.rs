use vstd::prelude::*;
use crate::multiboot::{le_u32, read_u32, tag_offsets, tag_walk, FIRST_TAG, TAG_MODULE};
use crate::pmm::PAGE_SIZE;

verus! {

/// Boot modules the kernel keeps track of.
pub const MAX_MODULES: usize = 4;

/// The modules `[start, end)` the tags at `tags` describe, in order: at most
/// `MAX_MODULES`, empty ones left out. `None` when a module tag is cut off by the
/// end of `s`.
pub open spec fn module_list(s: Seq<u8>, tags: Seq<int>) -> Option<Seq<(u64, u64)>>
    decreases tags.len(),
{
    if tags.len() == 0 {
        Some(Seq::empty())
    } else {
        match module_list(s, tags.drop_last()) {
            None => None,
            Some(ms) => {
                let off = tags.last();
                if le_u32(s, off) != TAG_MODULE {
                    Some(ms)
                } else if off + 16 > s.len() {
                    None
                } else {
                    let start = le_u32(s, off + 8) as u64;
                    let end = le_u32(s, off + 12) as u64;
                    if ms.len() < MAX_MODULES && end > start {
                        Some(ms.push((start, end)))
                    } else {
                        Some(ms)
                    }
                }
            },
        }
    }
}

/// The modules the information structure `s` lists; `None` when it is malformed.
pub open spec fn modules_of(s: Seq<u8>) -> Option<Seq<(u64, u64)>> {
    match tag_walk(s, FIRST_TAG as int) {
        None => None,
        Some(tags) => module_list(s, tags),
    }
}

/// `[start, end)` widened to whole pages.
pub open spec fn page_span(m: (u64, u64)) -> (int, int) {
    ((m.0 as int / 4096) * 4096, ((m.1 as int + 4095) / 4096) * 4096)
}

/// Whether `[base, base + size)` meets a page of module `m`.
pub open spec fn meets(m: (u64, u64), base: u64, size: u64) -> bool {
    base < page_span(m).1 && page_span(m).0 < base + size
}

/// The boot modules, each as `(start, end)`.
pub struct Modules {
    mods: Vec<(u64, u64)>,
}

impl Modules {
    pub closed spec fn view(&self) -> Seq<(u64, u64)> {
        self.mods@
    }

    pub closed spec fn wf(&self) -> bool {
        &&& self.mods@.len() <= MAX_MODULES
        &&& forall|i: int| 0 <= i < self.mods@.len() ==> (#[trigger] self.mods@[i]).0 < self.mods@[i].1
        &&& forall|i: int| 0 <= i < self.mods@.len() ==> (#[trigger] self.mods@[i]).1 <= u32::MAX
    }

    /// No module.
    pub fn new() -> (r: Self)
        ensures
            r.wf(),
            r@ == Seq::<(u64, u64)>::empty(),
    {
        Modules { mods: Vec::new() }
    }

    /// The modules of the information structure `info`; `None` when it is
    /// malformed.
    pub fn init(info: &[u8]) -> (r: Option<Self>)
        ensures
            match r {
                Some(m) => m.wf() && modules_of(info@) == Some(m@),
                None => modules_of(info@) is None,
            },
    {
        let tags = match tag_offsets(info) {
            None => return None,
            Some(t) => t,
        };
        let ghost ts = tags@.map_values(|o: usize| o as int);
        proof {
            crate::multiboot::lemma_tag_walk_bounds(info@, FIRST_TAG as int);
        }
        let mut mods: Vec<(u64, u64)> = Vec::new();
        let mut k: usize = 0;
        while k < tags.len()
            invariant
                k <= tags.len(),
                ts == tags@.map_values(|o: usize| o as int),
                tag_walk(info@, FIRST_TAG as int) == Some(ts),
                forall|j: int| 0 <= j < ts.len() ==> 0 <= #[trigger] ts[j] && ts[j] + 8 <= info@.len(),
                module_list(info@, ts.subrange(0, k as int)) == Some(mods@),
                mods@.len() <= MAX_MODULES,
                forall|i: int| 0 <= i < mods@.len() ==> (#[trigger] mods@[i]).0 < mods@[i].1,
                forall|i: int| 0 <= i < mods@.len() ==> (#[trigger] mods@[i]).1 <= u32::MAX,
            decreases tags.len() - k,
        {
            let off = tags[k];
            proof {
                assert(ts.subrange(0, k + 1).drop_last() =~= ts.subrange(0, k as int));
                assert(ts[k as int] == off as int);
            }
            if read_u32(info, off) == TAG_MODULE {
                if info.len() - off < 16 {
                    proof {
                        lemma_module_list_none_extends(info@, ts, k as int + 1);
                    }
                    return None;
                }
                let start = read_u32(info, off + 8) as u64;
                let end = read_u32(info, off + 12) as u64;
                if mods.len() < MAX_MODULES && end > start {
                    mods.push((start, end));
                }
            }
            k = k + 1;
        }
        proof {
            assert(ts.subrange(0, tags.len() as int) =~= ts);
        }
        Some(Modules { mods })
    }

    /// Number of modules.
    pub fn count(&self) -> (r: usize)
        ensures
            r == self@.len(),
    {
        self.mods.len()
    }

    /// Module `idx` as `(start, size)`; `None` past the last one.
    pub fn get(&self, idx: usize) -> (r: Option<(u64, u64)>)
        requires
            self.wf(),
        ensures
            idx >= self@.len() ==> r is None,
            idx < self@.len() ==> r == Some((self@[idx as int].0, (self@[idx as int].1 - self@[idx as int].0) as u64)),
            idx < self@.len() ==> r.unwrap().1 > 0,
    {
        if idx >= self.mods.len() {
            return None;
        }
        let (start, end) = self.mods[idx];
        Some((start, end - start))
    }

    /// Whether `[base, base + size)` meets a page that a module occupies.
    pub fn overlaps(&self, base: u64, size: u64) -> (r: bool)
        requires
            self.wf(),
            base + size <= u64::MAX,
        ensures
            r == exists|i: int| 0 <= i < self@.len() && meets(#[trigger] self@[i], base, size),
    {
        let mut i: usize = 0;
        while i < self.mods.len()
            invariant
                self.wf(),
                base + size <= u64::MAX,
                i <= self@.len(),
                forall|j: int| 0 <= j < i ==> !meets(#[trigger] self@[j], base, size),
            decreases self@.len() - i,
        {
            let (s, e) = self.mods[i];
            let start = s & !(PAGE_SIZE - 1);
            let end = (e + PAGE_SIZE - 1) & !(PAGE_SIZE - 1);
            proof {
                lemma_page_mask(s, e);
            }
            if base < end && start < base + size {
                assert(meets(self@[i as int], base, size));
                return true;
            }
            i = i + 1;
        }
        false
    }
}

pub proof fn lemma_page_mask(s: u64, e: u64)
    requires
        e <= u32::MAX,
    ensures
        (s & !0xFFFu64) == (s as int / 4096) * 4096,
        ((e + 0xFFFu64) as u64 & !0xFFFu64) == ((e as int + 4095) / 4096) * 4096,
{
    assert((s & !0xFFFu64) == s - s % 4096) by (bit_vector);
    assert(e <= 0xFFFF_FFFFu64 ==> (((e + 0xFFFu64) as u64) & !0xFFFu64) == (e + 0xFFFu64) - (e + 0xFFFu64) % 4096) by (bit_vector);
}

pub proof fn lemma_module_list_none_extends(s: Seq<u8>, tags: Seq<int>, n: int)
    requires
        0 < n <= tags.len(),
        module_list(s, tags.subrange(0, n - 1)) is Some,
        le_u32(s, tags[n - 1]) == TAG_MODULE,
        tags[n - 1] + 16 > s.len(),
    ensures
        module_list(s, tags) is None,
    decreases tags.len() - n,
{
    assert(tags.subrange(0, n).drop_last() =~= tags.subrange(0, n - 1));
    assert(module_list(s, tags.subrange(0, n)) is None);
    lemma_module_list_none_from(s, tags, n);
}

proof fn lemma_module_list_none_from(s: Seq<u8>, tags: Seq<int>, n: int)
    requires
        0 <= n <= tags.len(),
        module_list(s, tags.subrange(0, n)) is None,
    ensures
        module_list(s, tags) is None,
    decreases tags.len() - n,
{
    if n < tags.len() {
        assert(tags.subrange(0, n + 1).drop_last() =~= tags.subrange(0, n));
        lemma_module_list_none_from(s, tags, n + 1);
    } else {
        assert(tags.subrange(0, n) =~= tags);
    }
}

} // verus!
