//! The address space of a task: virtual addresses and pages, the page
//! table (which page is mapped, with which flags) and the areas that were
//! mapped into it.
use vstd::prelude::*;
use crate::config::PAGE_SIZE;

verus! {

/// Number of bits of a virtual address under Sv39.
pub const VA_WIDTH_SV39: usize = 39;
/// The bits of a virtual address that Sv39 keeps.
pub const VA_MASK: u64 = 0x7f_ffff_ffff;

/// Page table entry flag: valid.
pub const PTE_V: u8 = 1;
/// Map permission and page table entry flag: readable.
pub const PERM_R: u8 = 2;
/// Map permission and page table entry flag: writable.
pub const PERM_W: u8 = 4;
/// Map permission and page table entry flag: executable.
pub const PERM_X: u8 = 8;
/// Map permission and page table entry flag: accessible from user mode.
pub const PERM_U: u8 = 16;

/// A virtual address.
#[derive(PartialEq, Eq, Structural, Clone, Copy, Debug)]
pub struct VirtAddr(pub usize);

/// The Sv39 address of `v`: its low 39 bits.
pub open spec fn sv39(v: int) -> usize {
    (v % 0x80_0000_0000int) as usize
}

/// The page that holds address `va`.
pub open spec fn floor_spec(va: usize) -> int {
    va as int / PAGE_SIZE as int
}

/// The first page at or above address `va`.
pub open spec fn ceil_spec(va: usize) -> int {
    if va == 0 {
        0
    } else {
        (va as int - 1) / PAGE_SIZE as int + 1
    }
}

impl VirtAddr {
    /// The Sv39 virtual address of `v`: its low 39 bits.
    pub fn from_usize(v: usize) -> (r: VirtAddr)
        ensures
            r.0 == sv39(v as int),
            r.0 < 0x80_0000_0000int,
    {
        let w = v as u64;
        let m = w & VA_MASK;
        assert(m == w % 0x80_0000_0000 && m <= w) by (bit_vector)
            requires
                m == w & 0x7f_ffff_ffffu64,
        ;
        VirtAddr(m as usize)
    }

    /// Number of the page that holds the address.
    pub fn floor(&self) -> (r: usize)
        ensures
            r == floor_spec(self.0),
    {
        self.0 / PAGE_SIZE
    }

    /// Number of the first page at or above the address.
    pub fn ceil(&self) -> (r: usize)
        ensures
            r == ceil_spec(self.0),
    {
        if self.0 == 0 {
            0
        } else {
            (self.0 - 1) / PAGE_SIZE + 1
        }
    }

    /// The address is the start of a page.
    pub fn aligned(&self) -> (r: bool)
        ensures
            r == (self.0 % PAGE_SIZE == 0),
    {
        self.0 % PAGE_SIZE == 0
    }
}

/// One page table entry: a page, its frame and its flags.
#[derive(PartialEq, Eq, Structural, Clone, Copy, Debug)]
pub struct PageEntry {
    pub vpn: usize,
    pub ppn: usize,
    pub flags: u8,
}

/// A range of pages mapped with the same permission.
#[derive(PartialEq, Eq, Structural, Clone, Copy, Debug)]
pub struct MapArea {
    pub start_vpn: usize,
    pub end_vpn: usize,
    pub perm: u8,
}

/// Index of the first area of `s`, from `i` on, that starts at page `vpn`.
pub open spec fn area_from(s: Seq<MapArea>, vpn: int, i: int) -> Option<int>
    decreases s.len() - i,
{
    if i < 0 || i >= s.len() {
        None
    } else if s[i].start_vpn == vpn {
        Some(i)
    } else {
        area_from(s, vpn, i + 1)
    }
}

/// Index of the first area that starts at page `vpn`.
pub open spec fn area_starting_at(s: Seq<MapArea>, vpn: int) -> Option<int> {
    area_from(s, vpn, 0)
}

/// An area found from `i` lies in the list and starts at the page.
pub proof fn lemma_area_from_in_range(s: Seq<MapArea>, vpn: int, i: int)
    ensures
        area_from(s, vpn, i) matches Some(k) ==> i <= k < s.len() && s[k].start_vpn == vpn,
    decreases s.len() - i,
{
    if 0 <= i < s.len() && s[i].start_vpn != vpn {
        lemma_area_from_in_range(s, vpn, i + 1);
    }
}

/// Every page in `[lo, hi)` is mapped in `pages`.
pub open spec fn all_mapped(pages: Map<usize, u8>, lo: int, hi: int) -> bool {
    forall|v: usize| lo <= v < hi ==> #[trigger] pages.contains_key(v)
}

/// No page in `[lo, hi)` is mapped in `pages`.
pub open spec fn none_mapped(pages: Map<usize, u8>, lo: int, hi: int) -> bool {
    forall|v: usize| lo <= v < hi ==> !#[trigger] pages.contains_key(v)
}

/// `pages` with every page of `[lo, hi)` mapped with `flags`.
pub open spec fn map_range(pages: Map<usize, u8>, lo: int, hi: int, flags: u8) -> Map<usize, u8> {
    Map::new(
        |v: usize| pages.contains_key(v) || (lo <= v < hi),
        |v: usize| if lo <= v < hi { flags } else { pages[v] },
    )
}

/// `pages` with every page of `[lo, hi)` unmapped.
pub open spec fn unmap_range(pages: Map<usize, u8>, lo: int, hi: int) -> Map<usize, u8> {
    pages.restrict(pages.dom().filter(|v: usize| !(lo <= v < hi)))
}

/// The pool has frames for the pages of `[lo, hi)`, starting at `next`.
pub open spec fn frames_fit(next: usize, lo: int, hi: int) -> bool {
    hi <= lo || next + (hi - lo) <= usize::MAX
}

/// `frames` with each page `v` of `[lo, hi)` given frame `first + (v - lo)`.
pub open spec fn frame_range(frames: Map<usize, usize>, lo: int, hi: int, first: int) -> Map<usize, usize> {
    Map::new(
        |v: usize| frames.contains_key(v) || (lo <= v < hi),
        |v: usize| if lo <= v < hi { (first + (v - lo)) as usize } else { frames[v] },
    )
}

/// `frames` without the pages of `[lo, hi)`.
pub open spec fn unframe_range(frames: Map<usize, usize>, lo: int, hi: int) -> Map<usize, usize> {
    frames.restrict(frames.dom().filter(|v: usize| !(lo <= v < hi)))
}

/// An address space: its page table, its areas, and the pool its frames
/// come from.
pub struct MemorySet {
    /// Physical page number of the root of the page table.
    root_ppn: usize,
    page_table: Vec<PageEntry>,
    areas: Vec<MapArea>,
    /// The next frame the pool hands out.
    next_ppn: usize,
    pages: Ghost<Map<usize, u8>>,
    frames: Ghost<Map<usize, usize>>,
}

impl MemorySet {
    /// Physical page number of the root of the page table.
    pub closed spec fn root(&self) -> usize {
        self.root_ppn
    }

    /// The page table: the flags of each mapped page.
    pub closed spec fn page_map(&self) -> Map<usize, u8> {
        self.pages@
    }

    /// The page table: the frame of each mapped page.
    pub closed spec fn frame_map(&self) -> Map<usize, usize> {
        self.frames@
    }

    /// The frame that the next framed page gets.
    pub closed spec fn next_frame(&self) -> usize {
        self.next_ppn
    }

    /// The areas mapped into the space, in the order they were added.
    pub closed spec fn area_list(&self) -> Seq<MapArea> {
        self.areas@
    }

    /// The page table holds each page at most once and agrees with its
    /// views.
    pub closed spec fn wf(&self) -> bool {
        &&& forall|i: int, j: int|
            0 <= i < j < self.page_table@.len() ==> #[trigger] self.page_table@[i].vpn
                != #[trigger] self.page_table@[j].vpn
        &&& forall|i: int|
            0 <= i < self.page_table@.len() ==> self.pages@.contains_key(#[trigger] self.page_table@[i].vpn)
                && self.pages@[self.page_table@[i].vpn] == self.page_table@[i].flags
                && self.frames@.contains_key(self.page_table@[i].vpn)
                && self.frames@[self.page_table@[i].vpn] == self.page_table@[i].ppn
        &&& forall|v: usize|
            #[trigger] self.pages@.contains_key(v) ==> exists|i: int|
                0 <= i < self.page_table@.len() && #[trigger] self.page_table@[i].vpn == v
        &&& self.frames@.dom() == self.pages@.dom()
    }

    /// Exactly the mapped pages have frames.
    pub proof fn lemma_frames_cover_pages(&self)
        requires
            self.wf(),
        ensures
            self.frame_map().dom() == self.page_map().dom(),
    {
    }

    /// An empty address space whose page table root is `root_ppn` and whose
    /// frames are handed out from `first_ppn` on.
    pub fn new(root_ppn: usize, first_ppn: usize) -> (r: Self)
        ensures
            r.wf(),
            r.root() == root_ppn,
            r.page_map() == Map::<usize, u8>::empty(),
            r.frame_map() == Map::<usize, usize>::empty(),
            r.next_frame() == first_ppn,
            r.area_list() == Seq::<MapArea>::empty(),
    {
        MemorySet {
            root_ppn,
            page_table: Vec::new(),
            areas: Vec::new(),
            next_ppn: first_ppn,
            pages: Ghost(Map::empty()),
            frames: Ghost(Map::empty()),
        }
    }

    /// The value of the `satp` register that selects this space: Sv39 mode
    /// and the root page.
    pub fn token(&self) -> (r: usize)
        ensures
            r == (((8u64 << 60u64) as usize) | self.root()),
    {
        ((8u64 << 60u64) as usize) | self.root_ppn
    }

    /// Index of the entry for page `vpn`, if it is mapped.
    fn find_page(&self, vpn: usize) -> (r: Option<usize>)
        requires
            self.wf(),
        ensures
            r matches Some(i) ==> i < self.page_table@.len() && self.page_table@[i as int].vpn == vpn,
            r is Some <==> self.page_map().contains_key(vpn),
    {
        let mut i: usize = 0;
        while i < self.page_table.len()
            invariant
                self.wf(),
                i <= self.page_table@.len(),
                forall|k: int| 0 <= k < i ==> self.page_table@[k].vpn != vpn,
            decreases self.page_table@.len() - i,
        {
            if self.page_table[i].vpn == vpn {
                return Some(i);
            }
            i += 1;
        }
        None
    }

    /// The flags of page `vpn`, if it is mapped.
    pub fn translate(&self, vpn: usize) -> (r: Option<u8>)
        requires
            self.wf(),
        ensures
            r == (if self.page_map().contains_key(vpn) {
                Some(self.page_map()[vpn])
            } else {
                None
            }),
    {
        match self.find_page(vpn) {
            Some(i) => Some(self.page_table[i].flags),
            None => None,
        }
    }

    /// The frame of page `vpn`, if it is mapped.
    pub fn frame_of(&self, vpn: usize) -> (r: Option<usize>)
        requires
            self.wf(),
        ensures
            r == (if self.frame_map().contains_key(vpn) {
                Some(self.frame_map()[vpn])
            } else {
                None
            }),
    {
        match self.find_page(vpn) {
            Some(i) => Some(self.page_table[i].ppn),
            None => {
                assert(!self.frames@.contains_key(vpn));
                None
            },
        }
    }

    /// Maps page `vpn` to frame `ppn` with `flags`.
    fn map_one(&mut self, vpn: usize, ppn: usize, flags: u8)
        requires
            old(self).wf(),
            !old(self).page_map().contains_key(vpn),
        ensures
            final(self).wf(),
            final(self).page_map() == old(self).page_map().insert(vpn, flags),
            final(self).frame_map() == old(self).frame_map().insert(vpn, ppn),
            final(self).next_frame() == old(self).next_frame(),
            final(self).area_list() == old(self).area_list(),
            final(self).root() == old(self).root(),
    {
        let ghost old_pt = self.page_table@;
        self.page_table.push(PageEntry { vpn, ppn, flags });
        self.pages = Ghost(self.pages@.insert(vpn, flags));
        self.frames = Ghost(self.frames@.insert(vpn, ppn));
        proof {
            assert forall|v: usize| #[trigger] self.pages@.contains_key(v) implies exists|i: int|
                0 <= i < self.page_table@.len() && #[trigger] self.page_table@[i].vpn == v by {
                if v == vpn {
                    assert(self.page_table@[old_pt.len() as int].vpn == v);
                } else {
                    assert(old(self).pages@.contains_key(v));
                    let i = choose|i: int| 0 <= i < old_pt.len() && #[trigger] old_pt[i].vpn == v;
                    assert(self.page_table@[i].vpn == v);
                }
            }
            assert forall|i: int, j: int|
                0 <= i < j < self.page_table@.len() implies #[trigger] self.page_table@[i].vpn
                != #[trigger] self.page_table@[j].vpn by {
                if j == old_pt.len() {
                    assert(old(self).pages@.contains_key(old_pt[i].vpn));
                }
            }
            assert(self.frames@.dom() =~= self.pages@.dom());
        }
    }

    /// Unmaps page `vpn`.
    fn unmap_one(&mut self, vpn: usize)
        requires
            old(self).wf(),
            old(self).page_map().contains_key(vpn),
        ensures
            final(self).wf(),
            final(self).page_map() == old(self).page_map().remove(vpn),
            final(self).frame_map() == old(self).frame_map().remove(vpn),
            final(self).next_frame() == old(self).next_frame(),
            final(self).area_list() == old(self).area_list(),
            final(self).root() == old(self).root(),
    {
        let idx = match self.find_page(vpn) {
            Some(i) => i,
            None => {
                return ;
            },
        };
        let ghost old_pt = self.page_table@;
        self.page_table.remove(idx);
        self.pages = Ghost(self.pages@.remove(vpn));
        self.frames = Ghost(self.frames@.remove(vpn));
        proof {
            assert forall|v: usize| #[trigger] self.pages@.contains_key(v) implies exists|i: int|
                0 <= i < self.page_table@.len() && #[trigger] self.page_table@[i].vpn == v by {
                let i = choose|i: int| 0 <= i < old_pt.len() && #[trigger] old_pt[i].vpn == v;
                if i < idx {
                    assert(self.page_table@[i].vpn == v);
                } else {
                    assert(i != idx);
                    assert(self.page_table@[i - 1].vpn == v);
                }
            }
            assert forall|i: int|
                0 <= i < self.page_table@.len() implies self.pages@.contains_key(
                #[trigger] self.page_table@[i].vpn,
            ) && self.pages@[self.page_table@[i].vpn] == self.page_table@[i].flags
                && self.frames@.contains_key(self.page_table@[i].vpn)
                && self.frames@[self.page_table@[i].vpn] == self.page_table@[i].ppn by {
                if i < idx {
                    assert(self.page_table@[i] == old_pt[i]);
                } else {
                    assert(self.page_table@[i] == old_pt[i + 1]);
                }
            }
            assert forall|i: int, j: int|
                0 <= i < j < self.page_table@.len() implies #[trigger] self.page_table@[i].vpn
                != #[trigger] self.page_table@[j].vpn by {
                let oi = if i < idx { i } else { i + 1 };
                let oj = if j < idx { j } else { j + 1 };
                assert(self.page_table@[i] == old_pt[oi]);
                assert(self.page_table@[j] == old_pt[oj]);
            }
            assert(self.frames@.dom() =~= self.pages@.dom());
        }
    }

    /// Maps page `vpn` with `flags` to the next frame of the pool.
    fn map_framed(&mut self, vpn: usize, flags: u8)
        requires
            old(self).wf(),
            !old(self).page_map().contains_key(vpn),
            old(self).next_frame() < usize::MAX,
        ensures
            final(self).wf(),
            final(self).page_map() == old(self).page_map().insert(vpn, flags),
            final(self).frame_map() == old(self).frame_map().insert(vpn, old(self).next_frame()),
            final(self).next_frame() == old(self).next_frame() + 1,
            final(self).area_list() == old(self).area_list(),
            final(self).root() == old(self).root(),
    {
        let ppn = self.next_ppn;
        self.map_one(vpn, ppn, flags);
        self.next_ppn = ppn + 1;
    }

    /// Whether no page of `[start_va.floor(), end_va.ceil())` is mapped.
    pub fn vpn_no_overlap(&self, start_va: VirtAddr, end_va: VirtAddr) -> (r: bool)
        requires
            self.wf(),
        ensures
            r == none_mapped(self.page_map(), floor_spec(start_va.0), ceil_spec(end_va.0)),
    {
        let lo = start_va.floor();
        let hi = end_va.ceil();
        let mut v = lo;
        while v < hi
            invariant
                self.wf(),
                lo <= v,
                lo == floor_spec(start_va.0),
                hi == ceil_spec(end_va.0),
                none_mapped(self.page_map(), lo as int, v as int),
            decreases hi - v,
        {
            if self.translate(v).is_some() {
                return false;
            }
            v += 1;
        }
        true
    }

    /// Maps the pages of `[start_va.floor(), end_va.ceil())` with the
    /// permission `perm`, each to the next frame of the pool in order, and
    /// records them as an area.
    pub fn insert_framed_area(&mut self, start_va: VirtAddr, end_va: VirtAddr, perm: u8)
        requires
            old(self).wf(),
            floor_spec(start_va.0) <= ceil_spec(end_va.0),
            none_mapped(old(self).page_map(), floor_spec(start_va.0), ceil_spec(end_va.0)),
            frames_fit(old(self).next_frame(), floor_spec(start_va.0), ceil_spec(end_va.0)),
        ensures
            final(self).wf(),
            final(self).root() == old(self).root(),
            final(self).page_map() == map_range(
                old(self).page_map(),
                floor_spec(start_va.0),
                ceil_spec(end_va.0),
                perm | PTE_V,
            ),
            final(self).frame_map() == frame_range(
                old(self).frame_map(),
                floor_spec(start_va.0),
                ceil_spec(end_va.0),
                old(self).next_frame() as int,
            ),
            final(self).next_frame() == old(self).next_frame() + (ceil_spec(end_va.0) - floor_spec(
                start_va.0,
            )),
            final(self).area_list() == old(self).area_list().push(
                MapArea {
                    start_vpn: floor_spec(start_va.0) as usize,
                    end_vpn: ceil_spec(end_va.0) as usize,
                    perm,
                },
            ),
    {
        let lo = start_va.floor();
        let hi = end_va.ceil();
        let flags = perm | PTE_V;
        self.areas.push(MapArea { start_vpn: lo, end_vpn: hi, perm });
        let ghost areas = self.areas@;
        assert(self.page_table@ == old(self).page_table@);
        assert(self.pages@ == old(self).pages@);
        let mut v = lo;
        while v < hi
            invariant
                self.wf(),
                lo <= v <= hi,
                self.root() == old(self).root(),
                self.areas@ == areas,
                none_mapped(old(self).page_map(), lo as int, hi as int),
                frames_fit(old(self).next_frame(), lo as int, hi as int),
                self.next_frame() == old(self).next_frame() + (v - lo),
                self.page_map() == map_range(old(self).page_map(), lo as int, v as int, flags),
                self.frame_map() == frame_range(
                    old(self).frame_map(),
                    lo as int,
                    v as int,
                    old(self).next_frame() as int,
                ),
            decreases hi - v,
        {
            self.map_framed(v, flags);
            v += 1;
            proof {
                assert(self.page_map() =~= map_range(old(self).page_map(), lo as int, v as int, flags));
                assert(self.frame_map() =~= frame_range(
                    old(self).frame_map(),
                    lo as int,
                    v as int,
                    old(self).next_frame() as int,
                ));
            }
        }
    }

    /// Unmaps the pages of `[start_va.floor(), end_va.ceil())` and returns 0
    /// if all of them are mapped; otherwise changes nothing and returns -1.
    pub fn unmap_user_area(&mut self, start_va: VirtAddr, end_va: VirtAddr) -> (r: isize)
        requires
            old(self).wf(),
        ensures
            final(self).wf(),
            final(self).root() == old(self).root(),
            final(self).next_frame() == old(self).next_frame(),
            final(self).area_list() == old(self).area_list(),
            all_mapped(old(self).page_map(), floor_spec(start_va.0), ceil_spec(end_va.0)) ==> r == 0
                && final(self).page_map() == unmap_range(
                old(self).page_map(),
                floor_spec(start_va.0),
                ceil_spec(end_va.0),
            ) && final(self).frame_map() == unframe_range(
                old(self).frame_map(),
                floor_spec(start_va.0),
                ceil_spec(end_va.0),
            ),
            !all_mapped(old(self).page_map(), floor_spec(start_va.0), ceil_spec(end_va.0)) ==> r
                == -1 && final(self).page_map() == old(self).page_map() && final(self).frame_map()
                == old(self).frame_map(),
    {
        let lo = start_va.floor();
        let hi = end_va.ceil();
        let mut v = lo;
        while v < hi
            invariant
                self.wf(),
                lo <= v,
                lo == floor_spec(start_va.0),
                hi == ceil_spec(end_va.0),
                all_mapped(self.page_map(), lo as int, v as int),
            decreases hi - v,
        {
            if self.translate(v).is_none() {
                return -1;
            }
            v += 1;
        }
        self.unmap_pages(lo, hi);
        0
    }

    /// Unmaps the pages of `[lo, hi)`, all of which are mapped.
    fn unmap_pages(&mut self, lo: usize, hi: usize)
        requires
            old(self).wf(),
            all_mapped(old(self).page_map(), lo as int, hi as int),
        ensures
            final(self).wf(),
            final(self).root() == old(self).root(),
            final(self).next_frame() == old(self).next_frame(),
            final(self).area_list() == old(self).area_list(),
            final(self).page_map() == unmap_range(old(self).page_map(), lo as int, hi as int),
            final(self).frame_map() == unframe_range(old(self).frame_map(), lo as int, hi as int),
    {
        let mut v = lo;
        while v < hi
            invariant
                self.wf(),
                lo <= v,
                v <= hi || lo >= hi,
                lo >= hi ==> v == lo,
                self.root() == old(self).root(),
                self.next_frame() == old(self).next_frame(),
                self.area_list() == old(self).area_list(),
                all_mapped(old(self).page_map(), lo as int, hi as int),
                self.page_map() == unmap_range(old(self).page_map(), lo as int, v as int),
                self.frame_map() == unframe_range(old(self).frame_map(), lo as int, v as int),
            decreases hi - v,
        {
            proof {
                assert(self.page_map().contains_key(v));
            }
            self.unmap_one(v);
            v += 1;
            proof {
                assert(self.page_map() =~= unmap_range(old(self).page_map(), lo as int, v as int));
                assert(self.frame_map() =~= unframe_range(old(self).frame_map(), lo as int, v as int));
            }
        }
        proof {
            assert(self.page_map() =~= unmap_range(old(self).page_map(), lo as int, hi as int));
            assert(self.frame_map() =~= unframe_range(old(self).frame_map(), lo as int, hi as int));
        }
    }

    /// Maps the pages of `[lo, hi)`, none of which is mapped, with `flags`,
    /// each to the next frame of the pool in order.
    fn map_pages(&mut self, lo: usize, hi: usize, flags: u8)
        requires
            old(self).wf(),
            none_mapped(old(self).page_map(), lo as int, hi as int),
            frames_fit(old(self).next_frame(), lo as int, hi as int),
        ensures
            final(self).wf(),
            final(self).root() == old(self).root(),
            final(self).area_list() == old(self).area_list(),
            final(self).page_map() == map_range(old(self).page_map(), lo as int, hi as int, flags),
            final(self).frame_map() == frame_range(
                old(self).frame_map(),
                lo as int,
                hi as int,
                old(self).next_frame() as int,
            ),
            final(self).next_frame() == old(self).next_frame() + (if lo <= hi { hi - lo } else { 0 }),
    {
        let mut v = lo;
        while v < hi
            invariant
                self.wf(),
                lo <= v,
                v <= hi || lo >= hi,
                lo >= hi ==> v == lo,
                self.root() == old(self).root(),
                self.area_list() == old(self).area_list(),
                none_mapped(old(self).page_map(), lo as int, hi as int),
                frames_fit(old(self).next_frame(), lo as int, hi as int),
                self.next_frame() == old(self).next_frame() + (v - lo),
                self.page_map() == map_range(old(self).page_map(), lo as int, v as int, flags),
                self.frame_map() == frame_range(
                    old(self).frame_map(),
                    lo as int,
                    v as int,
                    old(self).next_frame() as int,
                ),
            decreases hi - v,
        {
            self.map_framed(v, flags);
            v += 1;
            proof {
                assert(self.page_map() =~= map_range(old(self).page_map(), lo as int, v as int, flags));
                assert(self.frame_map() =~= frame_range(
                    old(self).frame_map(),
                    lo as int,
                    v as int,
                    old(self).next_frame() as int,
                ));
            }
        }
        proof {
            assert(self.page_map() =~= map_range(old(self).page_map(), lo as int, hi as int, flags));
            assert(self.frame_map() =~= frame_range(
                old(self).frame_map(),
                lo as int,
                hi as int,
                old(self).next_frame() as int,
            ));
        }
    }

    /// Index of the first area that starts at page `vpn`.
    fn find_area(&self, vpn: usize) -> (r: Option<usize>)
        ensures
            r matches Some(i) ==> area_starting_at(self.area_list(), vpn as int) == Some(i as int)
                && i < self.area_list().len(),
            r is None ==> area_starting_at(self.area_list(), vpn as int) is None,
    {
        let mut i: usize = 0;
        while i < self.areas.len()
            invariant
                i <= self.areas@.len(),
                area_from(self.areas@, vpn as int, 0) == area_from(self.areas@, vpn as int, i as int),
            decreases self.areas@.len() - i,
        {
            if self.areas[i].start_vpn == vpn {
                return Some(i);
            }
            i += 1;
        }
        None
    }

    /// The frame that the next framed page gets.
    pub fn next_frame_ppn(&self) -> (r: usize)
        ensures
            r == self.next_frame(),
    {
        self.next_ppn
    }

    /// Where the first area that starts at page `vpn` ends, if there is one.
    pub fn area_end(&self, vpn: usize) -> (r: Option<usize>)
        ensures
            match area_starting_at(self.area_list(), vpn as int) {
                Some(i) => r == Some(self.area_list()[i].end_vpn),
                None => r is None,
            },
    {
        match self.find_area(vpn) {
            Some(i) => Some(self.areas[i].end_vpn),
            None => None,
        }
    }

    /// The area that starts at `start`'s page can be cut down to end at
    /// `new_end`'s page: the pages it gives up are mapped.
    pub open spec fn can_shrink(&self, start: VirtAddr, new_end: VirtAddr) -> bool {
        area_starting_at(self.area_list(), floor_spec(start.0)) matches Some(i) ==> all_mapped(
            self.page_map(),
            ceil_spec(new_end.0),
            self.area_list()[i].end_vpn as int,
        )
    }

    /// The area that starts at `start`'s page can be grown to end at
    /// `new_end`'s page: the pages it takes are not mapped, and the pool has
    /// frames for them.
    pub open spec fn can_append(&self, start: VirtAddr, new_end: VirtAddr) -> bool {
        area_starting_at(self.area_list(), floor_spec(start.0)) matches Some(i) ==> {
            &&& none_mapped(self.page_map(), self.area_list()[i].end_vpn as int, ceil_spec(new_end.0))
            &&& frames_fit(self.next_frame(), self.area_list()[i].end_vpn as int, ceil_spec(new_end.0))
        }
    }

    /// What cutting down the area that starts at `start`'s page does: it
    /// ends at `new_end`'s page and the pages it gives up are unmapped; when
    /// no area starts there nothing changes and the result is `false`.
    pub open spec fn shrink_post(old: Self, new: Self, start: VirtAddr, new_end: VirtAddr, r: bool) -> bool {
        match area_starting_at(old.area_list(), floor_spec(start.0)) {
            Some(i) => {
                let a = old.area_list()[i];
                &&& r
                &&& new.root() == old.root()
                &&& new.next_frame() == old.next_frame()
                &&& new.area_list() == old.area_list().update(
                    i,
                    MapArea { end_vpn: ceil_spec(new_end.0) as usize, ..a },
                )
                &&& new.page_map() == unmap_range(old.page_map(), ceil_spec(new_end.0), a.end_vpn as int)
                &&& new.frame_map() == unframe_range(old.frame_map(), ceil_spec(new_end.0), a.end_vpn as int)
            },
            None => !r && new == old,
        }
    }

    /// What growing the area that starts at `start`'s page does: it ends at
    /// `new_end`'s page and the pages it takes are mapped with its
    /// permission to the next frames of the pool; when no area starts there
    /// nothing changes and the result is `false`.
    pub open spec fn append_post(old: Self, new: Self, start: VirtAddr, new_end: VirtAddr, r: bool) -> bool {
        match area_starting_at(old.area_list(), floor_spec(start.0)) {
            Some(i) => {
                let a = old.area_list()[i];
                let hi = ceil_spec(new_end.0);
                &&& r
                &&& new.root() == old.root()
                &&& new.area_list() == old.area_list().update(i, MapArea { end_vpn: hi as usize, ..a })
                &&& new.page_map() == map_range(old.page_map(), a.end_vpn as int, hi, a.perm | PTE_V)
                &&& new.frame_map() == frame_range(
                    old.frame_map(),
                    a.end_vpn as int,
                    hi,
                    old.next_frame() as int,
                )
                &&& new.next_frame() == old.next_frame() + (if a.end_vpn <= hi {
                    hi - a.end_vpn
                } else {
                    0
                })
            },
            None => !r && new == old,
        }
    }

    /// Cuts the area that starts at `start`'s page down to end at
    /// `new_end`'s page, unmapping the pages it gives up. `false` when no
    /// area starts there.
    pub fn shrink_to(&mut self, start: VirtAddr, new_end: VirtAddr) -> (r: bool)
        requires
            old(self).wf(),
            old(self).can_shrink(start, new_end),
        ensures
            final(self).wf(),
            Self::shrink_post(*old(self), *final(self), start, new_end, r),
    {
        let i = match self.find_area(start.floor()) {
            Some(i) => i,
            None => {
                return false;
            },
        };
        let a = self.areas[i];
        let lo = new_end.ceil();
        self.unmap_pages(lo, a.end_vpn);
        self.areas.set(i, MapArea { end_vpn: lo, ..a });
        true
    }

    /// Grows the area that starts at `start`'s page to end at `new_end`'s
    /// page, mapping the pages it takes with the area's permission. `false`
    /// when no area starts there.
    pub fn append_to(&mut self, start: VirtAddr, new_end: VirtAddr) -> (r: bool)
        requires
            old(self).wf(),
            old(self).can_append(start, new_end),
        ensures
            final(self).wf(),
            Self::append_post(*old(self), *final(self), start, new_end, r),
    {
        let i = match self.find_area(start.floor()) {
            Some(i) => i,
            None => {
                return false;
            },
        };
        let a = self.areas[i];
        let hi = new_end.ceil();
        self.map_pages(a.end_vpn, hi, a.perm | PTE_V);
        self.areas.set(i, MapArea { end_vpn: hi, ..a });
        true
    }
}

/// Growing the area that starts at `start`'s page to `new_end` maps each
/// page it takes with exactly the area's own permission plus the valid
/// bit, so the new pages of a user area are user pages. The area is the
/// first one that starts there; it keeps its start and its permission and
/// now ends at `new_end`'s page. No other page changes.
pub proof fn lemma_append_maps_with_area_perm(old: MemorySet, new: MemorySet, start: VirtAddr, new_end: VirtAddr)
    requires
        MemorySet::append_post(old, new, start, new_end, true),
    ensures
        exists|i: int|
            #![trigger old.area_list()[i]]
            0 <= i < old.area_list().len() && old.area_list()[i].start_vpn == floor_spec(start.0) && (forall|j: int|
                #![trigger old.area_list()[j]]
                0 <= j < i ==> old.area_list()[j].start_vpn != floor_spec(start.0)) && {
                let a = old.area_list()[i];
                let hi = ceil_spec(new_end.0);
                &&& new.area_list().len() == old.area_list().len()
                &&& new.area_list()[i].start_vpn == a.start_vpn
                &&& new.area_list()[i].perm == a.perm
                &&& new.area_list()[i].end_vpn == hi
                &&& forall|v: usize|
                    a.end_vpn <= v < hi ==> {
                        &&& #[trigger] new.page_map().contains_key(v)
                        &&& new.page_map()[v] == a.perm | PTE_V
                        &&& new.page_map()[v] & PTE_V != 0
                        &&& (a.perm & PERM_U != 0 ==> new.page_map()[v] & PERM_U != 0)
                        &&& (a.perm & PERM_R != 0 ==> new.page_map()[v] & PERM_R != 0)
                        &&& (a.perm & PERM_W != 0 ==> new.page_map()[v] & PERM_W != 0)
                    }
                &&& forall|v: usize|
                    !(a.end_vpn <= v < hi) ==> (#[trigger] new.page_map().contains_key(v)
                        == old.page_map().contains_key(v) && (old.page_map().contains_key(v)
                        ==> new.page_map()[v] == old.page_map()[v]))
            },
{
    let i = area_starting_at(old.area_list(), floor_spec(start.0))->0;
    lemma_area_first(old.area_list(), floor_spec(start.0), 0);
    let a = old.area_list()[i];
    let p = a.perm;
    assert(((p | 1u8) & 1u8 != 0) && (p & 16u8 != 0 ==> (p | 1u8) & 16u8 != 0) && (p & 2u8 != 0 ==> (p
        | 1u8) & 2u8 != 0) && (p & 4u8 != 0 ==> (p | 1u8) & 4u8 != 0)) by (bit_vector);
}

/// The first area found from `k` starts at `vpn` and no area before it
/// from `k` on does.
proof fn lemma_area_first(s: Seq<MapArea>, vpn: int, k: int)
    requires
        0 <= k,
    ensures
        area_from(s, vpn, k) matches Some(i) ==> k <= i < s.len() && s[i].start_vpn == vpn && forall|j: int|
            k <= j < i ==> #[trigger] s[j].start_vpn != vpn,
    decreases s.len() - k,
{
    if k < s.len() {
        lemma_area_first(s, vpn, k + 1);
    }
}

} // verus!
