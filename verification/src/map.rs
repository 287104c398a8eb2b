//! Free-list allocator for the memory of a single memory PE.
//!
//! A `MemMap` keeps the free extents of one contiguous address range as a
//! list of areas in strictly ascending address order, with touching areas
//! always merged.  `allocate` serves aligned first-fit allocations and
//! `free` reinserts a region, coalescing it with both neighbours.

use vstd::prelude::*;
use vstd::arithmetic::div_mod::lemma_fundamental_div_mod;
use vstd::arithmetic::div_mod::lemma_mod_multiples_basic;

use vstd::string::StringExecFns;

use crate::errors::{Code, Error};
use crate::text::{hex_text, push_hex_text};

verus! {

/// One free extent: the half-open address range `[addr, addr + size)`.
#[derive(Clone, Copy, PartialEq, Eq, Structural, Debug)]
pub struct Area {
    pub addr: usize,
    pub size: usize,
}

impl Area {
    pub fn new(addr: usize, size: usize) -> (r: Self)
        ensures
            r.addr == addr,
            r.size == size,
    {
        Area { addr, size }
    }

    /// The area's one-line log form.
    pub fn fmt_text(&self) -> (r: String)
        ensures
            r@ == area_text(*self),
    {
        let mut out = String::new();
        out.append("Area[addr=");
        push_hex_text(&mut out, self.addr as u64);
        out.append(", size=");
        push_hex_text(&mut out, self.size as u64);
        out.append("]");
        proof {
            assert(out@ =~= area_text(*self));
        }
        out
    }
}

/// Log line of one free area.
pub open spec fn area_text(a: Area) -> Seq<char> {
    "Area[addr="@ + hex_text(a.addr as int) + ", size="@ + hex_text(a.size as int) + "]"@
}

/// The first `i` lines of a map's log block, one indented area each.
pub open spec fn mem_map_lines(s: Seq<Area>, i: int) -> Seq<char>
    decreases i,
{
    if i <= 0 {
        Seq::<char>::empty()
    } else {
        mem_map_lines(s, i - 1) + "    "@ + area_text(s[i - 1]) + "\n"@
    }
}

/// Log block of a map: every area on a line of its own.
pub open spec fn mem_map_text(s: Seq<Area>) -> Seq<char> {
    "[\n"@ + mem_map_lines(s, s.len() as int) + "  ]"@
}

/// First address after the extent `a`.
pub open spec fn area_end(a: Area) -> int {
    a.addr + a.size
}

/// Well-formed free list: every area is non-empty and does not wrap, and
/// any area ends strictly before a later one starts, with a gap between
/// them (touching areas are always merged).
pub open spec fn wf_areas(s: Seq<Area>) -> bool {
    &&& forall|i: int| 0 <= i < s.len() ==> 0 < (#[trigger] s[i]).size
    &&& forall|i: int| 0 <= i < s.len() ==> area_end(#[trigger] s[i]) <= usize::MAX
    &&& forall|i: int, j: int|
        0 <= i < j < s.len() ==> area_end(#[trigger] s[i]) < (#[trigger] s[j]).addr
}

/// Sum of the sizes of all areas: the number of free bytes.
pub open spec fn total_bytes(s: Seq<Area>) -> int
    decreases s.len(),
{
    if s.len() == 0 {
        0
    } else {
        s[0].size + total_bytes(s.skip(1))
    }
}

/// Bytes wasted in front of `addr` when rounding it up to `align`.
pub open spec fn align_gap(addr: int, align: int) -> int {
    if addr % align == 0 {
        0
    } else {
        align - addr % align
    }
}

/// Whether the area `a` can serve `size` bytes at alignment `align`.
pub open spec fn area_fits(a: Area, size: int, align: int) -> bool {
    align_gap(a.addr as int, align) + size <= a.size
}

/// Index of the first area that fits, or `s.len()` when none does.
pub open spec fn find_fit(s: Seq<Area>, size: int, align: int) -> int
    decreases s.len(),
{
    if s.len() == 0 {
        0
    } else if area_fits(s[0], size, align) {
        0
    } else {
        1 + find_fit(s.skip(1), size, align)
    }
}

/// Whether some area can serve the request.
pub open spec fn has_fit(s: Seq<Area>, size: int, align: int) -> bool {
    find_fit(s, size, align) < s.len()
}

/// Address a successful first-fit allocation returns.
pub open spec fn alloc_addr(s: Seq<Area>, size: int, align: int) -> int {
    let a = s[find_fit(s, size, align)];
    a.addr + align_gap(a.addr as int, align)
}

/// Free list after a successful allocation: the alignment gap, if any, is
/// returned to the free pool as an area of its own, and the remainder of
/// the chosen area stays behind the taken bytes unless it became empty.
pub open spec fn alloc_areas(s: Seq<Area>, size: int, align: int) -> Seq<Area> {
    let i = find_fit(s, size, align);
    let a = s[i];
    let d = align_gap(a.addr as int, align);
    let rest = a.size - d - size;
    if d > 0 && rest > 0 {
        s.update(i, Area { addr: a.addr, size: d as usize }).insert(
            i + 1,
            Area { addr: (a.addr + d + size) as usize, size: rest as usize },
        )
    } else if d > 0 {
        s.update(i, Area { addr: a.addr, size: d as usize })
    } else if rest > 0 {
        s.update(i, Area { addr: (a.addr + d + size) as usize, size: rest as usize })
    } else {
        s.remove(i)
    }
}

/// The region `[addr, addr + size)` overlaps no area of the free list.
pub open spec fn free_disjoint(s: Seq<Area>, addr: int, size: int) -> bool {
    forall|i: int| 0 <= i < s.len()
        ==> (addr + size <= (#[trigger] s[i]).addr || area_end(s[i]) <= addr)
}

/// Index of the first area at or after `addr`, or `s.len()` when none is.
pub open spec fn find_at_or_after(s: Seq<Area>, addr: int) -> int
    decreases s.len(),
{
    if s.len() == 0 {
        0
    } else if addr <= s[0].addr {
        0
    } else {
        1 + find_at_or_after(s.skip(1), addr)
    }
}

/// Free list after `[addr, addr + size)` is returned: the region is
/// merged with the previous area, the next area, both, or inserted as a
/// fresh area between them.
pub open spec fn free_areas(s: Seq<Area>, addr: int, size: int) -> Seq<Area> {
    let n = find_at_or_after(s, addr);
    let merge_prev = n > 0 && area_end(s[n - 1]) == addr;
    let merge_next = n < s.len() && addr + size == s[n].addr;
    if merge_prev && merge_next {
        s.update(
            n - 1,
            Area { addr: s[n - 1].addr, size: (s[n - 1].size + size + s[n].size) as usize },
        ).remove(n)
    } else if merge_prev {
        s.update(n - 1, Area { addr: s[n - 1].addr, size: (s[n - 1].size + size) as usize })
    } else if merge_next {
        s.update(n, Area { addr: addr as usize, size: (size + s[n].size) as usize })
    } else {
        s.insert(n, Area { addr: addr as usize, size: size as usize })
    }
}

/// What returning the region `[addr, addr + size)` does to a well-formed
/// free list it does not overlap: the list stays well-formed — strictly
/// ordered by address with no two areas touching — and exactly `size`
/// bytes join the free pool.
#[verifier::rlimit(60)]
pub proof fn lemma_free_step(s: Seq<Area>, addr: int, size: int)
    requires
        wf_areas(s),
        1 <= size,
        0 <= addr,
        addr + size <= usize::MAX,
        free_disjoint(s, addr, size),
    ensures
        wf_areas(free_areas(s, addr, size)),
        total_bytes(free_areas(s, addr, size)) == total_bytes(s) + size,
{
    lemma_find_at_or_after_props(s, addr);
    let n = find_at_or_after(s, addr);
    let t = free_areas(s, addr, size);
    assert forall|k: int| 0 <= k < n implies area_end(#[trigger] s[k]) <= addr by {
        assert(addr + size <= s[k].addr || area_end(s[k]) <= addr);
    }
    if n < s.len() {
        assert(addr + size <= s[n].addr || area_end(s[n]) <= addr);
        assert(addr + size <= s[n].addr);
    }
    let merge_prev = n > 0 && area_end(s[n - 1]) == addr;
    let merge_next = n < s.len() && addr + size == s[n].addr;
    if merge_prev && merge_next {
        let x = Area { addr: s[n - 1].addr, size: (s[n - 1].size + size + s[n].size) as usize };
        let u = s.update(n - 1, x);
        u.remove_ensures(n);
        assert(area_end(x) == area_end(s[n]));
        assert forall|k: int, m: int| 0 <= k < m < t.len() implies area_end(#[trigger] t[k]) < (
        #[trigger] t[m]).addr by {
            let tk = if k < n - 1 {
                s[k]
            } else if k == n - 1 {
                x
            } else {
                s[k + 1]
            };
            let tm = if m < n - 1 {
                s[m]
            } else if m == n - 1 {
                x
            } else {
                s[m + 1]
            };
            assert(t[k] == tk && t[m] == tm);
        }
        assert forall|k: int| 0 <= k < t.len() implies 0 < (#[trigger] t[k]).size && area_end(t[k])
            <= usize::MAX by {
            if k < n - 1 {
                assert(t[k] == s[k]);
            } else if k > n - 1 {
                assert(t[k] == s[k + 1]);
            }
        }
        lemma_total_bytes_update(s, n - 1, x);
        assert(u[n] == s[n]);
        lemma_total_bytes_remove(u, n);
    } else if merge_prev {
        let x = Area { addr: s[n - 1].addr, size: (s[n - 1].size + size) as usize };
        assert(area_end(x) == addr + size);
        if n < s.len() {
            assert(addr + size < s[n].addr);
        }
        assert forall|k: int, m: int| 0 <= k < m < t.len() implies area_end(#[trigger] t[k]) < (
        #[trigger] t[m]).addr by {
            if k != n - 1 {
                assert(t[k] == s[k]);
            }
            if m != n - 1 {
                assert(t[m] == s[m]);
            }
        }
        assert forall|k: int| 0 <= k < t.len() implies 0 < (#[trigger] t[k]).size && area_end(t[k])
            <= usize::MAX by {
            if k != n - 1 {
                assert(t[k] == s[k]);
            }
        }
        lemma_total_bytes_update(s, n - 1, x);
    } else if merge_next {
        let x = Area { addr: addr as usize, size: (size + s[n].size) as usize };
        assert(area_end(x) == area_end(s[n]));
        if n > 0 {
            assert(area_end(s[n - 1]) < addr);
        }
        assert forall|k: int, m: int| 0 <= k < m < t.len() implies area_end(#[trigger] t[k]) < (
        #[trigger] t[m]).addr by {
            if k != n {
                assert(t[k] == s[k]);
            }
            if m != n {
                assert(t[m] == s[m]);
            }
            if k < n - 1 && m == n {
                assert(area_end(s[k]) < s[n - 1].addr);
                assert(s[n - 1].addr < addr);
            }
        }
        assert forall|k: int| 0 <= k < t.len() implies 0 < (#[trigger] t[k]).size && area_end(t[k])
            <= usize::MAX by {
            if k != n {
                assert(t[k] == s[k]);
            }
        }
        lemma_total_bytes_update(s, n, x);
    } else {
        let x = Area { addr: addr as usize, size: size as usize };
        s.insert_ensures(n, x);
        if n > 0 {
            assert(area_end(s[n - 1]) < addr);
        }
        if n < s.len() {
            assert(addr + size < s[n].addr);
        }
        assert forall|k: int, m: int| 0 <= k < m < t.len() implies area_end(#[trigger] t[k]) < (
        #[trigger] t[m]).addr by {
            let tk = if k < n {
                s[k]
            } else if k == n {
                x
            } else {
                s[k - 1]
            };
            let tm = if m < n {
                s[m]
            } else if m == n {
                x
            } else {
                s[m - 1]
            };
            assert(t[k] == tk && t[m] == tm);
        }
        assert forall|k: int| 0 <= k < t.len() implies 0 < (#[trigger] t[k]).size && area_end(t[k])
            <= usize::MAX by {
            if k < n {
                assert(t[k] == s[k]);
            } else if k > n {
                assert(t[k] == s[k - 1]);
            }
        }
        lemma_total_bytes_insert(s, n, x);
    }
}

/// Pins `find_at_or_after` to the index a search found.
proof fn lemma_find_at_or_after_is(s: Seq<Area>, addr: int, n: int)
    requires
        0 <= n <= s.len(),
        forall|k: int| 0 <= k < n ==> (#[trigger] s[k]).addr < addr,
        n < s.len() ==> addr <= s[n].addr,
    ensures
        find_at_or_after(s, addr) == n,
{
    lemma_find_at_or_after_props(s, addr);
    let f = find_at_or_after(s, addr);
    if f < n {
        assert(s[f].addr < addr);
    }
    if f > n {
        assert(s[n].addr < addr);
    }
}

/// Freeing exactly what an allocation returned restores the free list,
/// areas and order alike: the alignment gap, the taken region and the
/// remainder merge back into the area they were carved from.
#[verifier::rlimit(100)]
pub proof fn lemma_allocate_free_roundtrip(s: Seq<Area>, size: int, align: int)
    requires
        wf_areas(s),
        1 <= size,
        1 <= align,
        has_fit(s, size, align),
    ensures
        free_areas(alloc_areas(s, size, align), alloc_addr(s, size, align), size) == s,
{
    lemma_find_fit_props(s, size, align);
    lemma_allocate_step(s, size, align);
    let i = find_fit(s, size, align);
    let a = s[i];
    let d = align_gap(a.addr as int, align);
    let rest = a.size - d - size;
    let r = alloc_addr(s, size, align);
    lemma_align_gap(a.addr as int, align);
    let t = alloc_areas(s, size, align);
    if d > 0 && rest > 0 {
        let pre = Area { addr: a.addr, size: d as usize };
        let post = Area { addr: (a.addr + d + size) as usize, size: rest as usize };
        let u = s.update(i, pre);
        u.insert_ensures(i + 1, post);
        assert forall|k: int| 0 <= k < i + 1 implies (#[trigger] t[k]).addr < r by {
            if k < i {
                assert(t[k] == s[k]);
                assert(area_end(s[k]) < a.addr);
            } else {
                assert(t[k] == pre);
            }
        }
        lemma_find_at_or_after_is(t, r, i + 1);
        assert(area_end(t[i]) == r);
        assert(t[i + 1].addr == r + size);
        let merged = Area { addr: t[i].addr, size: (t[i].size + size + t[i + 1].size) as usize };
        assert(merged == a);
        assert(free_areas(t, r, size) == t.update(i, merged).remove(i + 1));
        assert(free_areas(t, r, size) =~= s);
    } else if d > 0 {
        let pre = Area { addr: a.addr, size: d as usize };
        let t2 = s.update(i, pre);
        assert(t == t2);
        assert forall|k: int| 0 <= k < i + 1 implies (#[trigger] t[k]).addr < r by {
            if k < i {
                assert(t[k] == s[k]);
                assert(area_end(s[k]) < a.addr);
            } else {
                assert(t[k] == pre);
            }
        }
        if i + 1 < t.len() {
            assert(t[i + 1] == s[i + 1]);
            assert(area_end(a) < s[i + 1].addr);
        }
        lemma_find_at_or_after_is(t, r, i + 1);
        assert(area_end(t[i]) == r);
        if i + 1 < t.len() {
            assert(r + size < t[i + 1].addr);
        }
        assert(free_areas(t, r, size) == t.update(
            i,
            Area { addr: t[i].addr, size: (t[i].size + size) as usize },
        ));
        assert(free_areas(t, r, size) =~= s);
    } else if rest > 0 {
        let post = Area { addr: (a.addr + d + size) as usize, size: rest as usize };
        assert(t == s.update(i, post));
        assert forall|k: int| 0 <= k < i implies (#[trigger] t[k]).addr < r by {
            assert(t[k] == s[k]);
            assert(area_end(s[k]) < a.addr);
        }
        assert(t[i].addr == r + size);
        lemma_find_at_or_after_is(t, r, i);
        if i > 0 {
            assert(t[i - 1] == s[i - 1]);
            assert(area_end(s[i - 1]) < a.addr);
        }
        assert(free_areas(t, r, size) == t.update(
            i,
            Area { addr: r as usize, size: (size + t[i].size) as usize },
        ));
        assert(free_areas(t, r, size) =~= s);
    } else {
        assert(t == s.remove(i));
        s.remove_ensures(i);
        assert forall|k: int| 0 <= k < i implies (#[trigger] t[k]).addr < r by {
            assert(t[k] == s[k]);
            assert(area_end(s[k]) < a.addr);
        }
        if i < t.len() {
            assert(t[i] == s[i + 1]);
            assert(area_end(a) < s[i + 1].addr);
        }
        lemma_find_at_or_after_is(t, r, i);
        if i > 0 {
            assert(t[i - 1] == s[i - 1]);
            assert(area_end(s[i - 1]) < a.addr);
        }
        assert(free_areas(t, r, size) == t.insert(
            i,
            Area { addr: r as usize, size: size as usize },
        ));
        t.insert_ensures(i, Area { addr: r as usize, size: size as usize });
        assert(free_areas(t, r, size) =~= s);
    }
}

/// One allocate/free cycle of the same request: the free list after an
/// allocation of `size` bytes at `align` whose result was freed again,
/// or the list unchanged when nothing fits.
pub open spec fn alloc_free_cycle(s: Seq<Area>, size: int, align: int) -> Seq<Area> {
    if has_fit(s, size, align) {
        free_areas(alloc_areas(s, size, align), alloc_addr(s, size, align), size)
    } else {
        s
    }
}

/// The free list after `n` allocate/free cycles of the same request.
pub open spec fn repeat_cycles(s: Seq<Area>, size: int, align: int, n: nat) -> Seq<Area>
    decreases n,
{
    if n == 0 {
        s
    } else {
        repeat_cycles(alloc_free_cycle(s, size, align), size, align, (n - 1) as nat)
    }
}

/// Repeated interleaved allocation and freeing of the same request
/// converges: however often the cycle runs, the free list is the one it
/// started from — in particular, a fresh map stays one full area.
pub proof fn lemma_repeated_cycles_converge(s: Seq<Area>, size: int, align: int, n: nat)
    requires
        wf_areas(s),
        1 <= size,
        1 <= align,
    ensures
        repeat_cycles(s, size, align, n) == s,
    decreases n,
{
    if n > 0 {
        if has_fit(s, size, align) {
            lemma_allocate_free_roundtrip(s, size, align);
        }
        assert(alloc_free_cycle(s, size, align) == s);
        lemma_repeated_cycles_converge(s, size, align, (n - 1) as nat);
    }
}

/// All free areas lie inside the address range `[lo, hi)`.
pub open spec fn areas_within(s: Seq<Area>, lo: int, hi: int) -> bool {
    forall|i: int| 0 <= i < s.len() ==> lo <= (#[trigger] s[i]).addr && area_end(s[i]) <= hi
}

/// Every successful allocation returns an address that is a multiple of
/// the alignment and, together with the `size` bytes after it, lies
/// fully within any range that holds all free areas — in particular
/// within the initial range of the map.  The areas left behind stay
/// within that range as well.
pub proof fn lemma_allocate_within(s: Seq<Area>, size: int, align: int, lo: int, hi: int)
    requires
        wf_areas(s),
        1 <= size,
        1 <= align,
        has_fit(s, size, align),
        areas_within(s, lo, hi),
    ensures
        alloc_addr(s, size, align) % align == 0,
        lo <= alloc_addr(s, size, align),
        alloc_addr(s, size, align) + size <= hi,
        areas_within(alloc_areas(s, size, align), lo, hi),
{
    lemma_find_fit_props(s, size, align);
    lemma_allocate_step(s, size, align);
    let i = find_fit(s, size, align);
    let a = s[i];
    let d = align_gap(a.addr as int, align);
    let rest = a.size - d - size;
    let t = alloc_areas(s, size, align);
    lemma_align_gap(a.addr as int, align);
    assert(lo <= a.addr && area_end(a) <= hi);
    if d == 0 && rest == 0 {
        s.remove_ensures(i);
    }
    assert forall|k: int| 0 <= k < t.len() implies lo <= (#[trigger] t[k]).addr && area_end(t[k])
        <= hi by {
        if d > 0 && rest > 0 {
            s.update(i, Area { addr: a.addr, size: d as usize }).insert_ensures(
                i + 1,
                Area { addr: (a.addr + d + size) as usize, size: rest as usize },
            );
            if k > i + 1 {
                assert(t[k] == s[k - 1]);
            }
        } else if d == 0 && rest == 0 {
            if k >= i {
                assert(t[k] == s[k + 1]);
            }
        }
    }
}

/// A freed region that lies within a range that holds all free areas
/// leaves every area within that range.
pub proof fn lemma_free_within(s: Seq<Area>, addr: int, size: int, lo: int, hi: int)
    requires
        wf_areas(s),
        1 <= size,
        0 <= addr,
        addr + size <= usize::MAX,
        free_disjoint(s, addr, size),
        areas_within(s, lo, hi),
        lo <= addr,
        addr + size <= hi,
    ensures
        areas_within(free_areas(s, addr, size), lo, hi),
{
    lemma_find_at_or_after_props(s, addr);
    let n = find_at_or_after(s, addr);
    let t = free_areas(s, addr, size);
    let merge_prev = n > 0 && area_end(s[n - 1]) == addr;
    let merge_next = n < s.len() && addr + size == s[n].addr;
    assert forall|k: int| 0 <= k < t.len() implies lo <= (#[trigger] t[k]).addr && area_end(t[k])
        <= hi by {
        if merge_prev && merge_next {
            s.update(
                n - 1,
                Area { addr: s[n - 1].addr, size: (s[n - 1].size + size + s[n].size) as usize },
            ).remove_ensures(n);
            if k < n - 1 {
                assert(t[k] == s[k]);
            } else if k > n - 1 {
                assert(t[k] == s[k + 1]);
            } else {
                assert(area_end(t[k]) == area_end(s[n]));
            }
        } else if merge_prev {
            if k != n - 1 {
                assert(t[k] == s[k]);
            }
        } else if merge_next {
            if k != n {
                assert(t[k] == s[k]);
            } else {
                assert(area_end(t[k]) == area_end(s[n]));
            }
        } else {
            s.insert_ensures(n, Area { addr: addr as usize, size: size as usize });
            if k < n {
                assert(t[k] == s[k]);
            } else if k > n {
                assert(t[k] == s[k - 1]);
            }
        }
    }
}

/// Round trip on a fresh map: from a single area `[addr, addr + size)`,
/// any allocation of `req <= size` bytes at alignment 1 returns `addr`
/// itself, and freeing `[addr, addr + req)` again restores the single
/// original area, so the map reports `size` free bytes in one area.
pub proof fn lemma_single_area_roundtrip(addr: usize, size: usize, req: usize)
    requires
        0 < req <= size,
        addr + size <= usize::MAX,
    ensures
        ({
            let m0 = seq![Area { addr, size }];
            &&& wf_areas(m0)
            &&& has_fit(m0, req as int, 1)
            &&& alloc_addr(m0, req as int, 1) == addr
            &&& free_areas(alloc_areas(m0, req as int, 1), addr as int, req as int) == m0
            &&& total_bytes(m0) == size
            &&& m0.len() == 1
        }),
{
    let m0 = seq![Area { addr, size }];
    lemma_total_bytes_singleton(Area { addr, size });
    assert(addr as int % 1 == 0) by {
        lemma_fundamental_div_mod(addr as int, 1);
    }
    assert(align_gap(addr as int, 1) == 0);
    assert(area_fits(m0[0], req as int, 1));
    assert(find_fit(m0, req as int, 1) == 0);
    lemma_allocate_free_roundtrip(m0, req as int, 1);
}

/// One step of an allocate/free history of a map.
pub enum MemOp {
    Allocate { size: usize, align: usize },
    Free { addr: usize, size: usize },
}

/// The free list after one operation; a failed allocation leaves it
/// unchanged.
pub open spec fn apply_op(s: Seq<Area>, op: MemOp) -> Seq<Area> {
    match op {
        MemOp::Allocate { size, align } => if has_fit(s, size as int, align as int) {
            alloc_areas(s, size as int, align as int)
        } else {
            s
        },
        MemOp::Free { addr, size } => free_areas(s, addr as int, size as int),
    }
}

/// Whether an operation is admissible on `s`: sizes are positive, the
/// alignment is at least one, and a freed region does not wrap and does
/// not overlap the free list.
pub open spec fn op_valid(s: Seq<Area>, op: MemOp) -> bool {
    match op {
        MemOp::Allocate { size, align } => 1 <= size && 1 <= align,
        MemOp::Free { addr, size } => 1 <= size && addr + size <= usize::MAX && free_disjoint(
            s,
            addr as int,
            size as int,
        ),
    }
}

/// Net bytes one operation takes out of the free pool: the size of a
/// successful allocation, the negated size of a free.
pub open spec fn op_delta(s: Seq<Area>, op: MemOp) -> int {
    match op {
        MemOp::Allocate { size, align } => if has_fit(s, size as int, align as int) {
            size as int
        } else {
            0
        },
        MemOp::Free { addr, size } => -(size as int),
    }
}

/// The free list after a whole history of operations.
pub open spec fn run_ops(s: Seq<Area>, ops: Seq<MemOp>) -> Seq<Area>
    decreases ops.len(),
{
    if ops.len() == 0 {
        s
    } else {
        run_ops(apply_op(s, ops[0]), ops.skip(1))
    }
}

/// Whether every operation of the history is admissible on the list it
/// meets.
pub open spec fn ops_valid(s: Seq<Area>, ops: Seq<MemOp>) -> bool
    decreases ops.len(),
{
    if ops.len() == 0 {
        true
    } else {
        op_valid(s, ops[0]) && ops_valid(apply_op(s, ops[0]), ops.skip(1))
    }
}

/// Sum of the bytes the history's operations take out of the free pool:
/// the outstanding allocated bytes.
pub open spec fn taken_bytes(s: Seq<Area>, ops: Seq<MemOp>) -> int
    decreases ops.len(),
{
    if ops.len() == 0 {
        0
    } else {
        op_delta(s, ops[0]) + taken_bytes(apply_op(s, ops[0]), ops.skip(1))
    }
}

/// For any admissible sequence of allocate and free operations, the
/// free list stays well formed — strictly ordered by address, no two
/// areas touching — and its total free bytes equal the starting total
/// minus the outstanding allocated bytes.
pub proof fn lemma_history_accounting(s: Seq<Area>, ops: Seq<MemOp>)
    requires
        wf_areas(s),
        ops_valid(s, ops),
    ensures
        wf_areas(run_ops(s, ops)),
        total_bytes(run_ops(s, ops)) == total_bytes(s) - taken_bytes(s, ops),
    decreases ops.len(),
{
    if ops.len() > 0 {
        let s1 = apply_op(s, ops[0]);
        match ops[0] {
            MemOp::Allocate { size, align } => {
                if has_fit(s, size as int, align as int) {
                    lemma_allocate_step(s, size as int, align as int);
                }
            },
            MemOp::Free { addr, size } => {
                lemma_free_step(s, addr as int, size as int);
            },
        }
        lemma_history_accounting(s1, ops.skip(1));
    }
}

/// Ordered list of the free extents of one contiguous address range.
pub struct MemMap {
    areas: Vec<Area>,
}

impl View for MemMap {
    type V = Seq<Area>;

    closed spec fn view(&self) -> Seq<Area> {
        self.areas@
    }
}

impl MemMap {
    /// Well-formed map: see `wf_areas`.
    pub open spec fn wf(&self) -> bool {
        wf_areas(self@)
    }

    /// Creates a map whose single free area spans `[addr, addr + size)`.
    pub fn new(addr: usize, size: usize) -> (r: MemMap)
        requires
            0 < size,
            addr + size <= usize::MAX,
        ensures
            r@ == seq![Area { addr, size }],
            r.wf(),
    {
        let mut areas: Vec<Area> = Vec::new();
        areas.push(Area::new(addr, size));
        proof {
            assert(areas@ =~= seq![Area { addr, size }]);
        }
        MemMap { areas }
    }

    /// Serves `size` bytes at alignment `align`, first fit.  The first
    /// area that can hold an aligned region of `size` bytes is carved:
    /// an alignment gap in front of the result stays in the free pool as
    /// an area of its own, and an area that becomes empty is removed.
    /// Fails with `NoSpace` if and only if no area fits.
    #[verifier::rlimit(60)]
    pub fn allocate(&mut self, size: usize, align: usize) -> (r: Result<usize, Error>)
        requires
            old(self).wf(),
            1 <= size,
            1 <= align,
        ensures
            final(self).wf(),
            has_fit(old(self)@, size as int, align as int) ==> {
                &&& r == Ok::<usize, Error>(
                    alloc_addr(old(self)@, size as int, align as int) as usize,
                )
                &&& final(self)@ == alloc_areas(old(self)@, size as int, align as int)
                &&& total_bytes(final(self)@) == total_bytes(old(self)@) - size
                &&& alloc_addr(old(self)@, size as int, align as int) % (align as int) == 0
                &&& free_disjoint(
                    final(self)@,
                    alloc_addr(old(self)@, size as int, align as int),
                    size as int,
                )
            },
            !has_fit(old(self)@, size as int, align as int) ==> r == Err::<usize, Error>(
                (Error { code: Code::NoSpace }),
            ) && final(self)@ == old(self)@ && total_bytes(final(self)@) == total_bytes(
                old(self)@,
            ),
    {
        let ghost s0 = self.areas@;
        proof {
            lemma_find_fit_props(s0, size as int, align as int);
        }
        let mut i: usize = 0;
        while i < self.areas.len()
            invariant
                self.wf(),
                self.areas@ == s0,
                s0 == old(self)@,
                i <= s0.len(),
                1 <= size,
                1 <= align,
                forall|k: int| 0 <= k < i ==> !area_fits(#[trigger] s0[k], size as int, align as int),
            decreases s0.len() - i,
        {
            let a = self.areas[i];
            let rem = a.addr % align;
            let d = if rem == 0 {
                0usize
            } else {
                align - rem
            };
            proof {
                lemma_align_gap(a.addr as int, align as int);
                assert(d == align_gap(a.addr as int, align as int));
            }
            if d <= a.size && size <= a.size - d {
                proof {
                    assert(area_fits(s0[i as int], size as int, align as int));
                    lemma_find_fit_props(s0, size as int, align as int);
                    let f = find_fit(s0, size as int, align as int);
                    if f < i as int {
                        assert(area_fits(s0[f], size as int, align as int));
                        assert(!area_fits(s0[f], size as int, align as int));
                    }
                    if f > i as int {
                        assert(!area_fits(s0[i as int], size as int, align as int));
                    }
                    assert(f == i as int);
                    lemma_allocate_step(s0, size as int, align as int);
                }
                let rest = a.size - d - size;
                let res = a.addr + d;
                if d > 0 && rest > 0 {
                    self.areas[i] = Area::new(a.addr, d);
                    self.areas.insert(i + 1, Area::new(res + size, rest));
                } else if d > 0 {
                    self.areas[i] = Area::new(a.addr, d);
                } else if rest > 0 {
                    self.areas[i] = Area::new(res + size, rest);
                } else {
                    self.areas.remove(i);
                }
                proof {
                    assert(self.areas@ == alloc_areas(s0, size as int, align as int));
                }
                return Ok(res);
            }
            i = i + 1;
        }
        proof {
            assert(!has_fit(s0, size as int, align as int));
        }
        Err(Error::new(Code::NoSpace))
    }

    /// Returns the region `[addr, addr + size)` to the free pool,
    /// merging it with the area that ends at `addr`, the area that
    /// starts at `addr + size`, both, or neither.  The region must not
    /// overlap any free area.
    #[verifier::rlimit(60)]
    pub fn free(&mut self, addr: usize, size: usize)
        requires
            old(self).wf(),
            1 <= size,
            addr + size <= usize::MAX,
            free_disjoint(old(self)@, addr as int, size as int),
        ensures
            final(self).wf(),
            final(self)@ == free_areas(old(self)@, addr as int, size as int),
            total_bytes(final(self)@) == total_bytes(old(self)@) + size,
    {
        let ghost s0 = self.areas@;
        proof {
            lemma_find_at_or_after_props(s0, addr as int);
            lemma_free_step(s0, addr as int, size as int);
        }
        let mut n: usize = 0;
        while n < self.areas.len() && self.areas[n].addr < addr
            invariant
                self.areas@ == s0,
                n <= s0.len(),
                forall|k: int| 0 <= k < n ==> (#[trigger] s0[k]).addr < addr,
            decreases s0.len() - n,
        {
            n = n + 1;
        }
        proof {
            assert(find_at_or_after(s0, addr as int) == n as int);
        }
        let merge_prev = n > 0 && {
            let p = self.areas[n - 1];
            p.addr + p.size == addr
        };
        let merge_next = n < self.areas.len() && addr + size == self.areas[n].addr;
        if merge_prev && merge_next {
            let p = self.areas[n - 1];
            let nx = self.areas[n];
            proof {
                assert(area_end(s0[n as int - 1]) == addr && addr + size == s0[n as int].addr);
                assert(area_end(s0[n as int]) <= usize::MAX);
            }
            self.areas[n - 1] = Area::new(p.addr, p.size + size + nx.size);
            self.areas.remove(n);
        } else if merge_prev {
            let p = self.areas[n - 1];
            self.areas[n - 1] = Area::new(p.addr, p.size + size);
        } else if merge_next {
            let nx = self.areas[n];
            proof {
                assert(area_end(s0[n as int]) <= usize::MAX);
            }
            self.areas[n] = Area::new(addr, size + nx.size);
        } else {
            self.areas.insert(n, Area::new(addr, size));
        }
        proof {
            assert(self.areas@ == free_areas(s0, addr as int, size as int));
        }
    }

    /// Returns the total number of free bytes and the number of areas.
    #[verifier::rlimit(30)]
    pub fn size(&self) -> (r: (usize, usize))
        requires
            self.wf(),
        ensures
            r.0 == total_bytes(self@),
            r.1 == self@.len(),
    {
        proof {
            lemma_total_bytes_bounds(self@);
            assert(self@.skip(0) =~= self@);
        }
        let mut total: usize = 0;
        let mut i: usize = 0;
        while i < self.areas.len()
            invariant
                self.wf(),
                i <= self.areas.len(),
                total == total_bytes(self@) - total_bytes(self@.skip(i as int)),
                total_bytes(self@) <= usize::MAX,
            decreases self.areas.len() - i,
        {
            proof {
                assert(self@.skip(i as int).skip(1) =~= self@.skip(i as int + 1));
                assert(self@.skip(i as int)[0] == self@[i as int]);
                lemma_total_bytes_bounds(self@.skip(i as int + 1));
                lemma_total_bytes_bounds(self@.skip(i as int));
            }
            total = total + self.areas[i].size;
            i = i + 1;
        }
        proof {
            assert(self@.skip(self@.len() as int) =~= Seq::<Area>::empty());
        }
        (total, self.areas.len())
    }

    /// The map's log block, one line per free area.
    pub fn fmt_text(&self) -> (r: String)
        ensures
            r@ == mem_map_text(self@),
    {
        let mut out = String::new();
        out.append("[\n");
        let mut i: usize = 0;
        while i < self.areas.len()
            invariant
                i <= self.areas@.len(),
                out@ == "[\n"@ + mem_map_lines(self@, i as int),
            decreases self.areas@.len() - i,
        {
            out.append("    ");
            let line = self.areas[i].fmt_text();
            out.append(line.as_str());
            out.append("\n");
            proof {
                assert(out@ =~= "[\n"@ + mem_map_lines(self@, i as int + 1));
            }
            i = i + 1;
        }
        out.append("  ]");
        proof {
            assert(out@ =~= mem_map_text(self@));
        }
        out
    }
}

/// `find_fit` names the first area that fits, if any fits at all.
proof fn lemma_find_fit_props(s: Seq<Area>, size: int, align: int)
    ensures
        0 <= find_fit(s, size, align) <= s.len(),
        forall|k: int| 0 <= k < find_fit(s, size, align) ==> !area_fits(#[trigger] s[k], size, align),
        find_fit(s, size, align) < s.len() ==> area_fits(s[find_fit(s, size, align)], size, align),
    decreases s.len(),
{
    if s.len() > 0 && !area_fits(s[0], size, align) {
        lemma_find_fit_props(s.skip(1), size, align);
        let f = find_fit(s, size, align);
        assert(f == 1 + find_fit(s.skip(1), size, align));
        assert forall|k: int| 0 <= k < f implies !area_fits(#[trigger] s[k], size, align) by {
            if k > 0 {
                assert(s.skip(1)[k - 1] == s[k]);
            }
        }
        if f < s.len() {
            assert(s.skip(1)[f - 1] == s[f]);
        }
    }
}

/// `find_at_or_after` names the first area at or after `addr`, if any.
proof fn lemma_find_at_or_after_props(s: Seq<Area>, addr: int)
    ensures
        0 <= find_at_or_after(s, addr) <= s.len(),
        forall|k: int| 0 <= k < find_at_or_after(s, addr) ==> (#[trigger] s[k]).addr < addr,
        find_at_or_after(s, addr) < s.len() ==> addr <= s[find_at_or_after(s, addr)].addr,
    decreases s.len(),
{
    if s.len() > 0 && !(addr <= s[0].addr) {
        lemma_find_at_or_after_props(s.skip(1), addr);
        let n = find_at_or_after(s, addr);
        assert(n == 1 + find_at_or_after(s.skip(1), addr));
        assert forall|k: int| 0 <= k < n implies (#[trigger] s[k]).addr < addr by {
            if k > 0 {
                assert(s.skip(1)[k - 1] == s[k]);
            }
        }
        if n < s.len() {
            assert(s.skip(1)[n - 1] == s[n]);
        }
    }
}

/// The alignment gap is less than `align` and rounds the address up to a
/// multiple of `align`.
proof fn lemma_align_gap(addr: int, align: int)
    requires
        0 <= addr,
        1 <= align,
    ensures
        0 <= align_gap(addr, align) < align,
        (addr + align_gap(addr, align)) % align == 0,
{
    lemma_fundamental_div_mod(addr, align);
    vstd::arithmetic::div_mod::lemma_mod_bound(addr, align);
    if addr % align != 0 {
        let q = addr / align;
        assert(addr == align * q + addr % align);
        vstd::arithmetic::mul::lemma_mul_is_distributive_add(align, q, 1);
        vstd::arithmetic::mul::lemma_mul_basics(align);
        assert(addr + align_gap(addr, align) == align * (q + 1));
        lemma_mod_multiples_basic(q + 1, align);
    } else {
        lemma_mod_multiples_basic(addr / align, align);
    }
}

/// A one-element list holds that area's bytes.
proof fn lemma_total_bytes_singleton(a: Area)
    ensures
        total_bytes(seq![a]) == a.size,
{
    assert(seq![a].skip(1) =~= Seq::<Area>::empty());
    assert(total_bytes(Seq::<Area>::empty()) == 0);
}

/// Replacing one area changes the free bytes by the difference in size.
proof fn lemma_total_bytes_update(s: Seq<Area>, i: int, x: Area)
    requires
        0 <= i < s.len(),
    ensures
        total_bytes(s.update(i, x)) == total_bytes(s) - s[i].size + x.size,
    decreases i,
{
    if i == 0 {
        assert(s.update(0, x).skip(1) =~= s.skip(1));
        assert(s.update(0, x)[0] == x);
    } else {
        lemma_total_bytes_update(s.skip(1), i - 1, x);
        assert(s.update(i, x).skip(1) =~= s.skip(1).update(i - 1, x));
        assert(s.update(i, x)[0] == s[0]);
    }
}

/// Inserting an area adds its bytes to the free pool.
proof fn lemma_total_bytes_insert(s: Seq<Area>, i: int, x: Area)
    requires
        0 <= i <= s.len(),
    ensures
        total_bytes(s.insert(i, x)) == total_bytes(s) + x.size,
    decreases i,
{
    if i == 0 {
        assert(s.insert(0, x).skip(1) =~= s);
        assert(s.insert(0, x)[0] == x);
    } else {
        lemma_total_bytes_insert(s.skip(1), i - 1, x);
        assert(s.insert(i, x).skip(1) =~= s.skip(1).insert(i - 1, x));
        assert(s.insert(i, x)[0] == s[0]);
    }
}

/// Removing an area takes its bytes out of the free pool.
proof fn lemma_total_bytes_remove(s: Seq<Area>, i: int)
    requires
        0 <= i < s.len(),
    ensures
        total_bytes(s.remove(i)) == total_bytes(s) - s[i].size,
    decreases i,
{
    if i == 0 {
        assert(s.remove(0) =~= s.skip(1));
    } else {
        lemma_total_bytes_remove(s.skip(1), i - 1);
        assert(s.remove(i).skip(1) =~= s.skip(1).remove(i - 1));
        assert(s.remove(i)[0] == s[0]);
    }
}

/// Accounting for one successful allocation: exactly `size` bytes leave
/// the free pool.
proof fn lemma_alloc_accounting(s: Seq<Area>, size: int, align: int)
    requires
        wf_areas(s),
        1 <= size,
        1 <= align,
        has_fit(s, size, align),
    ensures
        total_bytes(alloc_areas(s, size, align)) == total_bytes(s) - size,
{
    lemma_find_fit_props(s, size, align);
    let i = find_fit(s, size, align);
    let a = s[i];
    let d = align_gap(a.addr as int, align);
    let rest = a.size - d - size;
    lemma_align_gap(a.addr as int, align);
    if d > 0 && rest > 0 {
        let pre = Area { addr: a.addr, size: d as usize };
        let post = Area { addr: (a.addr + d + size) as usize, size: rest as usize };
        lemma_total_bytes_update(s, i, pre);
        lemma_total_bytes_insert(s.update(i, pre), i + 1, post);
    } else if d > 0 {
        lemma_total_bytes_update(s, i, Area { addr: a.addr, size: d as usize });
    } else if rest > 0 {
        lemma_total_bytes_update(
            s,
            i,
            Area { addr: (a.addr + d + size) as usize, size: rest as usize },
        );
    } else {
        lemma_total_bytes_remove(s, i);
    }
}

/// Carving `[r, r + size)` out of the middle of area `i`, leaving both a
/// gap in front and a remainder behind, keeps the list well-formed.
proof fn lemma_carve_split(s: Seq<Area>, i: int, d: int, size: int, rest: int)
    requires
        wf_areas(s),
        0 <= i < s.len(),
        1 <= size,
        0 < d,
        0 < rest,
        s[i].size == d + size + rest,
    ensures
        ({
            let a = s[i];
            let pre = Area { addr: a.addr, size: d as usize };
            let post = Area { addr: (a.addr + d + size) as usize, size: rest as usize };
            let t = s.update(i, pre).insert(i + 1, post);
            wf_areas(t) && free_disjoint(t, a.addr + d, size)
        }),
{
    let a = s[i];
    let r = a.addr + d;
    let pre = Area { addr: a.addr, size: d as usize };
    let post = Area { addr: (a.addr + d + size) as usize, size: rest as usize };
    let u = s.update(i, pre);
    let t = u.insert(i + 1, post);
    u.insert_ensures(i + 1, post);
    assert forall|k: int| 0 <= k < t.len() implies 0 < (#[trigger] t[k]).size && area_end(t[k])
        <= usize::MAX by {
        if k <= i {
            assert(t[k] == u[k]);
        } else if k > i + 1 {
            assert(t[k] == s[k - 1]);
        }
    }
    assert forall|k: int, m: int| 0 <= k < m < t.len() implies area_end(#[trigger] t[k]) < (
    #[trigger] t[m]).addr by {
        let tk = if k < i {
            s[k]
        } else if k == i {
            pre
        } else if k == i + 1 {
            post
        } else {
            s[k - 1]
        };
        let tm = if m < i {
            s[m]
        } else if m == i {
            pre
        } else if m == i + 1 {
            post
        } else {
            s[m - 1]
        };
        assert(t[k] == tk && t[m] == tm);
    }
    assert forall|k: int| 0 <= k < t.len() implies (r + size <= (#[trigger] t[k]).addr || area_end(
        t[k],
    ) <= r) by {
        if k < i {
            assert(t[k] == s[k]);
            assert(area_end(s[k]) < a.addr);
        } else if k > i + 1 {
            assert(t[k] == s[k - 1]);
            assert(area_end(s[i]) < s[k - 1].addr);
        }
    }
}

/// Replacing area `i` by a sub-area that ends where it ended, or starts
/// where it started, keeps the list well-formed; the bytes between the
/// replacement and the rest of the old area are no longer free.
proof fn lemma_carve_update(s: Seq<Area>, i: int, x: Area, r: int, size: int)
    requires
        wf_areas(s),
        0 <= i < s.len(),
        1 <= size,
        0 < x.size,
        s[i].addr <= x.addr,
        area_end(x) <= area_end(s[i]),
        // the taken region [r, r + size) lies in the old area, clear of x
        s[i].addr <= r,
        r + size <= area_end(s[i]),
        area_end(x) <= r || r + size <= x.addr,
    ensures
        wf_areas(s.update(i, x)),
        free_disjoint(s.update(i, x), r, size),
{
    let t = s.update(i, x);
    assert forall|k: int, m: int| 0 <= k < m < t.len() implies area_end(#[trigger] t[k]) < (
    #[trigger] t[m]).addr by {
        if k != i {
            assert(t[k] == s[k]);
        }
        if m != i {
            assert(t[m] == s[m]);
        }
    }
    assert forall|k: int| 0 <= k < t.len() implies (r + size <= (#[trigger] t[k]).addr || area_end(
        t[k],
    ) <= r) by {
        if k < i {
            assert(t[k] == s[k]);
            assert(area_end(s[k]) < s[i].addr);
        } else if k > i {
            assert(t[k] == s[k]);
            assert(area_end(s[i]) < s[k].addr);
        }
    }
}

/// Removing a whole area keeps the list well-formed, and its bytes are no
/// longer free.
proof fn lemma_carve_remove(s: Seq<Area>, i: int)
    requires
        wf_areas(s),
        0 <= i < s.len(),
    ensures
        wf_areas(s.remove(i)),
        free_disjoint(s.remove(i), s[i].addr as int, s[i].size as int),
{
    let t = s.remove(i);
    let r = s[i].addr as int;
    let size = s[i].size as int;
    s.remove_ensures(i);
    assert forall|k: int, m: int| 0 <= k < m < t.len() implies area_end(#[trigger] t[k]) < (
    #[trigger] t[m]).addr by {
        let tk = if k < i {
            s[k]
        } else {
            s[k + 1]
        };
        let tm = if m < i {
            s[m]
        } else {
            s[m + 1]
        };
        assert(t[k] == tk && t[m] == tm);
    }
    assert forall|k: int| 0 <= k < t.len() implies (r + size <= (#[trigger] t[k]).addr || area_end(
        t[k],
    ) <= r) by {
        if k < i {
            assert(t[k] == s[k]);
            assert(area_end(s[k]) < s[i].addr);
        } else {
            assert(t[k] == s[k + 1]);
            assert(area_end(s[i]) < s[k + 1].addr);
        }
    }
}

/// One successful allocation keeps the free list well-formed, and the
/// taken region overlaps no remaining free area.
proof fn lemma_alloc_wf(s: Seq<Area>, size: int, align: int)
    requires
        wf_areas(s),
        1 <= size,
        1 <= align,
        has_fit(s, size, align),
    ensures
        wf_areas(alloc_areas(s, size, align)),
        free_disjoint(alloc_areas(s, size, align), alloc_addr(s, size, align), size),
{
    lemma_find_fit_props(s, size, align);
    let i = find_fit(s, size, align);
    let a = s[i];
    let d = align_gap(a.addr as int, align);
    let rest = a.size - d - size;
    let r = alloc_addr(s, size, align);
    lemma_align_gap(a.addr as int, align);
    if d > 0 && rest > 0 {
        lemma_carve_split(s, i, d, size, rest);
    } else if d > 0 {
        lemma_carve_update(s, i, Area { addr: a.addr, size: d as usize }, r, size);
    } else if rest > 0 {
        lemma_carve_update(
            s,
            i,
            Area { addr: (a.addr + d + size) as usize, size: rest as usize },
            r,
            size,
        );
    } else {
        lemma_carve_remove(s, i);
    }
}

/// What one successful aligned allocation does to a well-formed free
/// list: the list stays well-formed, exactly `size` bytes leave the free
/// pool, the returned address is a multiple of the alignment, it lies
/// inside the chosen free area, and the taken region no longer overlaps
/// any free area.
pub proof fn lemma_allocate_step(s: Seq<Area>, size: int, align: int)
    requires
        wf_areas(s),
        1 <= size,
        1 <= align,
        has_fit(s, size, align),
    ensures
        wf_areas(alloc_areas(s, size, align)),
        total_bytes(alloc_areas(s, size, align)) == total_bytes(s) - size,
        alloc_addr(s, size, align) % align == 0,
        ({
            let i = find_fit(s, size, align);
            let r = alloc_addr(s, size, align);
            s[i].addr <= r && r + size <= area_end(s[i])
        }),
        free_disjoint(alloc_areas(s, size, align), alloc_addr(s, size, align), size),
{
    lemma_find_fit_props(s, size, align);
    let i = find_fit(s, size, align);
    lemma_align_gap(s[i].addr as int, align);
    lemma_alloc_accounting(s, size, align);
    lemma_alloc_wf(s, size, align);
}

/// Free bytes are nonnegative, and in a well-formed list they are bounded
/// by the span from the first address to the last end, so they fit in
/// `usize`.
pub proof fn lemma_total_bytes_bounds(s: Seq<Area>)
    ensures
        0 <= total_bytes(s),
        wf_areas(s) && s.len() > 0 ==> total_bytes(s) <= area_end(s[s.len() - 1]) - s[0].addr,
        wf_areas(s) ==> total_bytes(s) <= usize::MAX,
    decreases s.len(),
{
    if s.len() == 0 {
    } else {
        lemma_total_bytes_bounds(s.skip(1));
        assert(wf_areas(s) ==> wf_areas(s.skip(1))) by {
            if wf_areas(s) {
                assert forall|i: int| 0 <= i < s.skip(1).len() implies 0 < (#[trigger] s.skip(
                    1,
                )[i]).size && area_end(s.skip(1)[i]) <= usize::MAX by {
                    assert(s.skip(1)[i] == s[i + 1]);
                }
                assert forall|i: int, j: int| 0 <= i < j < s.skip(1).len() implies area_end(
                    #[trigger] s.skip(1)[i],
                ) < (#[trigger] s.skip(1)[j]).addr by {
                    assert(s.skip(1)[i] == s[i + 1]);
                    assert(s.skip(1)[j] == s[j + 1]);
                }
            }
        }
        if wf_areas(s) && s.len() > 1 {
            assert(s.skip(1)[0] == s[1]);
            assert(s.skip(1)[s.skip(1).len() - 1] == s[s.len() - 1]);
            assert(area_end(s[0]) < s[1].addr);
        }
    }
}

} // verus!
