use vstd::prelude::*;
use crate::memory::memmap::{MemoryKind, MemoryRegion};

verus! {

/// A contiguous region of physical memory handed out by the [`SectManager`]:
/// `size` bytes starting at address `base`.
#[derive(Clone, Copy, Debug, PartialEq, Eq, Structural)]
pub struct Sect {
    pub base: usize,
    pub size: usize,
}

impl Sect {
    /// The empty section at address zero.
    pub fn null() -> (s: Sect)
        ensures
            s == null_sect(),
    {
        Sect { base: 0, size: 0 }
    }

    /// A section of `size` bytes starting at `base`.
    pub fn new(size: usize, base: usize) -> (s: Sect)
        ensures
            s.base == base,
            s.size == size,
    {
        Sect { base, size }
    }
}

/// The value of [`Sect::null`].
pub open spec fn null_sect() -> Sect {
    Sect { base: 0, size: 0 }
}

/// Number of section slots a [`SectManager`] has.
pub const SECTION_MAX: usize = 16;

/// Whether bit `k` (0 = least significant) of `byte` is set.
pub open spec fn bit_of(byte: u8, k: int) -> bool {
    (byte >> (k as u8)) & 1u8 == 1u8
}

/// Number of occupied slots.
pub open spec fn count_present(s: Seq<Option<Sect>>) -> nat
    decreases s.len(),
{
    if s.len() == 0 {
        0
    } else {
        count_present(s.drop_last()) + if s.last() is Some { 1nat } else { 0nat }
    }
}

/// Sum of the sizes of the occupied slots.
pub open spec fn total_size(s: Seq<Option<Sect>>) -> nat
    decreases s.len(),
{
    if s.len() == 0 {
        0
    } else {
        total_size(s.drop_last()) + match s.last() {
            Some(x) => x.size as nat,
            None => 0nat,
        }
    }
}

/// Number of indices below `n` whose flag is clear.
pub open spec fn count_unused(used: Seq<bool>, n: int) -> nat
    decreases n,
{
    if n <= 0 {
        0
    } else {
        count_unused(used, n - 1) + if used[n - 1] { 0nat } else { 1nat }
    }
}

/// `k` is the lowest empty slot of `s`.
pub open spec fn is_first_empty(s: Seq<Option<Sect>>, k: int) -> bool {
    &&& 0 <= k < s.len()
    &&& s[k] is None
    &&& forall|j: int| 0 <= j < k ==> (#[trigger] s[j]) is Some
}

/// The lowest empty slot of `s` (meaningful when `s` has one).
pub open spec fn first_empty(s: Seq<Option<Sect>>) -> int {
    choose|k: int| is_first_empty(s, k)
}

/// `s` with `x` stored in its lowest empty slot.
pub open spec fn with_added(s: Seq<Option<Sect>>, x: Sect) -> Seq<Option<Sect>> {
    s.update(first_empty(s), Some(x))
}

/// The section that a memory-map entry describes.
pub open spec fn region_sect(r: MemoryRegion) -> Sect {
    Sect { base: r.base as usize, size: r.len as usize }
}

/// Number of usable entries of a memory map.
pub open spec fn count_usable(regions: Seq<MemoryRegion>) -> nat
    decreases regions.len(),
{
    if regions.len() == 0 {
        0
    } else {
        count_usable(regions.drop_last()) + if regions.last().kind == MemoryKind::Usable {
            1nat
        } else {
            0nat
        }
    }
}

/// `s` after each usable entry of `regions`, in order, was added with [`with_added`].
pub open spec fn with_usable_added(s: Seq<Option<Sect>>, regions: Seq<MemoryRegion>) -> Seq<
    Option<Sect>,
>
    decreases regions.len(),
{
    if regions.len() == 0 {
        s
    } else {
        let t = with_usable_added(s, regions.drop_last());
        if regions.last().kind == MemoryKind::Usable {
            with_added(t, region_sect(regions.last()))
        } else {
            t
        }
    }
}

/// Slot `i` may be handed out: it lies below the number of occupied slots,
/// it is occupied, and its used flag is clear.
pub open spec fn is_candidate(slots: Seq<Option<Sect>>, used: Seq<bool>, i: int) -> bool {
    &&& 0 <= i < count_present(slots)
    &&& i < slots.len()
    &&& !used[i]
    &&& slots[i] is Some
}

/// `k` is the first candidate whose size is exactly `size`.
pub open spec fn is_first_exact(slots: Seq<Option<Sect>>, used: Seq<bool>, size: usize, k: int) -> bool {
    &&& is_candidate(slots, used, k)
    &&& slots[k]->0.size == size
    &&& forall|j: int|
        0 <= j < k && #[trigger] is_candidate(slots, used, j) ==> slots[j]->0.size != size
}

/// `k` is the first candidate that is strictly larger than `size` and, among
/// those, the smallest, considering the candidates below `n`.
pub open spec fn is_best_fit(slots: Seq<Option<Sect>>, used: Seq<bool>, size: usize, k: int, n: int) -> bool {
    &&& is_candidate(slots, used, k)
    &&& k < n
    &&& slots[k]->0.size > size
    &&& forall|j: int|
        0 <= j < n && #[trigger] is_candidate(slots, used, j) && slots[j]->0.size > size
            ==> slots[k]->0.size <= slots[j]->0.size
    &&& forall|j: int|
        0 <= j < k && #[trigger] is_candidate(slots, used, j) && slots[j]->0.size > size
            ==> slots[k]->0.size < slots[j]->0.size
}

/// `k` is the first of the largest candidates below `n`, and it is not empty.
pub open spec fn is_largest(slots: Seq<Option<Sect>>, used: Seq<bool>, k: int, n: int) -> bool {
    &&& is_candidate(slots, used, k)
    &&& k < n
    &&& slots[k]->0.size > 0
    &&& forall|j: int|
        0 <= j < n && #[trigger] is_candidate(slots, used, j) ==> slots[j]->0.size
            <= slots[k]->0.size
    &&& forall|j: int|
        0 <= j < k && #[trigger] is_candidate(slots, used, j) ==> slots[j]->0.size
            < slots[k]->0.size
}

proof fn lemma_bit_update(byte: u8, k: u8, j: u8)
    requires
        k < 8,
        j < 8,
    ensures
        ((byte | (1u8 << k)) >> j) & 1u8 == (if j == k { 1u8 } else { (byte >> j) & 1u8 }),
        ((byte & !(1u8 << k)) >> j) & 1u8 == (if j == k { 0u8 } else { (byte >> j) & 1u8 }),
{
    assert(((byte | (1u8 << k)) >> j) & 1u8 == (if j == k { 1u8 } else { (byte >> j) & 1u8 }))
        by (bit_vector)
        requires
            k < 8,
            j < 8,
    ;
    assert(((byte & !(1u8 << k)) >> j) & 1u8 == (if j == k { 0u8 } else { (byte >> j) & 1u8 }))
        by (bit_vector)
        requires
            k < 8,
            j < 8,
    ;
}

proof fn lemma_count_present_bound(s: Seq<Option<Sect>>)
    ensures
        count_present(s) <= s.len(),
    decreases s.len(),
{
    if s.len() > 0 {
        lemma_count_present_bound(s.drop_last());
    }
}

proof fn lemma_total_size_prefix(s: Seq<Option<Sect>>, i: int)
    requires
        0 <= i <= s.len(),
    ensures
        total_size(s.take(i)) <= total_size(s),
    decreases s.len(),
{
    if i < s.len() {
        assert(s.take(i) =~= s.drop_last().take(i));
        lemma_total_size_prefix(s.drop_last(), i);
    } else {
        assert(s.take(i) =~= s);
    }
}

proof fn lemma_count_unused_bound(used: Seq<bool>, n: int)
    requires
        0 <= n,
    ensures
        count_unused(used, n) <= n,
    decreases n,
{
    if n > 0 {
        lemma_count_unused_bound(used, n - 1);
    }
}

/// Filling an empty slot adds one to the number of occupied slots and the
/// section's size to the total size.
proof fn lemma_fill_slot(s: Seq<Option<Sect>>, k: int, x: Sect)
    requires
        0 <= k < s.len(),
        s[k] is None,
    ensures
        count_present(s.update(k, Some(x))) == count_present(s) + 1,
        total_size(s.update(k, Some(x))) == total_size(s) + x.size,
    decreases s.len(),
{
    let t = s.update(k, Some(x));
    if k == s.len() - 1 {
        assert(t.drop_last() =~= s.drop_last());
    } else {
        assert(t.drop_last() =~= s.drop_last().update(k, Some(x)));
        lemma_fill_slot(s.drop_last(), k, x);
    }
}

/// A sequence with fewer occupied slots than its length has an empty slot.
proof fn lemma_has_empty(s: Seq<Option<Sect>>) -> (k: int)
    requires
        count_present(s) < s.len(),
    ensures
        0 <= k < s.len(),
        s[k] is None,
    decreases s.len(),
{
    if s.last() is None {
        s.len() - 1
    } else {
        let k = lemma_has_empty(s.drop_last());
        k
    }
}

/// The lowest empty slot exists when some slot is empty, and `first_empty` names it.
proof fn lemma_first_empty(s: Seq<Option<Sect>>, k: int)
    requires
        0 <= k < s.len(),
        s[k] is None,
    ensures
        is_first_empty(s, first_empty(s)),
    decreases k,
{
    if forall|j: int| 0 <= j < k ==> (#[trigger] s[j]) is Some {
        assert(is_first_empty(s, k));
    } else {
        let j = choose|j: int| 0 <= j < k && !((#[trigger] s[j]) is Some);
        lemma_first_empty(s, j);
    }
}

/// There is only one lowest empty slot.
proof fn lemma_first_empty_unique(s: Seq<Option<Sect>>, k1: int, k2: int)
    requires
        is_first_empty(s, k1),
        is_first_empty(s, k2),
    ensures
        k1 == k2,
{
    if k1 < k2 {
        assert(s[k1] is Some);
    } else if k2 < k1 {
        assert(s[k2] is Some);
    }
}

proof fn lemma_count_usable_prefix(regions: Seq<MemoryRegion>, i: int)
    requires
        0 <= i <= regions.len(),
    ensures
        count_usable(regions.take(i)) <= count_usable(regions),
    decreases regions.len(),
{
    if i < regions.len() {
        assert(regions.take(i) =~= regions.drop_last().take(i));
        lemma_count_usable_prefix(regions.drop_last(), i);
    } else {
        assert(regions.take(i) =~= regions);
    }
}

proof fn lemma_all_empty(s: Seq<Option<Sect>>)
    requires
        forall|i: int| 0 <= i < s.len() ==> (#[trigger] s[i]) is None,
    ensures
        count_present(s) == 0,
        total_size(s) == 0,
    decreases s.len(),
{
    if s.len() > 0 {
        lemma_all_empty(s.drop_last());
    }
}

/// A table of up to [`SECTION_MAX`] memory sections with a used flag per slot.
pub struct SectManager {
    sections: [Option<Sect>; 16],
    bitmap_buf: [u8; 2],
}

impl SectManager {
    /// The section slots, in order.
    pub closed spec fn slots(&self) -> Seq<Option<Sect>> {
        self.sections@
    }

    /// The used flag of each slot.
    pub closed spec fn used(&self) -> Seq<bool> {
        Seq::new(SECTION_MAX as nat, |i: int| bit_of(self.bitmap_buf@[i / 8], i % 8))
    }

    /// Lengths of the two views.
    pub proof fn lemma_lengths(&self)
        ensures
            self.slots().len() == SECTION_MAX,
            self.used().len() == SECTION_MAX,
    {
    }

    /// A manager with no sections and no used flag set.
    pub fn null() -> (m: SectManager)
        ensures
            m.slots() == Seq::new(SECTION_MAX as nat, |i: int| None::<Sect>),
            m.used() == Seq::new(SECTION_MAX as nat, |i: int| false),
            count_present(m.slots()) == 0,
            total_size(m.slots()) == 0,
    {
        let m = SectManager { sections: [None; 16], bitmap_buf: [0; 2] };
        assert forall|i: int| 0 <= i < SECTION_MAX implies !#[trigger] m.used()[i] by {
            let b = m.bitmap_buf@[i / 8];
            assert(b == 0u8);
            let k = (i % 8) as u8;
            assert((0u8 >> k) & 1u8 == 0u8) by (bit_vector);
        }
        assert(m.slots() =~= Seq::new(SECTION_MAX as nat, |i: int| None::<Sect>));
        assert(m.used() =~= Seq::new(SECTION_MAX as nat, |i: int| false));
        proof {
            lemma_all_empty(m.slots());
        }
        m
    }

    fn get_bit(&self, i: usize) -> (b: bool)
        requires
            i < SECTION_MAX,
        ensures
            b == self.used()[i as int],
    {
        (self.bitmap_buf[i / 8] >> ((i % 8) as u8)) & 1u8 == 1u8
    }

    fn set_bit(&mut self, i: usize, b: bool)
        requires
            i < SECTION_MAX,
        ensures
            final(self).slots() == old(self).slots(),
            final(self).used() == old(self).used().update(i as int, b),
    {
        let k: u8 = (i % 8) as u8;
        let byte: u8 = self.bitmap_buf[i / 8];
        let nb: u8 = if b {
            byte | (1u8 << k)
        } else {
            byte & !(1u8 << k)
        };
        self.bitmap_buf[i / 8] = nb;
        proof {
            assert forall|idx: int| 0 <= idx < SECTION_MAX implies #[trigger] self.used()[idx]
                == old(self).used().update(i as int, b)[idx] by {
                if idx / 8 == i / 8 {
                    lemma_bit_update(byte, k, (idx % 8) as u8);
                }
            }
            assert(self.used() =~= old(self).used().update(i as int, b));
        }
    }

    /// Stores `new_sect` in the lowest empty slot; there must be one.
    pub fn add_sect(&mut self, new_sect: Sect)
        requires
            exists|k: int| 0 <= k < SECTION_MAX && (#[trigger] old(self).slots()[k]) is None,
        ensures
            is_first_empty(old(self).slots(), first_empty(old(self).slots())),
            final(self).slots() == with_added(old(self).slots(), new_sect),
            final(self).used() == old(self).used(),
            count_present(final(self).slots()) == count_present(old(self).slots()) + 1,
            total_size(final(self).slots()) == total_size(old(self).slots()) + new_sect.size,
    {
        let ghost s = self.slots();
        proof {
            let k = choose|k: int| 0 <= k < SECTION_MAX && (#[trigger] s[k]) is None;
            lemma_first_empty(s, k);
        }
        let mut i: usize = 0;
        while i < SECTION_MAX
            invariant
                self.sections == old(self).sections,
                self.bitmap_buf == old(self).bitmap_buf,
                s == self.slots(),
                is_first_empty(s, first_empty(s)),
                0 <= i <= SECTION_MAX,
                forall|j: int| 0 <= j < i ==> (#[trigger] s[j]) is Some,
            decreases SECTION_MAX - i,
        {
            match self.sections[i] {
                None => {
                    proof {
                        assert(is_first_empty(s, i as int));
                        lemma_first_empty_unique(s, i as int, first_empty(s));
                        lemma_fill_slot(s, i as int, new_sect);
                    }
                    self.sections[i] = Some(new_sect);
                    assert(self.slots() =~= with_added(s, new_sect));
                    return;
                },
                _ => (),
            }
            i = i + 1;
        }
        proof {
            assert(s[first_empty(s)] is Some);
        }
        vstd::pervasive::unreached()
    }

    /// Number of occupied slots.
    pub fn sect_count(&self) -> (n: u8)
        ensures
            n == count_present(self.slots()),
    {
        let ghost s = self.slots();
        let mut total: u8 = 0;
        let mut i: usize = 0;
        while i < SECTION_MAX
            invariant
                s == self.slots(),
                0 <= i <= SECTION_MAX,
                total == count_present(s.take(i as int)),
            decreases SECTION_MAX - i,
        {
            proof {
                assert(s.take(i + 1).drop_last() =~= s.take(i as int));
                lemma_count_present_bound(s.take(i as int));
            }
            match self.sections[i] {
                Some(_val) => total = total + 1,
                _ => (),
            }
            i = i + 1;
        }
        assert(s.take(SECTION_MAX as int) =~= s);
        total
    }

    /// Total size of the occupied slots; the sum must fit in a `usize`.
    pub fn space(&self) -> (total: usize)
        requires
            total_size(self.slots()) <= usize::MAX,
        ensures
            total == total_size(self.slots()),
    {
        let ghost s = self.slots();
        let mut total: usize = 0;
        let mut i: usize = 0;
        while i < SECTION_MAX
            invariant
                s == self.slots(),
                total_size(s) <= usize::MAX,
                0 <= i <= SECTION_MAX,
                total == total_size(s.take(i as int)),
            decreases SECTION_MAX - i,
        {
            proof {
                assert(s.take(i + 1).drop_last() =~= s.take(i as int));
                lemma_total_size_prefix(s, i + 1);
            }
            match self.sections[i] {
                Some(val) => total = total + val.size,
                _ => (),
            }
            i = i + 1;
        }
        assert(s.take(SECTION_MAX as int) =~= s);
        total
    }

    /// Hands out the first candidate slot and sets its used flag; there must be one.
    pub fn req_sect(&mut self) -> (r: (Sect, usize))
        requires
            exists|i: int| is_candidate(old(self).slots(), old(self).used(), i),
        ensures
            is_candidate(old(self).slots(), old(self).used(), r.1 as int),
            forall|j: int|
                0 <= j < r.1 ==> !#[trigger] is_candidate(old(self).slots(), old(self).used(), j),
            old(self).slots()[r.1 as int] == Some(r.0),
            final(self).slots() == old(self).slots(),
            final(self).used() == old(self).used().update(r.1 as int, true),
    {
        let ghost s = self.slots();
        let ghost u = self.used();
        let count = self.sect_count() as usize;
        proof {
            lemma_count_present_bound(s);
        }
        let mut i: usize = 0;
        while i < count
            invariant
                self.sections == old(self).sections,
                self.bitmap_buf == old(self).bitmap_buf,
                s == self.slots(),
                u == self.used(),
                count == count_present(s),
                count <= SECTION_MAX,
                0 <= i <= count,
                exists|k: int| is_candidate(s, u, k),
                forall|j: int| 0 <= j < i ==> !#[trigger] is_candidate(s, u, j),
            decreases count - i,
        {
            if !self.get_bit(i) {
                match self.sections[i] {
                    None => (),
                    Some(val) => {
                        self.set_bit(i, true);
                        return (val, i);
                    },
                }
            }
            i = i + 1;
        }
        proof {
            let k = choose|k: int| is_candidate(s, u, k);
            assert(!is_candidate(s, u, k));
        }
        vstd::pervasive::unreached()
    }

    /// Hands out the first of the largest non-empty candidate slots and sets its
    /// used flag; with no non-empty candidate it returns the null section with
    /// index 0 and sets the flag of slot 0.
    pub fn req_large_sect(&mut self) -> (r: (Sect, usize))
        ensures
            ({
                let s = old(self).slots();
                let u = old(self).used();
                ||| (is_largest(s, u, r.1 as int, SECTION_MAX as int) && s[r.1 as int] == Some(r.0))
                ||| ((forall|j: int| #[trigger] is_candidate(s, u, j) ==> s[j]->0.size == 0)
                    && r.0 == null_sect() && r.1 == 0)
            }),
            final(self).slots() == old(self).slots(),
            final(self).used() == old(self).used().update(r.1 as int, true),
    {
        let ghost s = self.slots();
        let ghost u = self.used();
        let count = self.sect_count() as usize;
        proof {
            lemma_count_present_bound(s);
        }
        let mut biggest: (Sect, usize) = (Sect::null(), 0);
        let mut i: usize = 0;
        while i < count
            invariant
                self.sections == old(self).sections,
                self.bitmap_buf == old(self).bitmap_buf,
                s == self.slots(),
                u == self.used(),
                count == count_present(s),
                count <= SECTION_MAX,
                0 <= i <= count,
                biggest.1 < SECTION_MAX,
                ({
                    ||| (is_largest(s, u, biggest.1 as int, i as int) && s[biggest.1 as int]
                        == Some(biggest.0))
                    ||| ((forall|j: int|
                        0 <= j < i && #[trigger] is_candidate(s, u, j) ==> s[j]->0.size == 0)
                        && biggest.0 == null_sect() && biggest.1 == 0)
                }),
            decreases count - i,
        {
            if !self.get_bit(i) {
                match self.sections[i] {
                    None => (),
                    Some(val) => {
                        if val.size > biggest.0.size {
                            biggest = (val, i);
                        }
                    },
                }
            }
            i = i + 1;
        }
        proof {
            assert forall|j: int| #[trigger] is_candidate(s, u, j) implies 0 <= j < count by {}
        }
        self.set_bit(biggest.1, true);
        return (biggest.0, biggest.1);
    }

    /// Hands out a section for a request of `size` bytes and sets its used flag:
    /// the first candidate of exactly that size; else the first of the smallest
    /// candidates larger than it; else the null section with index 0 (setting the
    /// flag of slot 0). The request and the candidates' sizes must fit in an `isize`.
    pub fn req_sect_size(&mut self, size: usize) -> (r: (Sect, usize))
        requires
            size <= isize::MAX,
            forall|j: int|
                #[trigger] is_candidate(old(self).slots(), old(self).used(), j)
                    ==> old(self).slots()[j]->0.size <= isize::MAX,
        ensures
            ({
                let s = old(self).slots();
                let u = old(self).used();
                ||| (is_first_exact(s, u, size, r.1 as int) && s[r.1 as int] == Some(r.0))
                ||| ((forall|j: int| #[trigger] is_candidate(s, u, j) ==> s[j]->0.size != size)
                    && is_best_fit(s, u, size, r.1 as int, SECTION_MAX as int)
                    && s[r.1 as int] == Some(r.0))
                ||| ((forall|j: int| #[trigger] is_candidate(s, u, j) ==> s[j]->0.size < size)
                    && r.0 == null_sect() && r.1 == 0)
            }),
            final(self).slots() == old(self).slots(),
            final(self).used() == old(self).used().update(r.1 as int, true),
    {
        let ghost s = self.slots();
        let ghost u = self.used();
        let count = self.sect_count() as usize;
        proof {
            lemma_count_present_bound(s);
        }
        let mut closest: (Sect, usize, usize) = (Sect::null(), 0, usize::MAX);
        let mut i: usize = 0;
        while i < count
            invariant
                self.sections == old(self).sections,
                self.bitmap_buf == old(self).bitmap_buf,
                s == self.slots(),
                u == self.used(),
                count == count_present(s),
                count <= SECTION_MAX,
                size <= isize::MAX,
                forall|j: int| #[trigger] is_candidate(s, u, j) ==> s[j]->0.size <= isize::MAX,
                0 <= i <= count,
                closest.1 < SECTION_MAX,
                forall|j: int| 0 <= j < i && #[trigger] is_candidate(s, u, j) ==> s[j]->0.size != size,
                ({
                    ||| (is_best_fit(s, u, size, closest.1 as int, i as int) && s[closest.1 as int]
                        == Some(closest.0) && closest.2 == closest.0.size - size)
                    ||| ((forall|j: int|
                        0 <= j < i && #[trigger] is_candidate(s, u, j) ==> s[j]->0.size < size)
                        && closest.0 == null_sect() && closest.1 == 0 && closest.2 == usize::MAX)
                }),
            decreases count - i,
        {
            if !self.get_bit(i) {
                match self.sections[i] {
                    None => (),
                    Some(val) => {
                        assert(is_candidate(s, u, i as int));
                        assert(val.size as isize == val.size);
                        assert(size as isize == size);
                        let difference = (val.size as isize) - (size as isize);
                        if difference == 0 {
                            self.set_bit(i, true);
                            return (val, i);
                        }
                        if difference > 0 {
                            let absolute = val.size - size;
                            if absolute < closest.2 {
                                closest = (val, i, absolute);
                            }
                        }
                    },
                }
            }
            i = i + 1;
        }
        proof {
            assert forall|j: int| #[trigger] is_candidate(s, u, j) implies 0 <= j < count by {}
        }
        self.set_bit(closest.1, true);
        return (closest.0, closest.1);
    }

    /// Clears the used flag of slot `index`.
    pub fn ret_sect(&mut self, index: usize)
        requires
            index < SECTION_MAX,
        ensures
            final(self).slots() == old(self).slots(),
            final(self).used() == old(self).used().update(index as int, false),
    {
        self.set_bit(index, false);
    }

    /// Number of slots below `count` whose used flag is clear. The kernel
    /// passes the number of occupied slots of its global manager (its
    /// `sect_count`), which bounds the slots looked at.
    pub fn unused_sect(&mut self, count: u8) -> (n: u8)
        requires
            count <= SECTION_MAX,
        ensures
            n == count_unused(old(self).used(), count as int),
            *final(self) == *old(self),
    {
        let ghost u = self.used();
        let mut total: u8 = 0;
        let mut i: u8 = 0;
        while i < count
            invariant
                u == self.used(),
                count <= SECTION_MAX,
                0 <= i <= count,
                total == count_unused(u, i as int),
            decreases count - i,
        {
            proof {
                lemma_count_unused_bound(u, i as int);
            }
            match self.get_bit(i as usize) {
                true => (),
                false => total = total + 1,
            }
            i = i + 1;
        }
        total
    }

    /// Size of the section in slot `index`, which must be occupied.
    pub fn sect_size(&self, index: usize) -> (size: usize)
        requires
            index < SECTION_MAX,
            self.slots()[index as int] is Some,
        ensures
            size == self.slots()[index as int]->0.size,
    {
        let section = self.sections[index];
        match section {
            None => vstd::pervasive::unreached(),
            Some(sect) => sect.size,
        }
    }

    /// The used flag of slot `index`.
    pub fn is_used(&mut self, index: usize) -> (r: bool)
        requires
            index < SECTION_MAX,
        ensures
            r == old(self).used()[index as int],
            *final(self) == *old(self),
    {
        self.get_bit(index)
    }

    /// The content of slot `index`.
    pub fn section(&self, index: usize) -> (r: Option<Sect>)
        requires
            index < SECTION_MAX,
        ensures
            r == self.slots()[index as int],
    {
        self.sections[index]
    }

    /// Adds a section for each usable entry of `regions`, in order; the empty
    /// slots must suffice for them.
    pub fn add_usable_regions(&mut self, regions: &[MemoryRegion])
        requires
            count_usable(regions@) + count_present(old(self).slots()) <= SECTION_MAX,
        ensures
            final(self).slots() == with_usable_added(old(self).slots(), regions@),
            final(self).used() == old(self).used(),
            count_present(final(self).slots()) == count_present(old(self).slots())
                + count_usable(regions@),
    {
        let mut i: usize = 0;
        while i < regions.len()
            invariant
                0 <= i <= regions.len(),
                count_usable(regions@) + count_present(old(self).slots()) <= SECTION_MAX,
                self.slots() == with_usable_added(old(self).slots(), regions@.take(i as int)),
                self.used() == old(self).used(),
                count_present(self.slots()) == count_present(old(self).slots())
                    + count_usable(regions@.take(i as int)),
            decreases regions.len() - i,
        {
            let entry = regions[i];
            proof {
                assert(regions@.take(i + 1).drop_last() =~= regions@.take(i as int));
                lemma_count_usable_prefix(regions@, i + 1);
            }
            match entry.kind {
                MemoryKind::Usable => {
                    proof {
                        self.lemma_lengths();
                        let k = lemma_has_empty(self.slots());
                        lemma_first_empty(self.slots(), k);
                        lemma_fill_slot(self.slots(), first_empty(self.slots()), region_sect(entry));
                    }
                    self.add_sect(Sect::new(entry.len as usize, entry.base as usize));
                },
                _ => (),
            }
            i = i + 1;
        }
        assert(regions@.take(regions.len() as int) =~= regions@);
    }

}

proof fn lemma_count_unused_set(used: Seq<bool>, i: int, n: int)
    requires
        0 <= i < n <= used.len(),
        !used[i],
    ensures
        count_unused(used.update(i, true), n) + 1 == count_unused(used, n),
    decreases n,
{
    if n - 1 > i {
        lemma_count_unused_set(used, i, n - 1);
    } else {
        lemma_count_unused_same(used, used.update(i, true), n - 1);
    }
}

proof fn lemma_count_unused_same(a: Seq<bool>, b: Seq<bool>, n: int)
    requires
        0 <= n <= a.len(),
        n <= b.len(),
        forall|j: int| 0 <= j < n ==> a[j] == b[j],
    ensures
        count_unused(a, n) == count_unused(b, n),
    decreases n,
{
    if n > 0 {
        lemma_count_unused_same(a, b, n - 1);
    }
}

/// Giving back the section that a request handed out (with `ret_sect` on the
/// returned index) leaves the manager as it was before the request.
pub proof fn law_return_undoes_request(m0: SectManager, m1: SectManager, m2: SectManager, i: int)
    requires
        is_candidate(m0.slots(), m0.used(), i),
        m1.slots() == m0.slots(),
        m1.used() == m0.used().update(i, true),
        m2.slots() == m1.slots(),
        m2.used() == m1.used().update(i, false),
    ensures
        m2.slots() == m0.slots(),
        m2.used() == m0.used(),
{
    assert(m2.used() =~= m0.used());
}

/// A section that a request handed out is no longer available, and the number
/// of unused sections (`unused_sect`) drops by one.
pub proof fn law_request_consumes_section(m0: SectManager, m1: SectManager, i: int)
    requires
        is_candidate(m0.slots(), m0.used(), i),
        m1.slots() == m0.slots(),
        m1.used() == m0.used().update(i, true),
    ensures
        !is_candidate(m1.slots(), m1.used(), i),
        count_unused(m1.used(), count_present(m1.slots()) as int) + 1 == count_unused(
            m0.used(),
            count_present(m0.slots()) as int,
        ),
{
    m0.lemma_lengths();
    lemma_count_present_bound(m0.slots());
    lemma_count_unused_set(m0.used(), i, count_present(m0.slots()) as int);
}

/// Adding a section to a manager with an empty slot raises `sect_count` by one
/// and `space` by the section's size.
pub proof fn law_add_counts(m0: SectManager, m1: SectManager, x: Sect)
    requires
        exists|k: int| 0 <= k < SECTION_MAX && (#[trigger] m0.slots()[k]) is None,
        m1.slots() == with_added(m0.slots(), x),
    ensures
        count_present(m1.slots()) == count_present(m0.slots()) + 1,
        total_size(m1.slots()) == total_size(m0.slots()) + x.size,
{
    let k = choose|k: int| 0 <= k < SECTION_MAX && (#[trigger] m0.slots()[k]) is None;
    lemma_first_empty(m0.slots(), k);
    lemma_fill_slot(m0.slots(), first_empty(m0.slots()), x);
}

/// The number of unused sections never exceeds the number of sections.
pub proof fn law_unused_at_most_count(m: SectManager)
    ensures
        count_unused(m.used(), count_present(m.slots()) as int) <= count_present(m.slots()),
{
    lemma_count_unused_bound(m.used(), count_present(m.slots()) as int);
}

/// Only usable entries of a memory map become sections: appending an entry of
/// any other kind changes neither the sections added nor their number, and an
/// appended usable entry adds exactly one.
pub proof fn law_only_usable_entries_add_sections(
    s: Seq<Option<Sect>>,
    regions: Seq<MemoryRegion>,
    e: MemoryRegion,
)
    ensures
        count_usable(Seq::<MemoryRegion>::empty()) == 0,
        with_usable_added(s, Seq::<MemoryRegion>::empty()) == s,
        e.kind != MemoryKind::Usable ==> with_usable_added(s, regions.push(e)) == with_usable_added(
            s,
            regions,
        ) && count_usable(regions.push(e)) == count_usable(regions),
        e.kind == MemoryKind::Usable ==> count_usable(regions.push(e)) == count_usable(regions) + 1
            && with_usable_added(s, regions.push(e)) == with_added(
            with_usable_added(s, regions),
            Sect { base: e.base as usize, size: e.len as usize },
        ),
{
    assert(regions.push(e).drop_last() =~= regions);
}

/// Adding the usable entries of a map to a table with room for them keeps the
/// occupied slots, grows the number of sections by the number of usable
/// entries, and fills each slot that changes, which was empty, with the base
/// and length of a usable entry of the map.
pub proof fn law_added_sections_come_from_usable_entries(
    s: Seq<Option<Sect>>,
    regions: Seq<MemoryRegion>,
)
    requires
        s.len() == SECTION_MAX,
        count_usable(regions) + count_present(s) <= SECTION_MAX,
    ensures
        with_usable_added(s, regions).len() == SECTION_MAX,
        count_present(with_usable_added(s, regions)) == count_present(s) + count_usable(regions),
        forall|k: int|
            0 <= k < SECTION_MAX && (#[trigger] s[k]) is Some ==> with_usable_added(s, regions)[k]
                == s[k],
        forall|k: int|
            0 <= k < SECTION_MAX && #[trigger] with_usable_added(s, regions)[k] != s[k] ==> s[k] is None
                && exists|i: int|
                0 <= i < regions.len() && (#[trigger] regions[i]).kind == MemoryKind::Usable
                    && with_usable_added(s, regions)[k] == Some(
                    Sect { base: regions[i].base as usize, size: regions[i].len as usize },
                ),
    decreases regions.len(),
{
    if regions.len() > 0 {
        let rest = regions.drop_last();
        let e = regions.last();
        let last = regions.len() - 1;
        law_added_sections_come_from_usable_entries(s, rest);
        let t = with_usable_added(s, rest);
        assert forall|i: int| 0 <= i < rest.len() implies regions[i] == rest[i] by {}
        if e.kind == MemoryKind::Usable {
            let x = region_sect(e);
            let k0 = lemma_has_empty(t);
            lemma_first_empty(t, k0);
            let f = first_empty(t);
            lemma_fill_slot(t, f, x);
            let res = with_usable_added(s, regions);
            assert(res == t.update(f, Some(x)));
            assert forall|k: int|
                0 <= k < SECTION_MAX && (#[trigger] s[k]) is Some implies res[k] == s[k] by {
                if k == f {
                    assert(t[f] == s[f]);
                }
            }
            assert forall|k: int|
                0 <= k < SECTION_MAX && #[trigger] res[k] != s[k] implies s[k] is None && exists|i: int|
                0 <= i < regions.len() && (#[trigger] regions[i]).kind == MemoryKind::Usable
                    && res[k] == Some(
                    Sect { base: regions[i].base as usize, size: regions[i].len as usize },
                ) by {
                if k == f {
                    if s[k] is Some {
                        assert(t[k] == s[k]);
                    }
                    assert(regions[last] == e);
                } else {
                    assert(res[k] == t[k]);
                    let i = choose|i: int|
                        0 <= i < rest.len() && (#[trigger] rest[i]).kind == MemoryKind::Usable
                            && t[k] == Some(
                            Sect { base: rest[i].base as usize, size: rest[i].len as usize },
                        );
                    assert(regions[i] == rest[i]);
                }
            }
        } else {
            let res = with_usable_added(s, regions);
            assert(res == t);
            assert forall|k: int|
                0 <= k < SECTION_MAX && #[trigger] res[k] != s[k] implies s[k] is None && exists|i: int|
                0 <= i < regions.len() && (#[trigger] regions[i]).kind == MemoryKind::Usable
                    && res[k] == Some(
                    Sect { base: regions[i].base as usize, size: regions[i].len as usize },
                ) by {
                let i = choose|i: int|
                    0 <= i < rest.len() && (#[trigger] rest[i]).kind == MemoryKind::Usable
                        && t[k] == Some(
                        Sect { base: rest[i].base as usize, size: rest[i].len as usize },
                    );
                assert(regions[i] == rest[i]);
            }
        }
    }
}

} // verus!
