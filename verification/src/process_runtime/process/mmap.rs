//! Files that a process has mapped.
use vstd::prelude::*;

verus! {

/// A file that a process has mapped.
#[derive(Clone, Copy, PartialEq, Eq, Structural, Debug)]
pub struct MmapInfo {
    /// The file.
    pub fd: i32,
    /// Where in the file the mapping starts.
    pub offset: u64,
    /// Where in the process the mapping starts.
    pub addr: u64,
    /// Bytes of the mapping.
    pub size: u64,
}

/// The addresses of a mapping: its start, and its end.
#[derive(Clone, Copy, PartialEq, Eq, Structural, Debug)]
pub struct RangeWrapper {
    pub start: u64,
    pub end: u64,
}

impl RangeWrapper {
    /// The order of ranges: by their start, then by their end.
    pub open spec fn before(self, other: RangeWrapper) -> bool {
        self.start < other.start || (self.start == other.start && self.end < other.end)
    }

    pub open spec fn has(self, addr: u64) -> bool {
        self.start <= addr < self.end
    }

    fn precedes(&self, other: &RangeWrapper) -> (r: bool)
        ensures
            r == self.before(*other),
    {
        self.start < other.start || (self.start == other.start && self.end < other.end)
    }

    fn contains(&self, addr: u64) -> (r: bool)
        ensures
            r == self.has(addr),
    {
        self.start <= addr && addr < self.end
    }
}

/// The mappings of a process, in the order of their ranges. No range occurs
/// twice.
#[derive(Debug)]
pub struct MmapManager {
    pub mappings: Vec<(RangeWrapper, MmapInfo)>,
}

impl View for MmapManager {
    type V = Seq<(RangeWrapper, MmapInfo)>;

    open spec fn view(&self) -> Seq<(RangeWrapper, MmapInfo)> {
        self.mappings@
    }
}

/// Whether mappings stand in the order of their ranges, none of them twice.
pub open spec fn ordered(s: Seq<(RangeWrapper, MmapInfo)>) -> bool {
    forall|i: int, j: int| 0 <= i < j < s.len() ==> (#[trigger] s[i]).0.before((#[trigger] s[j]).0)
}

/// The place of a range: behind all that come before it.
pub open spec fn place_of(s: Seq<(RangeWrapper, MmapInfo)>, range: RangeWrapper, i: nat) -> nat
    decreases s.len() - i,
{
    if i >= s.len() || !s[i as int].0.before(range) {
        i
    } else {
        place_of(s, range, i + 1)
    }
}

/// The mappings after one was added. One with the same range is replaced.
pub open spec fn with_mapping(
    s: Seq<(RangeWrapper, MmapInfo)>,
    range: RangeWrapper,
    info: MmapInfo,
) -> Seq<(RangeWrapper, MmapInfo)> {
    let i = place_of(s, range, 0) as int;
    if i < s.len() && s[i].0 == range {
        s.update(i, (range, info))
    } else {
        s.insert(i, (range, info))
    }
}

/// The last of the first `n` mappings, in their order, that has an address.
pub open spec fn last_with(s: Seq<(RangeWrapper, MmapInfo)>, addr: u64, n: nat) -> Option<MmapInfo>
    decreases n,
{
    if n == 0 {
        None
    } else if s[n - 1].0.has(addr) {
        Some(s[n - 1].1)
    } else {
        last_with(s, addr, (n - 1) as nat)
    }
}

proof fn lemma_place(s: Seq<(RangeWrapper, MmapInfo)>, range: RangeWrapper, i: nat)
    requires
        i <= s.len(),
    ensures
        i <= place_of(s, range, i) <= s.len(),
        forall|k: int| i <= k < place_of(s, range, i) ==> (#[trigger] s[k]).0.before(range),
        place_of(s, range, i) < s.len() ==> !s[place_of(s, range, i) as int].0.before(range),
    decreases s.len() - i,
{
    if i < s.len() && s[i as int].0.before(range) {
        lemma_place(s, range, i + 1);
    }
}

proof fn lemma_with_mapping(s: Seq<(RangeWrapper, MmapInfo)>, range: RangeWrapper, info: MmapInfo)
    requires
        ordered(s),
    ensures
        ordered(with_mapping(s, range, info)),
{
    lemma_place(s, range, 0);
    let i = place_of(s, range, 0) as int;
    let t = with_mapping(s, range, info);
    assert forall|a: int, b: int| 0 <= a < b < t.len() implies (#[trigger] t[a]).0.before(
        (#[trigger] t[b]).0,
    ) by {
        if i < s.len() && s[i].0 == range {
            assert(s[a].0.before(s[b].0));
        } else {
            if b < i {
                assert(t[a] == s[a] && t[b] == s[b]);
            } else if b == i {
                assert(t[a] == s[a] && t[b] == (range, info));
            } else if a < i {
                assert(t[a] == s[a] && t[b] == s[b - 1]);
                assert(s[a].0.before(s[b - 1].0));
            } else if a == i {
                assert(t[a] == (range, info) && t[b] == s[b - 1]);
                if b - 1 > i {
                    assert(s[i].0.before(s[b - 1].0));
                }
            } else {
                assert(t[a] == s[a - 1] && t[b] == s[b - 1]);
                assert(s[a - 1].0.before(s[b - 1].0));
            }
        }
    }
}

impl MmapManager {
    /// No mappings.
    pub fn new() -> (r: Self)
        ensures
            r@ == Seq::<(RangeWrapper, MmapInfo)>::empty(),
            ordered(r@),
    {
        MmapManager { mappings: Vec::new() }
    }

    /// Adds a mapping. One with the same range is replaced.
    pub fn add_mapping(&mut self, addr: u64, size: u64, fd: i32, offset: u64)
        requires
            addr + size <= u64::MAX,
        ensures
            final(self)@ == with_mapping(
                old(self)@,
                RangeWrapper { start: addr, end: (addr + size) as u64 },
                MmapInfo { fd, offset, addr, size },
            ),
            ordered(old(self)@) ==> ordered(final(self)@),
    {
        let range = RangeWrapper { start: addr, end: addr + size };
        let info = MmapInfo { fd, offset, addr, size };
        proof {
            if ordered(self@) {
                lemma_with_mapping(self@, range, info);
            }
            lemma_place(self@, range, 0);
        }
        let mut i: usize = 0;
        while i < self.mappings.len() && self.mappings[i].0.precedes(&range)
            invariant
                i <= self.mappings.len(),
                self@ == old(self)@,
                place_of(old(self)@, range, 0) == place_of(old(self)@, range, i as nat),
            decreases self.mappings.len() - i,
        {
            i = i + 1;
        }
        if i < self.mappings.len() && self.mappings[i].0.start == range.start
            && self.mappings[i].0.end == range.end {
            self.mappings[i] = (range, info);
        } else {
            self.mappings.insert(i, (range, info));
        }
    }

    /// The mapping that has an address: the last one in their order, where
    /// there are several.
    pub fn lookup(&self, addr: u64) -> (r: Option<MmapInfo>)
        ensures
            r == last_with(self@, addr, self@.len()),
    {
        let mut n: usize = self.mappings.len();
        while n > 0
            invariant
                n <= self.mappings.len(),
                last_with(self@, addr, self@.len()) == last_with(self@, addr, n as nat),
            decreases n,
        {
            n = n - 1;
            if self.mappings[n].0.contains(addr) {
                return Some(self.mappings[n].1);
            }
        }
        None
    }
}

/// Whether mappings start with a page, and their ranges are their own.
pub open spec fn whole_pages(s: Seq<(RangeWrapper, MmapInfo)>) -> bool {
    forall|k: int|
        0 <= k < s.len() ==> (#[trigger] s[k]).0.start == s[k].1.addr && s[k].0.end == s[k].1.addr
            + s[k].1.size && s[k].1.addr % 4096 == 0
}

/// Mappings still start with a page after one that does was added.
pub proof fn law_mappings_stay_whole(s: Seq<(RangeWrapper, MmapInfo)>, info: MmapInfo)
    requires
        whole_pages(s),
        info.addr % 4096 == 0,
        info.addr + info.size <= u64::MAX,
    ensures
        whole_pages(
            with_mapping(
                s,
                RangeWrapper { start: info.addr, end: (info.addr + info.size) as u64 },
                info,
            ),
        ),
{
    let range = RangeWrapper { start: info.addr, end: (info.addr + info.size) as u64 };
    lemma_place(s, range, 0);
    let i = place_of(s, range, 0) as int;
    let t = with_mapping(s, range, info);
    assert forall|k: int| 0 <= k < t.len() implies (#[trigger] t[k]).0.start == t[k].1.addr
        && t[k].0.end == t[k].1.addr + t[k].1.size && t[k].1.addr % 4096 == 0 by {
        if k == i {
            assert(t[k] == (range, info));
        } else if i < s.len() && s[i].0 == range || k < i {
            assert(t[k] == s[k]);
        } else {
            assert(t[k] == s[k - 1]);
        }
    }
}

/// What is found at an address is a mapping that has it.
pub proof fn lemma_last_with_is_one(s: Seq<(RangeWrapper, MmapInfo)>, addr: u64, n: nat)
    requires
        n <= s.len(),
    ensures
        last_with(s, addr, n) matches Some(info) ==> exists|k: int|
            0 <= k < n && (#[trigger] s[k]).1 == info && s[k].0.has(addr),
    decreases n,
{
    if n > 0 {
        lemma_last_with_is_one(s, addr, (n - 1) as nat);
        if s[n - 1].0.has(addr) {
            assert(s[n - 1].1 == s[n - 1].1);
        }
    }
}

/// A mapping that was added is the one that is found at an address of it,
/// unless a later one in the order has the address too.
pub proof fn law_added_mapping_is_found(
    s: Seq<(RangeWrapper, MmapInfo)>,
    range: RangeWrapper,
    info: MmapInfo,
    addr: u64,
)
    requires
        ordered(s),
        range.has(addr),
        forall|k: int| 0 <= k < s.len() && range.before((#[trigger] s[k]).0) ==> !s[k].0.has(addr),
    ensures
        ({
            let t = with_mapping(s, range, info);
            last_with(t, addr, t.len()) == Some(info)
        }),
{
    lemma_place(s, range, 0);
    lemma_with_mapping(s, range, info);
    let i = place_of(s, range, 0) as int;
    let t = with_mapping(s, range, info);
    assert(t[i] == (range, info));
    assert forall|k: int| i < k < t.len() implies !(#[trigger] t[k]).0.has(addr) by {
        assert(t[i].0.before(t[k].0));
        if i < s.len() && s[i].0 == range {
            assert(t[k] == s[k]);
        } else {
            assert(t[k] == s[k - 1]);
        }
    }
    lemma_last_with(t, addr, i, t.len());
}

proof fn lemma_last_with(s: Seq<(RangeWrapper, MmapInfo)>, addr: u64, i: int, n: nat)
    requires
        0 <= i < n <= s.len(),
        s[i].0.has(addr),
        forall|k: int| i < k < n ==> !(#[trigger] s[k]).0.has(addr),
    ensures
        last_with(s, addr, n) == Some(s[i].1),
    decreases n,
{
    if n - 1 > i {
        lemma_last_with(s, addr, i, (n - 1) as nat);
    }
}

/// What is found at an address has that address.
pub proof fn law_found_mapping_has_address(s: Seq<(RangeWrapper, MmapInfo)>, addr: u64, n: nat)
    requires
        n <= s.len(),
        whole_pages(s),
    ensures
        last_with(s, addr, n) matches Some(info) ==> info.addr <= addr < info.addr + info.size,
{
    lemma_last_with_is_one(s, addr, n);
}

/// Whether a range is mapped, with what is known of it.
pub open spec fn maps(
    s: Seq<(RangeWrapper, MmapInfo)>,
    range: RangeWrapper,
    info: MmapInfo,
) -> bool {
    s.contains((range, info))
}

/// A range is mapped with what was last added for it, and adding it changes no
/// other range.
pub proof fn law_last_added_is_kept(
    s: Seq<(RangeWrapper, MmapInfo)>,
    range: RangeWrapper,
    info: MmapInfo,
)
    requires
        ordered(s),
    ensures
        ordered(with_mapping(s, range, info)),
        forall|r: RangeWrapper, i: MmapInfo| #[trigger]
            maps(with_mapping(s, range, info), r, i) <==> (if r == range {
                i == info
            } else {
                maps(s, r, i)
            }),
{
    lemma_place(s, range, 0);
    lemma_with_mapping(s, range, info);
    let p = place_of(s, range, 0) as int;
    let t = with_mapping(s, range, info);
    assert(t[p] == (range, info));
    assert forall|r: RangeWrapper, i: MmapInfo| #[trigger] maps(t, r, i) <==> (if r == range {
        i == info
    } else {
        maps(s, r, i)
    }) by {
        if maps(t, r, i) {
            let k = choose|k: int| 0 <= k < t.len() && t[k] == (r, i);
            if k < p {
                assert(t[k].0.before(t[p].0));
                assert(s[k] == (r, i));
            } else if k > p {
                assert(t[p].0.before(t[k].0));
                if p < s.len() && s[p].0 == range {
                    assert(s[k] == (r, i));
                } else {
                    assert(s[k - 1] == (r, i));
                }
            }
        }
        if r != range && maps(s, r, i) {
            let k = choose|k: int| 0 <= k < s.len() && s[k] == (r, i);
            if p < s.len() && s[p].0 == range {
                assert(k != p);
                assert(t[k] == (r, i));
            } else if k < p {
                assert(t[k] == (r, i));
            } else {
                assert(t[k + 1] == (r, i));
            }
        }
    }
}

/// A lookup gives the greatest range that has the address, with what is known of
/// it, and nothing exactly where no range has it.
pub proof fn law_lookup_gives_greatest(s: Seq<(RangeWrapper, MmapInfo)>, addr: u64)
    requires
        ordered(s),
    ensures
        match last_with(s, addr, s.len()) {
            None => forall|r: RangeWrapper, i: MmapInfo| #[trigger] maps(s, r, i) ==> !r.has(addr),
            Some(info) => exists|range: RangeWrapper|
                {
                    &&& #[trigger] maps(s, range, info)
                    &&& range.has(addr)
                    &&& forall|r: RangeWrapper, i: MmapInfo| #[trigger]
                        maps(s, r, i) && r.has(addr) ==> r == range || r.before(range)
                },
        },
{
    match last_with(s, addr, s.len()) {
        None => {
            lemma_none_has(s, addr, s.len());
            assert forall|r: RangeWrapper, i: MmapInfo| #[trigger] maps(s, r, i) implies !r.has(
                addr,
            ) by {
                let k = choose|k: int| 0 <= k < s.len() && s[k] == (r, i);
                assert(!s[k].0.has(addr));
            }
        },
        Some(info) => {
            let k = lemma_last_has(s, addr, s.len());
            let range = s[k].0;
            assert(s[k] == (range, info));
            assert(maps(s, range, info));
            assert forall|r: RangeWrapper, i: MmapInfo| #[trigger]
                maps(s, r, i) && r.has(addr) implies r == range || r.before(range) by {
                let j = choose|j: int| 0 <= j < s.len() && s[j] == (r, i);
                if j < k {
                    assert(s[j].0.before(s[k].0));
                } else if j > k {
                    assert(!s[j].0.has(addr));
                }
            }
        },
    }
}

proof fn lemma_none_has(s: Seq<(RangeWrapper, MmapInfo)>, addr: u64, n: nat)
    requires
        n <= s.len(),
        last_with(s, addr, n) is None,
    ensures
        forall|k: int| 0 <= k < n ==> !(#[trigger] s[k]).0.has(addr),
    decreases n,
{
    if n > 0 {
        lemma_none_has(s, addr, (n - 1) as nat);
    }
}

proof fn lemma_last_has(s: Seq<(RangeWrapper, MmapInfo)>, addr: u64, n: nat) -> (k: int)
    requires
        n <= s.len(),
        last_with(s, addr, n) is Some,
    ensures
        0 <= k < n,
        s[k].0.has(addr),
        last_with(s, addr, n) == Some(s[k].1),
        forall|j: int| k < j < n ==> !(#[trigger] s[j]).0.has(addr),
    decreases n,
{
    if s[n - 1].0.has(addr) {
        n - 1
    } else {
        lemma_last_has(s, addr, (n - 1) as nat)
    }
}

} // verus!
