//! The machine as the monitor sees it: physical memory, the page pool, the
//! root table of the running core, and the privileged instructions that a
//! request asks for.
use vstd::prelude::*;
use crate::address::{PhysAddr, VirtAddr};
use crate::process_manager::process_memory::{PoolState, ProcessMemConfig};

verus! {

/// A privileged instruction that has to be carried out before the core leaves
/// the monitor, in the order of the list that holds it.
#[derive(Clone, Copy, PartialEq, Eq, Structural, Debug)]
pub enum MachineOp {
    /// `PVALIDATE` a page of memory that is used for the first time.
    Pvalidate { page: PhysAddr },
    /// `RMPADJUST` a page. The monitor cannot go on where a required one
    /// fails.
    Adjust { page: PhysAddr, flags: u64, required: bool },
    /// `RMPADJUST` the page that the monitor has mounted at an address, where
    /// it has one; a failure is passed over.
    AdjustMounted { vaddr: VirtAddr, page: Option<PhysAddr>, flags: u64 },
    /// Drop all cached translations.
    FlushTlb,
}

/// The word at index `i` of the page at `pa`. Where there is no memory, reads
/// give zero.
pub open spec fn word_at(mem: Seq<u64>, pa: u64, i: int) -> u64 {
    let k = pa as int / 8 + i;
    if 0 <= k < mem.len() {
        mem[k]
    } else {
        0
    }
}

/// Memory after a word is stored at index `i` of the page at `pa`. Where there
/// is no memory, a store has no effect.
pub open spec fn store_word(mem: Seq<u64>, pa: u64, i: int, v: u64) -> Seq<u64> {
    let k = pa as int / 8 + i;
    if 0 <= k < mem.len() {
        mem.update(k, v)
    } else {
        mem
    }
}

/// Memory after the 512 words at `pa` got the values of `data`.
pub open spec fn store_page(mem: Seq<u64>, pa: u64, data: Seq<u64>) -> Seq<u64> {
    Seq::new(
        mem.len(),
        |k: int|
            if pa as int / 8 <= k < pa as int / 8 + 512 {
                data[k - pa as int / 8]
            } else {
                mem[k]
            },
    )
}

/// The 512 words at `pa`.
pub open spec fn page_words(mem: Seq<u64>, pa: u64) -> Seq<u64> {
    Seq::new(512, |i: int| word_at(mem, pa, i))
}

/// A page of zeros.
pub open spec fn zero_words() -> Seq<u64> {
    Seq::new(512, |i: int| 0u64)
}

/// 256 to the power `k`.
pub open spec fn byte_weight(k: int) -> int {
    if k <= 0 {
        1
    } else if k == 1 {
        0x100
    } else if k == 2 {
        0x1_0000
    } else if k == 3 {
        0x100_0000
    } else if k == 4 {
        0x1_0000_0000
    } else if k == 5 {
        0x100_0000_0000
    } else if k == 6 {
        0x1_0000_0000_0000
    } else {
        0x100_0000_0000_0000
    }
}

/// Byte `k` of a word, the least significant first.
pub open spec fn byte_of(w: u64, k: int) -> u8 {
    (w as int / byte_weight(k) % 256) as u8
}

/// The word that eight bytes make, the least significant first.
pub open spec fn word_of(b: Seq<u8>) -> u64 {
    (b[0] + 0x100 * b[1] + 0x1_0000 * b[2] + 0x100_0000 * b[3] + 0x1_0000_0000 * b[4]
        + 0x100_0000_0000 * b[5] + 0x1_0000_0000_0000 * b[6] + 0x100_0000_0000_0000 * b[7]) as u64
}

/// The byte at an address; zero where there is no memory.
pub open spec fn byte_at(mem: Seq<u64>, a: int) -> u8 {
    if 0 <= a && a / 8 < mem.len() {
        byte_of(mem[a / 8], a % 8)
    } else {
        0
    }
}

/// The words of a page that holds the given 4096 bytes.
pub open spec fn words_of(bytes: Seq<u8>) -> Seq<u64> {
    Seq::new(512, |i: int| word_of(bytes.subrange(8 * i, 8 * i + 8)))
}

/// A word holds the bytes that it was made of.
pub proof fn law_word_holds_bytes(b: Seq<u8>, k: int)
    requires
        b.len() == 8,
        0 <= k < 8,
    ensures
        byte_of(word_of(b), k) == b[k],
{
    let h7: int = b[7] as int;
    let h6: int = b[6] + 256 * h7;
    let h5: int = b[5] + 256 * h6;
    let h4: int = b[4] + 256 * h5;
    let h3: int = b[3] + 256 * h4;
    let h2: int = b[2] + 256 * h3;
    let h1: int = b[1] + 256 * h2;
    let h0: int = b[0] + 256 * h1;
    let w = word_of(b);
    assert(w == h0);
    lemma_digit(w as int, 0, 1, h0, b[0] as int, h1);
    lemma_digit(w as int, h0 - 0x100 * h1, 0x100, h1, b[1] as int, h2);
    lemma_digit(w as int, h0 - 0x1_0000 * h2, 0x1_0000, h2, b[2] as int, h3);
    lemma_digit(w as int, h0 - 0x100_0000 * h3, 0x100_0000, h3, b[3] as int, h4);
    lemma_digit(w as int, h0 - 0x1_0000_0000 * h4, 0x1_0000_0000, h4, b[4] as int, h5);
    lemma_digit(w as int, h0 - 0x100_0000_0000 * h5, 0x100_0000_0000, h5, b[5] as int, h6);
    lemma_digit(w as int, h0 - 0x1_0000_0000_0000 * h6, 0x1_0000_0000_0000, h6, b[6] as int, h7);
    lemma_digit(w as int, h0 - 0x100_0000_0000_0000 * h7, 0x100_0000_0000_0000, h7, h7, 0);
}

/// A word is made of its bytes.
pub proof fn law_bytes_make_word(w: u64)
    ensures
        word_of(Seq::new(8, |i: int| byte_of(w, i))) == w,
{
    let b = Seq::new(8, |i: int| byte_of(w, i));
    let q0 = w as int;
    let q1 = q0 / 256;
    let q2 = q1 / 256;
    let q3 = q2 / 256;
    let q4 = q3 / 256;
    let q5 = q4 / 256;
    let q6 = q5 / 256;
    let q7 = q6 / 256;
    assert(q0 / 0x100 == q1 && q0 / 0x1_0000 == q2 && q0 / 0x100_0000 == q3);
    assert(q0 / 0x1_0000_0000 == q4 && q0 / 0x100_0000_0000 == q5);
    assert(q0 / 0x1_0000_0000_0000 == q6 && q0 / 0x100_0000_0000_0000 == q7);
    assert(q7 < 256);
    assert(b[0] == q0 % 256 && b[1] == q1 % 256 && b[2] == q2 % 256 && b[3] == q3 % 256);
    assert(b[4] == q4 % 256 && b[5] == q5 % 256 && b[6] == q6 % 256 && b[7] == q7 % 256);
}

/// A digit of a number in base 256.
proof fn lemma_digit(w: int, low: int, weight: int, high: int, digit: int, rest: int)
    requires
        w == low + weight * high,
        0 <= low < weight,
        high == digit + 256 * rest,
        0 <= digit < 256,
    ensures
        w / weight % 256 == digit,
{
    assert(w / weight == high) by (nonlinear_arith)
        requires
            w == low + weight * high,
            0 <= low < weight,
    ;
    assert(high % 256 == digit) by (nonlinear_arith)
        requires
            high == digit + 256 * rest,
            0 <= digit < 256,
    ;
}

/// A page that was filled with the words of some bytes holds those bytes.
pub proof fn law_page_holds_bytes(s: MachineState, pa: u64, bytes: Seq<u8>, j: int)
    requires
        bytes.len() == 4096,
        pa % 4096 == 0,
        pa / 8 + 512 <= s.mem.len(),
        0 <= j < 4096,
    ensures
        byte_at(s.fill(pa, words_of(bytes)).mem, pa + j) == bytes[j],
{
    let k = j / 8;
    let eight = bytes.subrange(8 * k, 8 * k + 8);
    assert((pa + j) / 8 == pa / 8 + k && (pa + j) % 8 == j % 8);
    assert(s.fill(pa, words_of(bytes)).mem[pa / 8 + k] == word_of(eight));
    law_word_holds_bytes(eight, j % 8);
    assert(eight[j % 8] == bytes[j]);
}

/// A word with byte `k` replaced.
pub open spec fn with_byte(w: u64, k: int, b: u8) -> u64 {
    (w + (b - byte_of(w, k)) * byte_weight(k)) as u64
}

/// Memory after a byte was stored; where there is no memory, that has no
/// effect.
pub open spec fn store_byte(mem: Seq<u64>, a: int, b: u8) -> Seq<u64> {
    if 0 <= a && a / 8 < mem.len() {
        mem.update(a / 8, with_byte(mem[a / 8], a % 8, b))
    } else {
        mem
    }
}

/// Memory after bytes were stored from an address on.
pub open spec fn store_bytes(mem: Seq<u64>, a: int, data: Seq<u8>) -> Seq<u64>
    decreases data.len(),
{
    if data.len() == 0 {
        mem
    } else {
        store_byte(store_bytes(mem, a, data.drop_last()), a + data.len() - 1, data.last())
    }
}

proof fn lemma_byte_parts(w: u64, k: int)
    requires
        0 <= k < 8,
    ensures
        ({
            let weight = byte_weight(k);
            let low = w as int % weight;
            let high = w as int / (256 * weight);
            &&& 0 <= low < weight
            &&& 0 <= high
            &&& w == low + weight * (byte_of(w, k) + 256 * high)
            &&& low + weight * (255 + 256 * high) <= u64::MAX
            &&& w as int / weight == byte_of(w, k) + 256 * high
        }),
{
    let weight = byte_weight(k);
    let u = byte_weight(7 - k);
    lemma_weights(k, 7 - k);
    let wi = w as int;
    let q = wi / weight;
    let low = wi % weight;
    let high = wi / (256 * weight);
    assert(wi == weight * q + low && 0 <= low < weight && 0 <= q) by (nonlinear_arith)
        requires
            weight > 0,
            wi >= 0,
            q == wi / weight,
            low == wi % weight,
    ;
    vstd::arithmetic::div_mod::lemma_div_denominator(wi, weight, 256);
    assert(weight * 256 == 256 * weight);
    assert(high == q / 256);
    assert(q == q % 256 + 256 * high);
    assert(high < u) by (nonlinear_arith)
        requires
            high == wi / (256 * weight),
            wi < 256 * (weight * u),
            0 <= wi,
            weight > 0,
            u > 0,
    ;
    assert(low + weight * (255 + 256 * high) <= 256 * (weight * u) - 1) by (nonlinear_arith)
        requires
            low < weight,
            high <= u - 1,
            weight > 0,
    ;
}

/// A byte of a word that was replaced is the new one; the others are kept.
pub proof fn lemma_with_byte(w: u64, k: int, b: u8, j: int)
    requires
        0 <= k < 8,
        0 <= j < 8,
    ensures
        with_byte(w, k, b) == w + (b - byte_of(w, k)) * byte_weight(k),
        byte_of(with_byte(w, k, b), j) == (if j == k {
            b
        } else {
            byte_of(w, j)
        }),
{
    lemma_byte_parts(w, k);
    let weight = byte_weight(k);
    let low = w as int % weight;
    let high = w as int / (256 * weight);
    let old_byte = byte_of(w, k) as int;
    let t: int = low + weight * (b + 256 * high);
    assert(t == w + (b - old_byte) * weight) by (nonlinear_arith)
        requires
            w as int == low + weight * (old_byte + 256 * high),
            t == low + weight * (b + 256 * high),
    ;
    assert(0 <= t <= low + weight * (255 + 256 * high)) by (nonlinear_arith)
        requires
            0 <= low,
            0 < weight,
            0 <= high,
            b <= 255,
            t == low + weight * (b + 256 * high),
    ;
    assert(with_byte(w, k, b) == t);
    if j == k {
        lemma_digit(t, low, weight, b + 256 * high, b as int, high);
    } else if j > k {
        lemma_higher_digit(w as int, t, low, weight, high, old_byte, b as int, k, j);
    } else {
        lemma_lower_digit(w as int, t, weight, old_byte + 256 * high, b + 256 * high, low, k, j);
    }
}

proof fn lemma_higher_digit(
    w: int,
    t: int,
    low: int,
    weight: int,
    high: int,
    a: int,
    b: int,
    k: int,
    j: int,
)
    requires
        0 <= k < j < 8,
        weight == byte_weight(k),
        0 <= low < weight,
        0 <= high,
        0 <= a < 256,
        0 <= b < 256,
        w == low + weight * (a + 256 * high),
        t == low + weight * (b + 256 * high),
    ensures
        w / byte_weight(j) % 256 == t / byte_weight(j) % 256,
{
    let up = byte_weight(k + 1);
    assert(up == 256 * weight);
    assert(w / up == high) by (nonlinear_arith)
        requires
            w == low + weight * (a + 256 * high),
            0 <= low < weight,
            0 <= a < 256,
            up == 256 * weight,
    ;
    assert(t / up == high) by (nonlinear_arith)
        requires
            t == low + weight * (b + 256 * high),
            0 <= low < weight,
            0 <= b < 256,
            up == 256 * weight,
    ;
    let rest = byte_weight(j - k - 1);
    assert(byte_weight(j) == up * rest) by {
        lemma_weights(k + 1, j - k - 1);
    }
    vstd::arithmetic::div_mod::lemma_div_denominator(w, up, rest);
    vstd::arithmetic::div_mod::lemma_div_denominator(t, up, rest);
}

proof fn lemma_weights(a: int, b: int)
    requires
        0 <= a,
        0 <= b,
        a + b < 8,
    ensures
        byte_weight(a + b) == byte_weight(a) * byte_weight(b),
{
    if a == 0 || b == 0 {
    } else if a == 1 {
        if b == 1 {
        } else if b == 2 {
        } else if b == 3 {
        } else if b == 4 {
        } else if b == 5 {
        } else {
        }
    } else if a == 2 {
        if b == 1 {
        } else if b == 2 {
        } else if b == 3 {
        } else if b == 4 {
        } else {
        }
    } else if a == 3 {
        if b == 1 {
        } else if b == 2 {
        } else if b == 3 {
        } else {
        }
    } else if a == 4 {
        if b == 1 {
        } else if b == 2 {
        } else {
        }
    } else if a == 5 {
        if b == 1 {
        } else {
        }
    } else {
    }
}

proof fn lemma_lower_digit(
    w: int,
    t: int,
    weight: int,
    x: int,
    y: int,
    low: int,
    k: int,
    j: int,
)
    requires
        0 <= j < k < 8,
        weight == byte_weight(k),
        0 <= low < weight,
        w == low + weight * x,
        t == low + weight * y,
        0 <= x,
        0 <= y,
    ensures
        w / byte_weight(j) % 256 == t / byte_weight(j) % 256,
{
    let small = byte_weight(j);
    let rest = byte_weight(k - j);
    lemma_weights(j, k - j);
    assert(rest % 256 == 0);
    let c = rest / 256;
    assert(w / small == low / small + rest * x) by (nonlinear_arith)
        requires
            w == low + weight * x,
            weight == small * rest,
            small > 0,
    ;
    assert(t / small == low / small + rest * y) by (nonlinear_arith)
        requires
            t == low + weight * y,
            weight == small * rest,
            small > 0,
    ;
    assert(rest * x == (c * x) * 256 && rest * y == (c * y) * 256) by (nonlinear_arith)
        requires
            rest == 256 * c,
    ;
    vstd::arithmetic::div_mod::lemma_mod_multiples_vanish(c * x, low / small, 256);
    vstd::arithmetic::div_mod::lemma_mod_multiples_vanish(c * y, low / small, 256);
}

/// A byte that was stored is read back; all others are kept.
pub proof fn law_store_byte(mem: Seq<u64>, a: int, b: u8, x: int)
    requires
        0 <= a < 8 * mem.len(),
        0 <= x < 8 * mem.len(),
    ensures
        store_byte(mem, a, b).len() == mem.len(),
        byte_at(store_byte(mem, a, b), x) == (if x == a {
            b
        } else {
            byte_at(mem, x)
        }),
{
    if x / 8 == a / 8 {
        lemma_with_byte(mem[a / 8], a % 8, b, x % 8);
    }
}

/// Bytes that were stored are read back; all others are kept.
pub proof fn law_store_bytes(mem: Seq<u64>, a: int, data: Seq<u8>, x: int)
    requires
        0 <= a,
        a + data.len() <= 8 * mem.len(),
        0 <= x < 8 * mem.len(),
    ensures
        store_bytes(mem, a, data).len() == mem.len(),
        byte_at(store_bytes(mem, a, data), x) == (if a <= x < a + data.len() {
            data[x - a]
        } else {
            byte_at(mem, x)
        }),
    decreases data.len(),
{
    if data.len() > 0 {
        let before = store_bytes(mem, a, data.drop_last());
        law_store_bytes(mem, a, data.drop_last(), x);
        law_store_byte(before, a + data.len() - 1, data.last(), x);
    }
}

/// What a machine holds.
#[verifier::ext_equal]
pub struct MachineState {
    pub mem: Seq<u64>,
    pub pool: PoolState,
    pub c_bit: u64,
    pub cr3: u64,
    pub ops: Seq<MachineOp>,
}

impl MachineState {
    pub open spec fn rd(self, pa: u64, i: int) -> u64 {
        word_at(self.mem, pa, i)
    }

    pub open spec fn wr(self, pa: u64, i: int, v: u64) -> MachineState {
        MachineState { mem: store_word(self.mem, pa, i, v), ..self }
    }

    pub open spec fn fill(self, pa: u64, data: Seq<u64>) -> MachineState {
        MachineState { mem: store_page(self.mem, pa, data), ..self }
    }

    pub open spec fn zero(self, pa: u64) -> MachineState {
        self.fill(pa, zero_words())
    }

    /// The page at `dst` becomes a copy of the page at `src`.
    pub open spec fn copy(self, dst: u64, src: u64) -> MachineState {
        self.fill(dst, page_words(self.mem, src))
    }

    pub open spec fn op(self, op: MachineOp) -> MachineState {
        MachineState { ops: self.ops.push(op), ..self }
    }

    /// A page is given to a privilege level; the monitor depends on it.
    pub open spec fn grant(self, page: u64, flags: u64) -> MachineState {
        self.op(MachineOp::Adjust { page, flags, required: true })
    }

    pub open spec fn release(self, page: u64) -> MachineState {
        MachineState {
            pool: PoolState { list: self.pool.list.push(page), ..self.pool },
            ..self
        }
    }

    /// The machine after the page that was freed last left the pool and was
    /// cleared.
    pub open spec fn popped(self) -> MachineState {
        MachineState {
            pool: PoolState { list: self.pool.list.drop_last(), ..self.pool },
            ..self
        }.zero(self.pool.list.last())
    }

    /// The machine after the first page of the region was taken, and that
    /// page; page 0 where the region is used up.
    pub open spec fn bumped(self) -> (MachineState, u64) {
        if self.pool.base + 4096 > self.pool.limit {
            (self, 0)
        } else {
            (
                MachineState {
                    pool: PoolState { base: (self.pool.base + 4096) as u64, ..self.pool },
                    ..self
                }.op(MachineOp::Pvalidate { page: self.pool.base }).zero(self.pool.base),
                self.pool.base,
            )
        }
    }

    /// The machine after a page was taken from the pool, and that page: the
    /// page that was freed last, else the first page of the region, else page
    /// 0, which stands for none.
    pub open spec fn take_page(self) -> (MachineState, u64) {
        if self.pool.list.len() == 0 {
            self.bumped()
        } else if self.pool.list.last() != 0 {
            (self.popped(), self.pool.list.last())
        } else {
            self.popped().bumped()
        }
    }
}

/// The 4096 bytes of `data` from `at` on, with zeros behind its end.
pub open spec fn padded(data: Seq<u8>, at: int) -> Seq<u8> {
    Seq::new(
        4096,
        |j: int|
            if at + j < data.len() {
                data[at + j]
            } else {
                0u8
            },
    )
}

fn byte_or_zero(data: &Vec<u8>, at: usize, j: usize) -> (r: u8)
    requires
        at <= data.len(),
        j < 4096,
    ensures
        r == padded(data@, at as int)[j as int],
{
    if j < data.len() - at {
        data[at + j]
    } else {
        0
    }
}

fn byte_factor(k: u64) -> (r: u64)
    requires
        k < 8,
    ensures
        r == byte_weight(k as int),
        r > 0,
{
    if k == 0 {
        1
    } else if k == 1 {
        0x100
    } else if k == 2 {
        0x1_0000
    } else if k == 3 {
        0x100_0000
    } else if k == 4 {
        0x1_0000_0000
    } else if k == 5 {
        0x100_0000_0000
    } else if k == 6 {
        0x1_0000_0000_0000
    } else {
        0x100_0000_0000_0000
    }
}

/// Byte `k` of a word.
pub fn split_byte(w: u64, k: u64) -> (r: u8)
    requires
        k < 8,
    ensures
        r == byte_of(w, k as int),
{
    ((w / byte_factor(k)) % 256) as u8
}

/// The machine that the monitor works on.
#[derive(Debug)]
pub struct Machine {
    /// Physical memory from address 0 up, in words of eight bytes.
    pub words: Vec<u64>,
    /// The pages that the monitor can hand out.
    pub pool: ProcessMemConfig,
    /// The bit of a table entry that marks memory as encrypted.
    pub c_bit: u64,
    /// The root table of the core that runs the monitor.
    pub cr3: PhysAddr,
    /// The instructions asked for so far.
    pub ops: Vec<MachineOp>,
}

impl View for Machine {
    type V = MachineState;

    open spec fn view(&self) -> MachineState {
        MachineState {
            mem: self.words@,
            pool: self.pool@,
            c_bit: self.c_bit,
            cr3: self.cr3,
            ops: self.ops@,
        }
    }
}

impl Machine {
    /// A machine with the given memory and an empty pool.
    pub fn new(words: Vec<u64>, c_bit: u64, cr3: PhysAddr) -> (r: Machine)
        ensures
            r@.mem == words@,
            r@.c_bit == c_bit,
            r@.cr3 == cr3,
            r@.ops == Seq::<MachineOp>::empty(),
            r@.pool.list == Seq::<u64>::empty(),
            r@.pool.base == 0,
            r@.pool.limit == 0,
            !r@.pool.initilized,
            r@.pool.total_size == 0,
            r@.pool.free == 0,
            r@.pool.entry == 0,
    {
        Machine { words, pool: ProcessMemConfig::new(), c_bit, cr3, ops: Vec::new() }
    }

    /// Reads a word of a page.
    pub fn read(&self, pa: PhysAddr, i: u64) -> (r: u64)
        requires
            i < 512,
        ensures
            r == self@.rd(pa, i as int),
    {
        let k: u64 = pa / 8 + i;
        if k < self.words.len() as u64 {
            self.words[k as usize]
        } else {
            0
        }
    }

    /// Writes a word of a page.
    pub fn write(&mut self, pa: PhysAddr, i: u64, v: u64)
        requires
            i < 512,
        ensures
            final(self)@ == old(self)@.wr(pa, i as int, v),
    {
        let k: u64 = pa / 8 + i;
        if k < self.words.len() as u64 {
            self.words[k as usize] = v;
        }
    }

    /// The words of a page.
    pub fn read_page(&self, pa: PhysAddr) -> (r: Vec<u64>)
        ensures
            r@ == page_words(self@.mem, pa),
    {
        let mut r: Vec<u64> = Vec::new();
        let mut i: u64 = 0;
        while i < 512
            invariant
                i <= 512,
                r@.len() == i,
                forall|j: int| 0 <= j < i ==> r@[j] == self@.rd(pa, j),
            decreases 512 - i,
        {
            r.push(self.read(pa, i));
            i = i + 1;
        }
        r
    }

    /// Fills a page with the given words.
    pub fn write_page(&mut self, pa: PhysAddr, data: &Vec<u64>)
        requires
            data.len() == 512,
        ensures
            final(self)@ == old(self)@.fill(pa, data@),
    {
        let ghost before = self@;
        let mut i: u64 = 0;
        while i < 512
            invariant
                i <= 512,
                data.len() == 512,
                self@.mem.len() == before.mem.len(),
                self@ == (MachineState { mem: self@.mem, ..before }),
                forall|k: int|
                    0 <= k < before.mem.len() ==> self@.mem[k] == (if pa as int / 8 <= k < pa as int
                        / 8 + i {
                        data@[k - pa as int / 8]
                    } else {
                        before.mem[k]
                    }),
            decreases 512 - i,
        {
            self.write(pa, i, data[i as usize]);
            i = i + 1;
        }
        assert(self@.mem =~= store_page(before.mem, pa, data@));
    }

    /// Clears a page.
    pub fn clear_page(&mut self, pa: PhysAddr)
        ensures
            final(self)@ == old(self)@.zero(pa),
    {
        let zeros: Vec<u64> = vec![0u64; 512];
        assert(zeros@ =~= zero_words());
        self.write_page(pa, &zeros);
    }

    /// Copies a page.
    pub fn copy_page(&mut self, dst: PhysAddr, src: PhysAddr)
        ensures
            final(self)@ == old(self)@.copy(dst, src),
    {
        let data = self.read_page(src);
        self.write_page(dst, &data);
    }

    /// Fills a page with 4096 bytes of `data`, from index `at` on; bytes
    /// beyond the end of `data` are zero.
    pub fn write_bytes(&mut self, pa: PhysAddr, data: &Vec<u8>, at: usize)
        requires
            at <= data.len(),
        ensures
            final(self)@ == old(self)@.fill(pa, words_of(padded(data@, at as int))),
    {
        let mut words: Vec<u64> = Vec::new();
        let mut i: usize = 0;
        while i < 512
            invariant
                i <= 512,
                at <= data.len(),
                words@.len() == i,
                forall|k: int|
                    0 <= k < i ==> words@[k] == word_of(
                        padded(data@, at as int).subrange(8 * k, 8 * k + 8),
                    ),
            decreases 512 - i,
        {
            let b0 = byte_or_zero(data, at, 8 * i);
            let b1 = byte_or_zero(data, at, 8 * i + 1);
            let b2 = byte_or_zero(data, at, 8 * i + 2);
            let b3 = byte_or_zero(data, at, 8 * i + 3);
            let b4 = byte_or_zero(data, at, 8 * i + 4);
            let b5 = byte_or_zero(data, at, 8 * i + 5);
            let b6 = byte_or_zero(data, at, 8 * i + 6);
            let b7 = byte_or_zero(data, at, 8 * i + 7);
            words.push(
                b0 as u64 + 0x100 * b1 as u64 + 0x1_0000 * b2 as u64 + 0x100_0000 * b3 as u64
                    + 0x1_0000_0000 * b4 as u64 + 0x100_0000_0000 * b5 as u64 + 0x1_0000_0000_0000
                    * b6 as u64 + 0x100_0000_0000_0000 * b7 as u64,
            );
            i = i + 1;
        }
        assert(words@ =~= words_of(padded(data@, at as int)));
        self.write_page(pa, &words);
    }

    /// Stores a byte.
    pub fn write_byte(&mut self, a: PhysAddr, b: u8)
        ensures
            final(self)@ == (MachineState {
                mem: store_byte(old(self)@.mem, a as int, b),
                ..old(self)@
            }),
    {
        let k: u64 = a / 8;
        if k < self.words.len() as u64 {
            let w = self.words[k as usize];
            let was = split_byte(w, a % 8);
            let weight = byte_factor(a % 8);
            proof {
                lemma_with_byte(w, (a % 8) as int, b, 0);
                lemma_byte_parts(w, (a % 8) as int);
                assert(was * weight <= w) by (nonlinear_arith)
                    requires
                        w as int == w as int % weight as int + weight * (was + 256 * (w as int / (
                        256 * weight))),
                        0 <= w as int % weight as int,
                        0 <= w as int / (256 * weight),
                        weight > 0,
                ;
                assert(w - was * weight + b * weight == w + (b - was) * weight) by (nonlinear_arith);
            }
            self.words[k as usize] = w - was as u64 * weight + b as u64 * weight;
        }
    }

    /// The byte at an address.
    pub fn read_byte(&self, a: PhysAddr) -> (r: u8)
        ensures
            r == byte_at(self@.mem, a as int),
    {
        let k: u64 = a / 8;
        if k < self.words.len() as u64 {
            split_byte(self.words[k as usize], a % 8)
        } else {
            0
        }
    }

    /// Asks for a privileged instruction.
    pub fn ask(&mut self, op: MachineOp)
        ensures
            final(self)@ == old(self)@.op(op),
    {
        self.ops.push(op);
    }

    /// Gives a page to a privilege level.
    pub fn grant(&mut self, page: PhysAddr, flags: u64)
        ensures
            final(self)@ == old(self)@.grant(page, flags),
    {
        self.ask(MachineOp::Adjust { page, flags, required: true });
    }
}

} // verus!
