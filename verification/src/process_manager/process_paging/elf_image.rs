//! Loads a program.
use vstd::prelude::*;
use crate::address;
use crate::address::{pages_above, VirtAddr};
use crate::memory::machine;
use crate::memory::machine::{Machine, MachineState};
use crate::process_manager::process_memory::allocate_page;
use crate::process_manager::process_paging::mapping;
use crate::process_manager::process_paging::mapping::TP_STACK_START_VADDR;
use crate::process_manager::process_paging::walk::ProcessPageTableRef;
use crate::sev::utils::VMPL1_RWX;

verus! {

/// The type of a program header whose segment is loaded.
pub const PT_LOAD: u32 = 1;

/// Pages of the stack that a program starts with.
pub const STACK_PAGES: u64 = 8;

/// Flags of a program header.
pub struct Elf64PhdrFlags;

impl Elf64PhdrFlags {
    pub const EXECUTE: u32 = 0x1;

    pub const WRITE: u32 = 0x2;

    pub const READ: u32 = 0x4;
}

/// A program header.
#[derive(Clone, Copy, PartialEq, Eq, Structural, Debug)]
pub struct Elf64Phdr {
    pub p_type: u32,
    pub p_flags: u32,
    pub p_offset: u64,
    pub p_vaddr: u64,
    pub p_filesz: u64,
    pub p_memsz: u64,
}

/// What the headers of a program say.
#[derive(Debug)]
pub struct Elf64File {
    /// Whether the program is a 64-bit one.
    pub is_64: bool,
    /// The address of its first instruction.
    pub e_entry: u64,
    /// Its program headers.
    pub phdrs: Vec<Elf64Phdr>,
}

/// What the headers in an ELF file say: whether it is a 64-bit file, its entry
/// point and its program headers; none where they cannot be read.
pub uninterp spec fn elf_headers(data: Seq<u8>) -> Option<(bool, u64, Seq<Elf64Phdr>)>;

/// Reads the headers of an ELF file in little-endian order: `minimal_parse`
/// and `segments` of `elf::ElfBytes`. Their results depend on the bytes alone;
/// no more is claimed of them.
#[verifier::external_body]
fn read_elf(data: &Vec<u8>) -> (r: Option<Elf64File>)
    ensures
        match r {
            None => elf_headers(data@) is None,
            Some(f) => elf_headers(data@) == Some((f.is_64, f.e_entry, f.phdrs@)),
        },
{
    let file = elf::ElfBytes::<elf::endian::LittleEndian>::minimal_parse(data.as_slice()).ok()?;
    let phdrs = file.segments().iter().flat_map(|t| t.iter()).map(|p| Elf64Phdr {
        p_type: p.p_type,
        p_flags: p.p_flags,
        p_offset: p.p_offset,
        p_vaddr: p.p_vaddr,
        p_filesz: p.p_filesz,
        p_memsz: p.p_memsz,
    }).collect();
    let is_64 = matches!(file.ehdr.class, elf::file::Class::ELF64);
    Some(Elf64File { is_64, e_entry: file.ehdr.e_entry, phdrs })
}

impl Elf64Phdr {
    /// Pages that the segment takes in memory.
    pub open spec fn pages(self) -> int {
        if self.p_memsz == 0 {
            0
        } else {
            self.p_memsz as int / 4096 + 1
        }
    }

    /// Bytes of the file that end up in those pages.
    pub open spec fn loaded(self) -> int {
        if self.p_filesz <= self.pages() * 4096 {
            self.p_filesz as int
        } else {
            self.pages() * 4096
        }
    }

    /// Whether a file of `len` bytes holds what is loaded from it.
    pub open spec fn fits(self, len: int) -> bool {
        self.pages() > 0 && self.loaded() > 0 ==> self.p_offset + self.loaded() <= len
    }

    /// Page `i` of the segment.
    pub open spec fn page(self, elf: Seq<u8>, i: int) -> Seq<u8> {
        Seq::new(
            4096,
            |j: int|
                if i * 4096 + j < self.p_filesz {
                    elf[self.p_offset + i * 4096 + j]
                } else {
                    0u8
                },
        )
    }

    /// Flags of the pages of the segment.
    pub open spec fn page_flags(self) -> u64 {
        if self.p_flags & 0x1 == 0x1 {
            if self.p_flags & 0x2 == 0x2 {
                0x147
            } else {
                0x145
            }
        } else {
            if self.p_flags & 0x2 == 0x2 {
                0x8000_0000_0000_0147
            } else {
                0x8000_0000_0000_0145
            }
        }
    }
}

/// The machine after the first `count` pages of a segment were loaded.
pub open spec fn segment_loaded(
    s: MachineState,
    root: u64,
    hdr: Elf64Phdr,
    elf: Seq<u8>,
    count: nat,
) -> MachineState
    decreases count,
{
    if count == 0 {
        s
    } else {
        let k = count - 1;
        let (t, page) = segment_loaded(s, root, hdr, elf, k as nat).take_page();
        mapping::map_page(
            t.grant(page, VMPL1_RWX).fill(page, machine::words_of(hdr.page(elf, k))),
            root,
            address::page_above(hdr.p_vaddr, k),
            page,
            hdr.page_flags(),
        )
    }
}

/// The machine after the segments of the first `count` program headers were
/// loaded.
pub open spec fn segments_loaded(
    s: MachineState,
    root: u64,
    phdrs: Seq<Elf64Phdr>,
    elf: Seq<u8>,
    count: nat,
) -> MachineState
    decreases count,
{
    if count == 0 {
        s
    } else {
        let hdr = phdrs[count - 1];
        let t = segments_loaded(s, root, phdrs, elf, (count - 1) as nat);
        if hdr.p_type == PT_LOAD {
            segment_loaded(t, root, hdr, elf, hdr.pages() as nat)
        } else {
            t
        }
    }
}

/// The machine after a program was loaded below an empty root table, with its
/// stack.
pub open spec fn program_loaded(s: MachineState, root: u64, phdrs: Seq<Elf64Phdr>, elf: Seq<u8>) -> MachineState {
    mapping::map_cleared(
        segments_loaded(s, root, phdrs, elf, phdrs.len()),
        root,
        TP_STACK_START_VADDR,
        STACK_PAGES as nat,
        0x8000_0000_0000_0167,
    )
}

/// Whether a file holds all that its program headers load.
pub open spec fn all_fit(phdrs: Seq<Elf64Phdr>, len: int) -> bool {
    forall|i: int|
        0 <= i < phdrs.len() && (#[trigger] phdrs[i]).p_type == PT_LOAD ==> phdrs[i].fits(len)
}

/// The program in a file: its entry point and program headers; none where the
/// file is no 64-bit ELF file or does not hold what it asks to load.
pub open spec fn program(data: Seq<u8>) -> Option<(u64, Seq<Elf64Phdr>)> {
    match elf_headers(data) {
        Some((true, entry, phdrs)) if all_fit(phdrs, data.len() as int) => Some((entry, phdrs)),
        _ => None,
    }
}

fn phdr_fits(hdr: &Elf64Phdr, len: usize) -> (r: bool)
    ensures
        r == hdr.fits(len as int),
{
    if hdr.p_memsz == 0 || hdr.p_filesz == 0 {
        return true;
    }
    let last: u64 = hdr.p_memsz / 4096;
    let loaded: u64 = if hdr.p_filesz / 4096 <= last {
        hdr.p_filesz
    } else {
        if last >= 0xF_FFFF_FFFF_FFFF {
            return false;
        }
        (last + 1) * 4096
    };
    loaded <= len as u64 && hdr.p_offset <= len as u64 - loaded
}

fn all_phdrs_fit(phdrs: &Vec<Elf64Phdr>, len: usize) -> (r: bool)
    ensures
        r == all_fit(phdrs@, len as int),
{
    let mut i: usize = 0;
    while i < phdrs.len()
        invariant
            i <= phdrs.len(),
            forall|k: int|
                0 <= k < i && (#[trigger] phdrs@[k]).p_type == PT_LOAD ==> phdrs@[k].fits(
                    len as int,
                ),
        decreases phdrs.len() - i,
    {
        if phdrs[i].p_type == PT_LOAD && !phdr_fits(&phdrs[i], len) {
            assert(!phdrs@[i as int].fits(len as int));
            return false;
        }
        i = i + 1;
    }
    true
}

fn segment_page(hdr: &Elf64Phdr, elf: &Vec<u8>, i: u64) -> (r: Vec<u8>)
    requires
        hdr.fits(elf@.len() as int),
        i < hdr.pages(),
    ensures
        r@ == hdr.page(elf@, i as int),
{
    let mut bytes: Vec<u8> = Vec::new();
    let mut j: usize = 0;
    while j < 4096
        invariant
            j <= 4096,
            hdr.fits(elf@.len() as int),
            i < hdr.pages(),
            bytes@.len() == j,
            forall|k: int| 0 <= k < j ==> bytes@[k] == hdr.page(elf@, i as int)[k],
        decreases 4096 - j,
    {
        if i <= hdr.p_filesz / 4096 && i * 4096 + (j as u64) < hdr.p_filesz {
            proof {
                assert(i * 4096 + j < hdr.loaded());
                assert(hdr.p_offset + i * 4096 + j < elf.len());
            }
            bytes.push(elf[(hdr.p_offset + i * 4096) as usize + j]);
        } else {
            bytes.push(0);
        }
        j = j + 1;
    }
    bytes
}

impl ProcessPageTableRef {
    /// Loads the segment of a program header.
    fn add_region(&self, m: &mut Machine, hdr: &Elf64Phdr, elf: &Vec<u8>)
        requires
            hdr.fits(elf@.len() as int),
        ensures
            final(m)@ == segment_loaded(
                old(m)@,
                self.process_page_table,
                *hdr,
                elf@,
                hdr.pages() as nat,
            ),
    {
        let executable = hdr.p_flags & Elf64PhdrFlags::EXECUTE == Elf64PhdrFlags::EXECUTE;
        let writable = hdr.p_flags & Elf64PhdrFlags::WRITE == Elf64PhdrFlags::WRITE;
        let flags: u64 = if executable {
            if writable {
                0x147
            } else {
                0x145
            }
        } else {
            if writable {
                0x8000_0000_0000_0147
            } else {
                0x8000_0000_0000_0145
            }
        };
        if hdr.p_memsz == 0 {
            return ;
        }
        let pages: u64 = hdr.p_memsz / 4096 + 1;
        let mut i: u64 = 0;
        while i < pages
            invariant
                i <= pages,
                pages == hdr.pages(),
                pages <= 0x10_0000_0000_0000,
                hdr.fits(elf@.len() as int),
                flags == hdr.page_flags(),
                m@ == segment_loaded(old(m)@, self.process_page_table, *hdr, elf@, i as nat),
            decreases pages - i,
        {
            proof {
                mapping::lemma_plain_flags();
            }
            let page = allocate_page(m);
            m.grant(page, VMPL1_RWX);
            let bytes = segment_page(hdr, elf, i);
            assert(machine::padded(bytes@, 0) =~= hdr.page(elf@, i as int));
            m.write_bytes(page, &bytes, 0);
            self.map_4k_page(m, pages_above(hdr.p_vaddr, i), page, flags);
            i = i + 1;
        }
    }

    /// Loads a program and gives it a stack. Gives its entry point.
    pub fn build_from_elf(&self, m: &mut Machine, elf_file: &Vec<u8>, elf: &Elf64File) -> (r:
        VirtAddr)
        requires
            all_fit(elf.phdrs@, elf_file@.len() as int),
        ensures
            r == elf.e_entry,
            final(m)@ == program_loaded(
                old(m)@,
                self.process_page_table,
                elf.phdrs@,
                elf_file@,
            ),
    {
        let mut i: usize = 0;
        while i < elf.phdrs.len()
            invariant
                i <= elf.phdrs.len(),
                all_fit(elf.phdrs@, elf_file@.len() as int),
                m@ == segments_loaded(
                    old(m)@,
                    self.process_page_table,
                    elf.phdrs@,
                    elf_file@,
                    i as nat,
                ),
            decreases elf.phdrs.len() - i,
        {
            let hdr = elf.phdrs[i];
            if hdr.p_type == PT_LOAD {
                self.add_region(m, &hdr, elf_file);
            }
            i = i + 1;
        }
        self.add_stack(m, TP_STACK_START_VADDR, STACK_PAGES);
        elf.e_entry
    }

    /// Makes a page table for the program in an ELF file and loads it. Gives
    /// its entry point; none, with nothing changed, where the file is not one
    /// that can be loaded.
    pub fn build_from_file(&mut self, m: &mut Machine, data: &Vec<u8>) -> (r: Option<VirtAddr>)
        ensures
            match program(data@) {
                None => r is None && *final(self) == *old(self) && final(m)@ == old(m)@,
                Some((entry, phdrs)) => r == Some(entry) && ({
                    let (t, root) = mapping::root_made(old(m)@);
                    final(self).process_page_table == root && final(m)@ == program_loaded(
                        t,
                        root,
                        phdrs,
                        data@,
                    )
                }),
            },
    {
        match read_elf(data) {
            None => None,
            Some(elf) => {
                if !elf.is_64 || !all_phdrs_fit(&elf.phdrs, data.len()) {
                    return None;
                }
                self.init_vmpl1(m);
                Some(self.build_from_elf(m, data, &elf))
            },
        }
    }
}

} // verus!
