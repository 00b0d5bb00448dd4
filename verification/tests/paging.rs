//! Pages, page tables and what processes share.
use wallet::memory::machine::{Machine, MachineOp};
use wallet::process_manager::allocation::AllocationRange;
use wallet::process_manager::process_memory::{allocate_page, free_page, pages_available};
use wallet::process_manager::process_paging::entry::{
    is_cow, is_present, make_entry, strip_paddr, ProcessPageFlags, ProcessPageTable,
    ProcessPageTableEntry,
};
use wallet::process_manager::process_paging::mapping::{
    TP_FUNCTION_START_VADDR, TP_LIBOS_START_VADDR, TP_MANIFEST_START_VADDR, TP_STACK_START_VADDR,
};
use wallet::process_manager::process_paging::walk::{
    read_mounted, write_mounted, ProcessPageTableRef, ProcessTableLevelMapping,
};

const C_BIT: u64 = 0x8_0000_0000_0000;

const POOL: u64 = 0x10_0000;

const RWX: u64 = 0x67;

fn machine() -> Machine {
    let mut m = Machine::new(vec![0u64; 0x8_0000], C_BIT, 0x1000);
    m.pool.initilized = true;
    m.pool.page_base = POOL;
    m.pool.page_limit = 0x30_0000;
    m
}

fn table(m: &mut Machine) -> ProcessPageTableRef {
    let mut t = ProcessPageTableRef::external(0);
    t.init_vmpl1(m);
    t
}

fn grants(m: &Machine, page: u64) -> usize {
    let wanted = MachineOp::Adjust { page, flags: 0xF01, required: true };
    m.ops.iter().filter(|op| **op == wanted).count()
}

#[test]
fn entries_hold_address_and_flags() {
    let e = make_entry(C_BIT, 0x12_3000, RWX);
    assert_eq!(e, 0x8_0000_0012_3067);
    assert_eq!(strip_paddr(C_BIT, e), 0x12_3000);
    assert!(is_present(e));
    assert!(!is_cow(e));
    assert!(is_cow(e | ProcessPageFlags::COPY_ON_WRITE));
    assert!(!is_present(0x12_3000));
    let mut entry = ProcessPageTableEntry(0x8000_0000_0000_0FFF);
    assert_eq!(entry.flags(), 0x8000_0000_0000_07FF);
    entry.set(C_BIT, 0x4000, 0x3);
    assert_eq!(entry.0, 0x8_0000_0000_4003);
    assert_eq!(ProcessPageFlags::exec(), 0x165);
    assert_eq!(ProcessPageFlags::data(), 0x8000_0000_0000_0167);
    assert_eq!(ProcessPageFlags::data_ro(), 0x8000_0000_0000_0165);
    assert_eq!(ProcessPageFlags::task_exec(), 0x65);
    assert_eq!(ProcessPageFlags::task_data(), 0x8000_0000_0000_0067);
    assert_eq!(ProcessPageFlags::task_data_ro(), 0x8000_0000_0000_0065);
}

#[test]
fn addresses_have_an_index_at_every_level() {
    let addr: u64 = 5 * 0x80_0000_0000 + 6 * 0x4000_0000 + 7 * 0x20_0000 + 8 * 0x1000 + 9;
    assert_eq!(ProcessPageTable::index::<3>(addr), 5);
    assert_eq!(ProcessPageTable::index::<2>(addr), 6);
    assert_eq!(ProcessPageTable::index::<1>(addr), 7);
    assert_eq!(ProcessPageTable::index::<0>(addr), 8);
    assert_eq!(ProcessPageTable::index_arg(3, 0xFFFF_FFFF_FFFF_FFFF), 511);
    assert_eq!(ProcessPageTable::index_arg(4, 0x1_0000_0000_0000), 1);
}

#[test]
fn words_hold_bytes() {
    let mut m = machine();
    m.write_byte(0x2003, 0xAB);
    assert_eq!(m.read(0x2000, 0), 0xAB00_0000);
    assert_eq!(m.read_byte(0x2003), 0xAB);
    assert_eq!(m.read_byte(0x2004), 0);
    let data: Vec<u8> = (0u8..10).collect();
    m.write_bytes(0x3000, &data, 2);
    assert_eq!(m.read(0x3000, 0), 0x0908_0706_0504_0302);
    assert_eq!(m.read(0x3000, 1), 0);
    // Memory ends somewhere; behind it nothing is kept.
    m.write(0x4000_0000, 0, 7);
    assert_eq!(m.read(0x4000_0000, 0), 0);
}

#[test]
fn taken_pages_are_cleared_and_fresh() {
    let mut m = machine();
    m.write(POOL, 3, 0xDEAD);
    let first = allocate_page(&mut m);
    let second = allocate_page(&mut m);
    assert_eq!(first, POOL);
    assert_eq!(second, POOL + 0x1000);
    assert_eq!(m.read(first, 3), 0);
    assert_eq!(
        m.ops,
        vec![
            MachineOp::Pvalidate { page: POOL },
            MachineOp::Pvalidate { page: POOL + 0x1000 }
        ]
    );
    assert_eq!(pages_available(&m), 510);
    m.write(first, 3, 0xBEEF);
    free_page(&mut m, first);
    assert_eq!(pages_available(&m), 511);
    assert_eq!(allocate_page(&mut m), first);
    assert_eq!(m.read(first, 3), 0);
}

#[test]
fn an_empty_pool_gives_page_zero() {
    let mut m = machine();
    m.pool.page_limit = POOL + 0x1000;
    assert_eq!(allocate_page(&mut m), POOL);
    assert_eq!(allocate_page(&mut m), 0);
    assert_eq!(pages_available(&m), 0);
}

#[test]
fn mapped_pages_are_found() {
    let mut m = machine();
    let t = table(&mut m);
    assert_eq!(t.get_page(&m, 0x80_0000_0000), 0);
    let a = allocate_page(&mut m);
    let b = allocate_page(&mut m);
    t.map_4k_page(&mut m, 0x80_0000_3000, a, RWX);
    t.map_4k_page(&mut m, 0x80_0000_4000, b, RWX);
    assert_eq!(t.get_page(&m, 0x80_0000_3000), a);
    assert_eq!(t.get_page(&m, 0x80_0000_4000), b);
    assert_eq!(t.get_page(&m, 0x80_0000_5000), 0);
    assert_eq!(t.virt_to_phys(&m, 0x80_0000_3123), a);
    assert_eq!(t.virt_to_phys(&m, 0x100_0000_0000), 0);
    assert_eq!(t.find_leaf(&m, 0x80_0000_3000), Some(make_entry(C_BIT, a, RWX)));
    assert_eq!(t.find_leaf(&m, 0x80_0000_5000), None);
    // One root, one table per level: both pages share the tables.
    assert_eq!(m.pool.page_base, POOL + 6 * 0x1000);
    let pud = strip_paddr(C_BIT, m.read(t.process_page_table, 1));
    let pmd = strip_paddr(C_BIT, m.read(pud, 0));
    let pte = strip_paddr(C_BIT, m.read(pmd, 0));
    assert_eq!(
        t.page_walk(&m, t.process_page_table, 0x80_0000_5000),
        ProcessTableLevelMapping::PTE(pte, 5)
    );
    assert_eq!(
        t.page_walk(&m, t.process_page_table, 0x100_0000_0000),
        ProcessTableLevelMapping::PGD(t.process_page_table, 2)
    );
}

#[test]
fn an_entry_can_keep_its_flags() {
    let mut m = machine();
    let t = table(&mut m);
    t.map_4k_page(&mut m, 0x1000, 0x20_0000, 0x5);
    t.map_4k_page(&mut m, 0x1000, 0x20_1000, ProcessPageFlags::FLAG_REUSE);
    assert_eq!(t.find_leaf(&m, 0x1000), Some(make_entry(C_BIT, 0x20_1000, 0x5)));
}

#[test]
fn protection_keeps_the_page() {
    let mut m = machine();
    let t = table(&mut m);
    t.map_4k_page(&mut m, 0x7000, 0x20_0000, RWX);
    t.change_attr(&mut m, 0x7000, true, false, false, false);
    assert_eq!(t.find_leaf(&m, 0x7000), Some(0x8008_0000_0020_0065));
    t.change_attr(&mut m, 0x7000, false, false, true, false);
    assert_eq!(t.find_leaf(&m, 0x7000), Some(0x8_0000_0020_0065));
    t.change_attr(&mut m, 0x7000, false, false, true, true);
    assert_eq!(t.find_leaf(&m, 0x7000), Some(0x8_0000_0020_0067));
    assert_eq!(t.get_page(&m, 0x7000), 0x20_0000);
    let before = m.words.clone();
    t.change_attr(&mut m, 0x100_0000_0000, true, true, true, true);
    assert_eq!(m.words, before);
}

#[test]
fn added_pages_are_cleared_and_never_replace_others() {
    let mut m = machine();
    let t = table(&mut m);
    assert!(t.add_pages(&mut m, 0x1FF000, 3, RWX));
    for i in 0..3u64 {
        let page = t.get_page(&m, 0x1FF000 + i * 0x1000);
        assert_ne!(page, 0);
        assert_eq!(m.read_page(page), vec![0u64; 512]);
        assert_eq!(grants(&m, page), 1);
    }
    assert_ne!(t.get_page(&m, 0x1FF000), t.get_page(&m, 0x200000));
    let kept = t.get_page(&m, 0x201000);
    assert!(!t.map_4k_pages(&mut m, 0x1FE000, RWX, 5));
    // The pages below the one in the way stay.
    assert_ne!(t.get_page(&m, 0x1FE000), 0);
    assert_eq!(t.get_page(&m, 0x201000), kept);
    assert_eq!(t.get_page(&m, 0x202000), 0);
}

#[test]
fn pages_that_are_added_leave_shared_tables_alone() {
    let mut m = machine();
    let zygote = table(&mut m);
    zygote.map_4k_page(&mut m, 0x80_0000_1000, 0x20_0000, RWX);
    zygote.finalize_pages(&mut m);
    let mut first = table(&mut m);
    first.copy_pgd(&mut m, &zygote);
    assert!(first.add_pages(&mut m, 0x80_0000_2000, 2, RWX));
    assert_ne!(first.get_page(&m, 0x80_0000_2000), 0);
    assert_ne!(first.get_page(&m, 0x80_0000_3000), 0);
    assert_eq!(first.get_page(&m, 0x80_0000_1000), 0x20_0000);
    assert_eq!(zygote.get_page(&m, 0x80_0000_2000), 0);
    assert_eq!(zygote.get_page(&m, 0x80_0000_1000), 0x20_0000);
    assert!(!first.add_pages(&mut m, 0x80_0000_1000, 1, RWX));
}

#[test]
fn regions_fill_gaps_only() {
    let mut m = machine();
    let t = table(&mut m);
    t.map_4k_page(&mut m, 0x5000, 0x20_0000, RWX);
    t.map_region(&mut m, 0x4000, 3, RWX);
    assert_eq!(t.get_page(&m, 0x5000), 0x20_0000);
    assert_ne!(t.get_page(&m, 0x4000), 0);
    assert_ne!(t.get_page(&m, 0x6000), 0);
    assert_eq!(t.get_page(&m, 0x7000), 0);
}

#[test]
fn removed_pages_go_back_to_the_pool() {
    let mut m = machine();
    let t = table(&mut m);
    assert!(t.add_pages(&mut m, 0x3000, 2, RWX));
    let page = t.get_page(&m, 0x3000);
    t.remove_pages(&mut m, 0x3000, 1);
    assert_eq!(t.get_page(&m, 0x3000), 0);
    assert_ne!(t.get_page(&m, 0x4000), 0);
    assert_eq!(m.pool.free_page_list, vec![page]);
    assert_eq!(allocate_page(&mut m), page);
}

#[test]
fn huge_pages_are_seen_where_asked_for() {
    let mut m = machine();
    let t = table(&mut m);
    t.map_4k_page(&mut m, 0x20_0000, 0x20_0000, RWX);
    let pud = strip_paddr(C_BIT, m.read(t.process_page_table, 0));
    let pmd = strip_paddr(C_BIT, m.read(pud, 0));
    m.write(pmd, 5, make_entry(C_BIT, 0x4000_0000, RWX | ProcessPageFlags::HUGE_PAGE));
    assert_eq!(t.get_page_4k_hugeaware(&m, 5 * 0x20_0000 + 0x3456), 0x4000_3000);
    assert_eq!(t.get_page_4k_hugeaware(&m, 0x20_0000), 0x20_0000);
    assert_eq!(t.get_page_4k_hugeaware(&m, 0x100_0000_0000), 0);
}

#[test]
fn copies_on_write_leave_the_shared_page_alone() {
    let mut m = machine();
    let zygote = table(&mut m);
    let page = allocate_page(&mut m);
    m.write(page, 0, 42);
    zygote.map_4k_page(&mut m, 0x80_0000_1000, page, RWX);
    zygote.map_4k_page(&mut m, 0x80_0000_2000, 0x20_0000, RWX);
    zygote.finalize_pages(&mut m);
    assert_eq!(m.ops.last(), Some(&MachineOp::FlushTlb));
    assert_eq!(zygote.get_page(&m, 0x80_0000_1000), page);
    let leaf = zygote.find_leaf(&m, 0x80_0000_1000).unwrap();
    assert!(is_cow(leaf));
    assert_eq!(leaf & ProcessPageFlags::WRITABLE, 0);

    let mut first = table(&mut m);
    let second = table(&mut m);
    first.copy_pgd(&mut m, &zygote);
    let mut other = second;
    other.copy_pgd(&mut m, &zygote);
    assert_eq!(first.get_page(&m, 0x80_0000_1000), page);

    assert!(first.handle_cow(&mut m, 0x80_0000_1000, true));
    let own = first.get_page(&m, 0x80_0000_1000);
    assert_ne!(own, page);
    assert_ne!(own, 0);
    assert_eq!(m.read(own, 0), 42);
    let leaf = first.find_leaf(&m, 0x80_0000_1000).unwrap();
    assert_ne!(leaf & ProcessPageFlags::WRITABLE, 0);
    assert_eq!(first.get_page(&m, 0x80_0000_2000), 0x20_0000);

    m.write(own, 0, 43);
    assert_eq!(other.get_page(&m, 0x80_0000_1000), page);
    assert_eq!(m.read(page, 0), 42);
    assert_eq!(zygote.get_page(&m, 0x80_0000_1000), page);
}

#[test]
fn only_marked_pages_are_copied() {
    let mut m = machine();
    let mut t = table(&mut m);
    t.map_4k_page(&mut m, 0x1000, 0x20_0000, RWX);
    t.map_4k_page(&mut m, 0x2000, 0x20_1000, 0x203);
    let before = m.words.clone();
    assert!(!t.handle_cow(&mut m, 0x1000, false));
    assert!(!t.handle_cow(&mut m, 0x100_0000_0000, false));
    // Not for user accesses where the page is not user accessible.
    assert!(!t.handle_cow(&mut m, 0x2000, true));
    assert_eq!(m.words, before);
    assert!(t.handle_cow(&mut m, 0x2000, false));
}

#[test]
fn finalizing_leaves_two_slots_alone() {
    let mut m = machine();
    let t = table(&mut m);
    for slot in [4u64, 5, 6, 7] {
        t.map_4k_page(&mut m, slot * 0x80_0000_0000, 0x20_0000 + slot * 0x1000, RWX);
    }
    t.finalize_pages(&mut m);
    for slot in [4u64, 5, 6, 7] {
        let leaf = t.find_leaf(&m, slot * 0x80_0000_0000).unwrap();
        assert_eq!(is_cow(leaf), slot == 4 || slot == 7);
        assert_eq!(strip_paddr(C_BIT, leaf), 0x20_0000 + slot * 0x1000);
    }
    let stat = t.mem_stat(&mut m);
    assert_eq!((stat.cow_pages, stat.non_cow_pages), (8, 9));
}

#[test]
fn teardown_frees_pages_and_tables() {
    let mut m = machine();
    let t = table(&mut m);
    let free_before = pages_available(&m) + 1;
    assert!(t.add_pages(&mut m, 0x3000, 2, RWX));
    t.delete(&mut m, &Vec::new(), false, &Vec::new());
    assert_eq!(pages_available(&m), free_before);
}

#[test]
fn teardown_spares_what_others_own() {
    let mut m = machine();
    let t = table(&mut m);
    let root = t.process_page_table;
    assert!(t.add_pages(&mut m, 0x80_0000_0000, 1, RWX));
    let kept = allocate_page(&mut m);
    t.map_4k_page(&mut m, 0x80_0000_1000, kept, RWX);
    let skipped = allocate_page(&mut m);
    t.map_4k_page(&mut m, 0x100_0000_0000, skipped, RWX);
    let shared = allocate_page(&mut m);
    t.map_4k_page(&mut m, 0x180_0000_0000, shared, RWX);
    let e = m.read(root, 3);
    m.write(root, 3, e | ProcessPageFlags::COPY_ON_WRITE);
    let gone = t.get_page(&m, 0x80_0000_0000);
    t.delete(&mut m, &vec![0x80_0000_1000], false, &vec![2]);
    let list = &m.pool.free_page_list;
    assert!(list.contains(&gone));
    assert!(list.contains(&root));
    assert!(!list.contains(&kept));
    assert!(!list.contains(&skipped));
    assert!(!list.contains(&shared));
}

#[test]
fn tables_are_copied_with_their_pages() {
    let mut m = machine();
    let t = table(&mut m);
    let page = allocate_page(&mut m);
    m.write(page, 9, 77);
    t.map_4k_page(&mut m, 0x80_0000_1000, page, RWX);
    let copy = table(&mut m);
    t.copy_page_table(&mut m, t.process_page_table, copy.process_page_table, 4);
    let own = copy.get_page(&m, 0x80_0000_1000);
    assert_ne!(own, page);
    assert_eq!(m.read(own, 9), 77);
    assert_eq!(t.get_page(&m, 0x80_0000_1000), page);
}

#[test]
fn programs_and_data_have_their_places() {
    let mut m = machine();
    let t = table(&mut m);
    let data: Vec<u8> = (0..9000u32).map(|i| (i % 251) as u8).collect();
    t.add_manifest(&mut m, &data);
    t.add_libos(&mut m, &data);
    t.add_function(&mut m, &data);
    t.add_stack(&mut m, TP_STACK_START_VADDR, 2);
    for start in [TP_MANIFEST_START_VADDR, TP_LIBOS_START_VADDR, TP_FUNCTION_START_VADDR] {
        let second = t.get_page(&m, start + 0x1000);
        assert_eq!(m.read_byte(t.get_page(&m, start) + 4095), (4095u32 % 251) as u8);
        assert_eq!(m.read_byte(second), (4096u32 % 251) as u8);
        assert_eq!(m.read_byte(second + 4095), (8191u32 % 251) as u8);
        // Whole pages only.
        assert_eq!(t.get_page(&m, start + 0x2000), 0);
    }
    assert_ne!(t.get_page(&m, TP_STACK_START_VADDR), 0);
    assert_ne!(t.get_page(&m, TP_STACK_START_VADDR + 0x1000), 0);
}

#[test]
fn own_memory_is_read_and_written_by_address() {
    let mut m = machine();
    let own = ProcessPageTableRef::external(m.cr3);
    own.map_4k_page(&mut m, 0x300_0000_0000, 0x20_0000, RWX);
    own.map_4k_page(&mut m, 0x300_0000_1000, 0x20_5000, RWX);
    let bytes: Vec<u8> = (1u8..=8).collect();
    write_mounted(&mut m, 0x300_0000_0FFC, &bytes);
    assert_eq!(m.read_byte(0x20_0FFF), 4);
    assert_eq!(m.read_byte(0x20_5000), 5);
    assert_eq!(read_mounted(&m, 0x300_0000_0FFC, 8), bytes);
}

/// A file with one segment that is loaded and one that is not.
fn elf_file() -> Vec<u8> {
    let mut f: Vec<u8> = vec![0u8; 0x2000];
    f[0..8].copy_from_slice(&[0x7f, b'E', b'L', b'F', 2, 1, 1, 0]);
    f[16..18].copy_from_slice(&2u16.to_le_bytes());
    f[18..20].copy_from_slice(&62u16.to_le_bytes());
    f[20..24].copy_from_slice(&1u32.to_le_bytes());
    f[24..32].copy_from_slice(&0x40_0010u64.to_le_bytes());
    f[32..40].copy_from_slice(&64u64.to_le_bytes());
    f[52..54].copy_from_slice(&64u16.to_le_bytes());
    f[54..56].copy_from_slice(&56u16.to_le_bytes());
    f[56..58].copy_from_slice(&2u16.to_le_bytes());
    f[58..60].copy_from_slice(&64u16.to_le_bytes());
    let loads: [(u32, u32, u64, u64, u64, u64); 2] =
        [(1, 5, 0x1000, 0x40_0000, 0x20, 0x1800), (4, 4, 0x1000, 0x50_0000, 0x20, 0x20)];
    for (i, (kind, flags, offset, vaddr, filesz, memsz)) in loads.into_iter().enumerate() {
        let at = 64 + i * 56;
        f[at..at + 4].copy_from_slice(&kind.to_le_bytes());
        f[at + 4..at + 8].copy_from_slice(&flags.to_le_bytes());
        f[at + 8..at + 16].copy_from_slice(&offset.to_le_bytes());
        f[at + 16..at + 24].copy_from_slice(&vaddr.to_le_bytes());
        f[at + 24..at + 32].copy_from_slice(&vaddr.to_le_bytes());
        f[at + 32..at + 40].copy_from_slice(&filesz.to_le_bytes());
        f[at + 40..at + 48].copy_from_slice(&memsz.to_le_bytes());
        f[at + 48..at + 56].copy_from_slice(&0x1000u64.to_le_bytes());
    }
    for i in 0..0x20usize {
        f[0x1000 + i] = i as u8 + 1;
    }
    f
}

#[test]
fn programs_are_loaded_from_files() {
    let mut m = machine();
    let mut t = ProcessPageTableRef::external(0);
    assert_eq!(t.build_from_file(&mut m, &elf_file()), Some(0x40_0010));
    let page = t.get_page(&m, 0x40_0000);
    assert_ne!(page, 0);
    assert_eq!(m.read(page, 0), 0x0807_0605_0403_0201);
    assert_eq!(m.read_byte(page + 0x1F), 0x20);
    assert_eq!(m.read_byte(page + 0x20), 0);
    // Readable and executable, in memory larger than the file.
    assert_eq!(t.find_leaf(&m, 0x40_0000), Some(make_entry(C_BIT, page, 0x145)));
    assert_ne!(t.get_page(&m, 0x40_1000), 0);
    assert_eq!(t.get_page(&m, 0x40_2000), 0);
    assert_eq!(t.get_page(&m, 0x50_0000), 0);
}

#[test]
fn files_that_are_no_programs_are_refused() {
    let mut m = machine();
    let mut t = ProcessPageTableRef::external(0);
    assert_eq!(t.build_from_file(&mut m, &vec![0u8; 128]), None);
    let mut short = elf_file();
    short.truncate(0x1010);
    assert_eq!(t.build_from_file(&mut m, &short), None);
}

#[test]
fn the_pool_gives_each_page_once() {
    let mut m = machine();
    m.pool.page_limit = POOL + 0x3000;
    m.pool.free_page_list = vec![0x20_0000, 0x21_0000];
    assert_eq!(pages_available(&m), 5);
    let mut pages = Vec::new();
    for left in [4u64, 3, 2, 1, 0] {
        pages.push(allocate_page(&mut m));
        assert_eq!(pages_available(&m), left);
    }
    assert_eq!(pages, vec![0x21_0000, 0x20_0000, POOL, POOL + 0x1000, POOL + 0x2000]);
    assert_eq!(allocate_page(&mut m), 0);
}

#[test]
fn both_lookups_find_the_same_page() {
    let mut m = machine();
    let t = table(&mut m);
    t.map_4k_page(&mut m, 0x5000, 0x20_0000, RWX);
    for va in [0x5000u64, 0x6000, 0x20_0000, 0x100_0000_0000] {
        assert_eq!(t.virt_to_phys(&m, va), t.get_page(&m, va));
    }
    assert_eq!(t.virt_to_phys(&m, 0x5000), 0x20_0000);
}

#[test]
fn added_pages_can_be_removed_again() {
    let mut m = machine();
    let t = table(&mut m);
    t.map_4k_page(&mut m, 0x3000, 0x20_0000, RWX);
    let before = m.words.clone();
    let available = pages_available(&m);
    assert!(t.add_pages(&mut m, 0x4000, 2, RWX));
    assert_eq!(pages_available(&m), available - 2);
    t.remove_pages(&mut m, 0x4000, 2);
    assert_eq!(pages_available(&m), available);
    assert_eq!(t.get_page(&m, 0x4000), 0);
    assert_eq!(t.get_page(&m, 0x5000), 0);
    assert_eq!(t.get_page(&m, 0x3000), 0x20_0000);
    assert_eq!(m.words, before);
}

#[test]
fn the_exception_stack_is_written_in_place() {
    let mut m = machine();
    let mut t = table(&mut m);
    let stack = 0x90_0000_0000u64;
    let near = 0x8F_0000_0000u64;
    t.map_4k_page(&mut m, stack, 0x20_0000, RWX);
    t.map_4k_page(&mut m, near, 0x21_0000, RWX);
    t.finalize_pages(&mut m);
    let leaf = t.find_leaf(&m, stack).unwrap();
    assert!(!is_cow(leaf));
    assert_ne!(leaf & ProcessPageFlags::WRITABLE, 0);
    assert!(!t.handle_cow(&mut m, stack, true));
    let leaf = t.find_leaf(&m, near).unwrap();
    assert!(is_cow(leaf));
    assert_eq!(leaf & ProcessPageFlags::WRITABLE, 0);
    assert_eq!(t.get_page(&m, near), 0x21_0000);
    // The tables on the way are marked as well.
    let pud = m.read(t.process_page_table, 1);
    assert!(is_cow(pud));
    assert!(is_cow(m.read(strip_paddr(C_BIT, pud), 60)));
    assert!(is_cow(m.read(strip_paddr(C_BIT, pud), 64)));
}

#[test]
fn deleted_ranges_give_all_their_pages_back() {
    for (pages, taken) in [(0u64, 0u64), (1, 4), (3, 6), (512, 515), (513, 517)] {
        let mut m = Machine::new(vec![0u64; 0xA_0000], C_BIT, 0x1000);
        m.pool.initilized = true;
        m.pool.page_base = POOL;
        m.pool.page_limit = 0x50_0000;
        let available = pages_available(&m);
        let mut range = AllocationRange(0, 0);
        range.allocate_for_guest(&mut m, pages);
        assert_eq!(range.1, pages);
        assert_eq!(pages_available(&m), available - taken);
        range.unmount(&mut m);
        range.delete(&mut m);
        assert_eq!(pages_available(&m), available);
        let mut list = m.pool.free_page_list.clone();
        list.sort();
        list.dedup();
        assert_eq!(list.len() as u64, taken);
    }
    let mut m = machine();
    let available = pages_available(&m);
    AllocationRange(0, 7).delete(&mut m);
    assert_eq!(pages_available(&m), available);
}

#[test]
fn completed_regions_have_a_page_for_each_gap() {
    let mut m = machine();
    let t = table(&mut m);
    t.map_4k_page(&mut m, 0x20_0000, 0x21_0000, RWX);
    t.map_region(&mut m, 0x1F_E000, 5, RWX);
    let mut pages = Vec::new();
    for i in 0..5u64 {
        pages.push(t.get_page(&m, 0x1F_E000 + i * 0x1000));
    }
    assert_eq!(pages[2], 0x21_0000);
    pages.sort();
    pages.dedup();
    assert_eq!(pages.len(), 5);
    assert!(!pages.contains(&0));
}

#[test]
fn marking_spares_channels_and_stack() {
    let mut m = machine();
    let t = table(&mut m);
    let stack = 0x90_0000_0000u64;
    let channels = [5 * 0x80_0000_0000u64, 6 * 0x80_0000_0000 + 0x4020_3000];
    let mut frame = 0x20_0000u64;
    for va in [stack, stack + 0x20_0000, channels[0], channels[1], 0x80_0000_0000] {
        t.map_4k_page(&mut m, va, frame, RWX);
        frame += 0x1000;
    }
    let root = t.process_page_table;
    let slots = [m.read(root, 5), m.read(root, 6)];
    let mut leaves = Vec::new();
    for va in [stack, stack + 0x20_0000, channels[0], channels[1]] {
        leaves.push(t.find_leaf(&m, va).unwrap());
    }
    t.finalize_pages(&mut m);
    assert_eq!([m.read(root, 5), m.read(root, 6)], slots);
    for (i, va) in [stack, stack + 0x20_0000, channels[0], channels[1]].iter().enumerate() {
        assert_eq!(t.find_leaf(&m, *va), Some(leaves[i]));
    }
    assert!(is_cow(t.find_leaf(&m, 0x80_0000_0000).unwrap()));
}

#[test]
fn teardown_frees_each_own_page_once() {
    let mut m = machine();
    let t = table(&mut m);
    assert!(t.add_pages(&mut m, 0x1F_F000, 3, RWX));
    assert!(t.add_pages(&mut m, 0x80_0000_0000, 2, RWX));
    let kept = t.get_page(&m, 0x20_0000);
    let mut own = vec![t.process_page_table];
    for va in [0x1F_F000u64, 0x20_1000, 0x80_0000_0000, 0x80_0000_1000] {
        own.push(t.get_page(&m, va));
    }
    t.delete(&mut m, &vec![0x20_0000], false, &Vec::new());
    let list = m.pool.free_page_list.clone();
    for page in own {
        assert_eq!(list.iter().filter(|p| **p == page).count(), 1);
    }
    assert!(!list.contains(&kept));
    // Two tables of pages in one slot and one in the other, and the two levels
    // above each, come to the root and the four pages.
    assert_eq!(list.len(), 5 + 3 + 4);
    let mut sorted = list.clone();
    sorted.sort();
    sorted.dedup();
    assert_eq!(sorted.len(), list.len());
}

#[test]
fn new_tables_have_no_pages() {
    let mut m = machine();
    m.write(POOL, 0, make_entry(C_BIT, 0x20_0000, RWX));
    let t = table(&mut m);
    assert_eq!(t.process_page_table, POOL);
    for va in [0u64, 0x20_0000, 0x80_0000_0000] {
        assert_eq!(t.get_page(&m, va), 0);
    }
}
