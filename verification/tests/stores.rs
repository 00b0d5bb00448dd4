//! Models, adapters and engines that the monitor stores, and their digests.
use wallet::crypto::{measure, measure_pages, sha512_single, Hasher, KeyPair};
use wallet::error::MonitorError;
use wallet::memory::machine::{Machine, MachineOp};
use wallet::model_store::engine::{engine_delete, engine_get, engine_get_undo, engine_load_data, engine_load_init};
use wallet::model_store::lora::{lora_delete, lora_get, lora_get_undo, lora_load_data, lora_load_init};
use wallet::model_store::model::{model_delete, model_get, model_get_undo, model_load_data, model_load_init};
use wallet::model_store::store::{Store, StoreEntry, StoreTrait};
use wallet::model_store::stream::{
    begin, charge, detach_core, finish, finish_deadline, finish_pending, is_active, load_report,
    poll_worker, progress, request_finish, update, LoadReport, Stream, STATE_ACTIVE, STATE_CLAIMED,
    STATE_FAILED, WATERMARK_MASK,
};
use wallet::model_store::{convert, load_fin_end, load_into, LoadStep};
use wallet::process_manager::allocation::AllocationRange;
use wallet::process_manager::process_memory::pages_available;
use wallet::process_manager::process_paging::walk::{write_mounted, ProcessPageTableRef};
use wallet::RequestParams;

const C_BIT: u64 = 0x8_0000_0000_0000;

const WINDOW: u64 = 0x300_0000_0000;

const GUEST_ROOT: u64 = 0x2000;

const EMPTY_DIGEST: &str = "cf83e1357eefb8bdf1542850d66d8007d620e4050b5715dc83f4a921d36ce9ce47d0d13c5d85f2b0ff8318d2877eec2f63b931bd47417a81a538327af927da3e";

const ABC_DIGEST: &str = "ddaf35a193617abacc417349ae20413112e6fa4e89a97ea20a9eeee64b55d39a2192992a274fc1a836ba3c23a3feebbd454d4423643ce80e2a9ac94fa54ca49f";

fn machine() -> Machine {
    let mut m = Machine::new(vec![0u64; 0x8_0000], C_BIT, 0x1000);
    m.pool.initilized = true;
    m.pool.page_base = 0x10_0000;
    m.pool.page_limit = 0x1000_0000;
    m
}

fn store(places: u32) -> Store<StoreEntry> {
    let mut s: Store<StoreEntry> = Store::new();
    s.init(places);
    s
}

fn request(rcx: u64, rdx: u64, r8: u64) -> RequestParams {
    RequestParams { sev_features: 0, rcx, rdx, r8, r9: 0 }
}

fn hex(bytes: &[u8]) -> String {
    bytes.iter().map(|b| format!("{:02x}", b)).collect()
}

fn entry(first: u8) -> StoreEntry {
    let mut measurement: [u8; 64] = [0; 64];
    measurement[0] = first;
    StoreEntry { measurement, data: AllocationRange(0, 0), real_size: 1, state: false }
}

#[test]
fn digests_are_those_of_the_bytes() {
    let mut h: Vec<u8> = vec![0; 64];
    sha512_single(&Vec::new(), &mut h);
    assert_eq!(hex(&h), EMPTY_DIGEST);
    sha512_single(&b"abc".to_vec(), &mut h);
    assert_eq!(hex(&h), ABC_DIGEST);
    assert_eq!(KeyPair::default().public_key, [0u8; 32]);
    assert_eq!(KeyPair::default().private_key, [0u8; 32]);
}

#[test]
fn memory_is_measured() {
    let mut m = machine();
    let own = ProcessPageTableRef::external(m.cr3);
    own.map_4k_page(&mut m, WINDOW, 0x20_0000, 0x67);
    write_mounted(&mut m, WINDOW, &b"abc".to_vec());
    assert_eq!(hex(&measure(&m, WINDOW, 3)), ABC_DIGEST);
    assert_eq!(hex(&measure(&m, WINDOW, 0)), EMPTY_DIGEST);
    let mut page: Vec<u8> = vec![0; 4096];
    page[..3].copy_from_slice(b"abc");
    let mut h: Vec<u8> = vec![0; 64];
    sha512_single(&page, &mut h);
    assert_eq!(hex(&measure_pages(&m, WINDOW, 1)), hex(&h));
}

#[test]
fn entries_take_the_first_free_place() {
    let mut s = store(3);
    assert_eq!(s.len(), 3);
    assert!(s.get(0).is_empty());
    assert_eq!(s.insert(entry(1)), 0);
    assert_eq!(s.insert(entry(2)), 1);
    assert_eq!(s.insert(entry(3)), 2);
    assert_eq!(s.insert(entry(4)), -1);
    assert_eq!(s.find(entry(2).measurement), 1);
    assert_eq!(s.find(entry(4).measurement), -1);
    let mut gone = *s.get(1);
    gone.set_empty();
    s.set(1, gone);
    assert_eq!(s.find(entry(2).measurement), -1);
    assert_eq!(s.insert(entry(5)), 1);
    s.delete(2);
    assert!(s.get(0).is_empty());
    assert!(!s.get(2).is_empty());
    s.push(entry(6));
    assert_eq!(s.len(), 4);
    assert_eq!(convert(-1), u64::MAX);
}

#[test]
fn a_load_is_measured_and_shown() {
    let mut m = machine();
    let mut stream = Stream::new();
    let mut s = store(2);
    let mut params = request(5000, GUEST_ROOT, 0);
    assert_eq!(model_load_init(&mut m, &mut stream, &mut s, &mut params, 9), Ok(()));
    assert_eq!(params.rcx, 0);
    assert!(is_active(&stream));
    assert_eq!(stream.begin_tsc, 9);
    assert_eq!(stream.watermark, 5000);
    let range = s.get(0).data;
    assert_eq!(range.1, 2);
    // The guest has the load in slot 1, with permission to write.
    assert_eq!(m.read(GUEST_ROOT, 1), range.0);
    assert_eq!(m.read(m.cr3, 6), 0);
    let guest = ProcessPageTableRef::external(GUEST_ROOT);
    let second = guest.get_page(&m, 0x80_0000_1000);
    assert_ne!(second, 0);
    assert!(m.ops.contains(&MachineOp::AdjustMounted {
        vaddr: WINDOW + 0x1000,
        page: Some(second),
        flags: 0xF02
    }));

    let bytes: Vec<u8> = (0..5000u32).map(|i| (i % 253) as u8).collect();
    for (i, b) in bytes.iter().enumerate() {
        let va: u64 = 0x80_0000_0000 + i as u64;
        let page = guest.get_page(&m, va & !0xFFF);
        m.write_byte(page + (va & 0xFFF), *b);
    }
    let mut params = request(0, GUEST_ROOT, 0);
    assert_eq!(model_load_data(&mut m, &mut stream, &mut s, &mut params), LoadStep::Done);
    assert_eq!(params.rcx, 0);
    assert_eq!(m.read(GUEST_ROOT, 1), 0);
    assert!(m.ops.contains(&MachineOp::AdjustMounted {
        vaddr: WINDOW + 0x1000,
        page: Some(second),
        flags: 0x102
    }));
    let mut h: Vec<u8> = vec![0; 64];
    sha512_single(&bytes, &mut h);
    assert_eq!(hex(&s.get(0).measurement), hex(&h));
    assert_eq!(s.find(s.get(0).measurement), 0);
    assert!(!is_active(&stream));

    // Shown and taken away again.
    let mut params = request(0, GUEST_ROOT, 3);
    assert_eq!(model_get(&mut m, &s, &mut params), Ok(()));
    assert_eq!(params.rcx, 5000);
    assert_eq!(m.read(GUEST_ROOT, 3), range.0);
    let mut params = request(0, GUEST_ROOT, 3);
    assert_eq!(model_get_undo(&mut m, &s, &mut params), Ok(()));
    assert_eq!(params.rcx, 5000);
    assert_eq!(m.read(GUEST_ROOT, 3), 0);

    // Gone, and its pages are free again.
    let free = pages_available(&m);
    let mut params = request(0, 0, 0);
    assert_eq!(model_delete(&mut m, &mut s, &mut params), Ok(()));
    assert_eq!(params.rcx, 0);
    assert!(s.get(0).is_empty());
    assert_eq!(s.find([0u8; 64]), -1);
    assert_eq!(pages_available(&m), free + 5);
    let mut params = request(0, 0, 0);
    assert_eq!(model_delete(&mut m, &mut s, &mut params), Ok(()));
    assert_eq!(params.rcx, 1);
}

#[test]
fn requests_that_name_nothing_are_refused() {
    let mut m = machine();
    let mut stream = Stream::new();
    let mut s = store(1);
    for id in [0u64, 1, u64::MAX] {
        let mut params = request(id, GUEST_ROOT, 2);
        assert_eq!(lora_load_data(&mut m, &mut stream, &mut s, &mut params), LoadStep::Done);
        assert_eq!(params.rcx, 1);
        let mut params = request(id, GUEST_ROOT, 2);
        assert_eq!(lora_delete(&mut m, &mut s, &mut params), Ok(()));
        assert_eq!(params.rcx, 1);
        let mut params = request(id, GUEST_ROOT, 2);
        assert_eq!(engine_get(&mut m, &s, &mut params), Ok(()));
        assert_eq!(params.rcx, 0);
        let mut params = request(id, GUEST_ROOT, 2);
        assert_eq!(engine_get_undo(&mut m, &s, &mut params), Ok(()));
        assert_eq!(params.rcx, 0);
    }
    assert_eq!(m.words, machine().words);
}

#[test]
fn loads_have_to_fit() {
    let mut m = machine();
    m.pool.page_limit = m.pool.page_base + 4 * 0x1000;
    let mut stream = Stream::new();
    let mut s = store(2);
    let mut params = request(3 * 4096, GUEST_ROOT, 0);
    assert_eq!(engine_load_init(&mut m, &mut stream, &mut s, &mut params, 0), Ok(()));
    assert_eq!(params.rcx, 0);
    assert_eq!(s.get(0).data, AllocationRange(0, 0));
    assert!(!is_active(&stream));
    assert_eq!(m.words, machine().words);
    // A store that is full answers -1.
    let mut full = store(0);
    let mut params = request(0, GUEST_ROOT, 0);
    load_into(&mut m, &mut stream, &mut full, &mut params, 0);
    assert_eq!(params.rcx, u64::MAX);
}

#[test]
fn adapters_and_engines_have_stores_of_their_own() {
    let mut m = machine();
    let mut stream = Stream::new();
    let mut loras = store(1);
    let mut engines = store(1);
    let mut params = request(1, GUEST_ROOT, 0);
    assert_eq!(lora_load_init(&mut m, &mut stream, &mut loras, &mut params, 0), Ok(()));
    let mut params = request(0, GUEST_ROOT, 0);
    assert_eq!(lora_load_data(&mut m, &mut stream, &mut loras, &mut params), LoadStep::Done);
    let mut params = request(2, GUEST_ROOT, 0);
    assert_eq!(engine_load_init(&mut m, &mut stream, &mut engines, &mut params, 0), Ok(()));
    let mut params = request(0, GUEST_ROOT, 0);
    assert_eq!(engine_load_data(&mut m, &mut stream, &mut engines, &mut params), LoadStep::Done);
    let mut params = request(0, GUEST_ROOT, 4);
    assert_eq!(lora_get(&mut m, &loras, &mut params), Ok(()));
    assert_eq!(params.rcx, 1);
    assert_eq!(m.read(GUEST_ROOT, 4), loras.get(0).data.0);
    let mut params = request(0, GUEST_ROOT, 4);
    assert_eq!(lora_get_undo(&mut m, &loras, &mut params), Ok(()));
    assert_eq!(params.rcx, 1);
    assert_eq!(m.read(GUEST_ROOT, 4), 0);
    let mut params = request(0, GUEST_ROOT, 5);
    assert_eq!(engine_get(&mut m, &engines, &mut params), Ok(()));
    assert_eq!(params.rcx, 2);
    // No slot of a table.
    let mut params = request(0, GUEST_ROOT, 512);
    assert_eq!(engine_get(&mut m, &engines, &mut params), Ok(()));
    assert_eq!(params.rcx, 0);
    let mut params = request(0, GUEST_ROOT, 5);
    assert_eq!(engine_get_undo(&mut m, &engines, &mut params), Ok(()));
    assert_eq!(m.read(GUEST_ROOT, 5), 0);
    let mut params = request(0, 0, 0);
    assert_eq!(engine_delete(&mut m, &mut engines, &mut params), Ok(()));
    assert!(engines.get(0).is_empty());
}

#[test]
fn progress_is_announced_and_answered() {
    let mut m = machine();
    let mut stream = Stream::new();
    let mut params = request(7, 0, 0);
    assert_eq!(update(&mut stream, &mut m, &mut params), Ok(()));
    assert_eq!(params.rcx, 0);
    begin(&mut stream, &AllocationRange(0, 2), 10000, 5);
    let mut params = request(3000, 0, 0);
    assert_eq!(update(&mut stream, &mut m, &mut params), Ok(()));
    assert_eq!(params.rcx, STATE_ACTIVE | 8192);
    assert_eq!(stream.written, 3000);
    // What was written stays written, and there is no more than the load has.
    let mut params = request(100, 0, 0);
    assert_eq!(update(&mut stream, &mut m, &mut params), Ok(()));
    assert_eq!(stream.written, 3000);
    let mut params = request(99999, 0, 0);
    assert_eq!(update(&mut stream, &mut m, &mut params), Ok(()));
    assert_eq!(stream.written, 10000);
    assert_eq!(params.rcx & WATERMARK_MASK, 8192);
}

#[test]
fn all_memory_is_added_on_request() {
    let mut m = machine();
    let mut stream = Stream::new();
    let mut range = AllocationRange(0, 0);
    range.allocate_for_guest(&mut m, 2);
    range.unmount(&mut m);
    begin(&mut stream, &range, 4 * 4096, 0);
    let mut params = request(0, 1, 0);
    assert_eq!(update(&mut stream, &mut m, &mut params), Ok(()));
    assert_eq!(params.rcx, STATE_ACTIVE | (4 * 4096));
    assert_eq!(stream.range_pages, 4);
    assert_eq!(m.read(m.cr3, 6), 0);
    range.mount(&mut m);
    let own = ProcessPageTableRef::external(m.cr3);
    assert_ne!(own.get_page(&m, WINDOW + 3 * 4096), 0);
    assert_eq!(own.get_page(&m, WINDOW + 4 * 4096), 0);
}

#[test]
fn a_load_fails_where_memory_is_short() {
    let mut m = machine();
    m.pool.page_limit = m.pool.page_base + 1000 * 0x1000;
    let mut stream = Stream::new();
    begin(&mut stream, &AllocationRange(0, 0), 4096, 0);
    let mut params = request(0, 1, 0);
    assert_eq!(update(&mut stream, &mut m, &mut params), Ok(()));
    assert_eq!(params.rcx, STATE_ACTIVE | STATE_FAILED);
    poll_worker(&mut stream, &mut Hasher::new(), &mut m, 3);
    assert_eq!(stream.worker, -1);
}

#[test]
fn a_core_hashes_behind_the_writer() {
    let mut m = machine();
    let mut stream = Stream::new();
    let mut hasher = Hasher::new();
    let mut s = store(1);
    let mut params = request(5000, GUEST_ROOT, 0);
    assert_eq!(model_load_init(&mut m, &mut stream, &mut s, &mut params, 0), Ok(()));
    poll_worker(&mut stream, &mut hasher, &mut m, 3);
    assert_eq!(stream.worker, 3);
    assert_eq!(m.read(m.cr3, 6), s.get(0).data.0);
    let content: Vec<u8> = (0..5000u32).map(|i| (i % 251) as u8).collect();
    write_mounted(&mut m, WINDOW, &content);
    poll_worker(&mut stream, &mut hasher, &mut m, 4);
    poll_worker(&mut stream, &mut hasher, &mut m, 3);
    assert_eq!(stream.hashed, 0);
    let mut params = request(4000, 0, 0);
    assert_eq!(update(&mut stream, &mut m, &mut params), Ok(()));
    assert_eq!(params.rcx, STATE_ACTIVE | STATE_CLAIMED | 5000);
    poll_worker(&mut stream, &mut hasher, &mut m, 3);
    assert_eq!(stream.hashed, 4000);
    // Another core goes on where the first one stopped.
    detach_core(&mut stream, &mut m, 4);
    assert_eq!(stream.worker, 3);
    detach_core(&mut stream, &mut m, 3);
    assert_eq!(m.read(m.cr3, 6), 0);
    poll_worker(&mut stream, &mut hasher, &mut m, 4);
    assert_eq!((stream.worker, stream.hashed), (4, 4000));
    let mut params = request(5000, 0, 0);
    assert_eq!(update(&mut stream, &mut m, &mut params), Ok(()));
    poll_worker(&mut stream, &mut hasher, &mut m, 4);
    assert_eq!(stream.hashed, 5000);
    poll_worker(&mut stream, &mut hasher, &mut m, 4);
    assert!(!stream.done);
    // The guest waits for the digest, for as long as the deadline allows.
    let mut params = request(0, GUEST_ROOT, 0);
    assert_eq!(
        model_load_data(&mut m, &mut stream, &mut s, &mut params),
        LoadStep::Waiting { store_id: 0 }
    );
    assert!(finish_pending(&stream, 10, 10));
    assert!(!finish_pending(&stream, 11, 10));
    poll_worker(&mut stream, &mut hasher, &mut m, 4);
    assert!(stream.done);
    assert!(!finish_pending(&stream, 10, 10));
    // A load that is done is not taken on again.
    poll_worker(&mut stream, &mut hasher, &mut m, 4);
    poll_worker(&mut stream, &mut hasher, &mut m, 4);
    assert_eq!(stream.worker, -1);
    load_fin_end(&mut m, &mut stream, &mut s, 0, &mut params);
    assert_eq!(params.rcx, 0);
    let mut digest: Vec<u8> = vec![0; 64];
    sha512_single(&content, &mut digest);
    assert_eq!(s.get(0).measurement.to_vec(), digest);
    assert!(!is_active(&stream));
    assert_eq!(finish(&mut stream), None);
}

#[test]
fn a_new_load_frees_the_core_of_the_last() {
    let mut m = machine();
    let mut stream = Stream::new();
    begin(&mut stream, &AllocationRange(0, 1), 10, 0);
    let mut hasher = Hasher::new();
    poll_worker(&mut stream, &mut hasher, &mut m, 3);
    assert_eq!(stream.worker, 3);
    stream.epoch = stream.epoch.wrapping_add(1);
    poll_worker(&mut stream, &mut hasher, &mut m, 3);
    assert_eq!(stream.worker, -1);
    request_finish(&mut stream);
    assert!(stream.finish);
    assert_eq!(finish(&mut stream), None);
    assert_eq!(MonitorError::unknown().message(), "Monitor error encounterd: Unknown");
}

#[test]
fn guest_data_is_fetched_and_given_back() {
    let mut m = machine();
    let guest = ProcessPageTableRef::external(GUEST_ROOT);
    guest.map_4k_page(&mut m, 0x40_0000, 0x20_0000, 0x67);
    guest.map_4k_page(&mut m, 0x40_1000, 0x20_9000, 0x67);
    m.write(0x20_0000, 0, 11);
    m.write(0x20_9000, 511, 22);
    let (va, range) = ProcessPageTableRef::copy_data_from_guest(&mut m, 0x40_0000, 8191, GUEST_ROOT);
    assert_eq!(va, WINDOW);
    assert_eq!(range.1, 2);
    let own = ProcessPageTableRef::external(m.cr3);
    let first = own.get_page(&m, WINDOW);
    let second = own.get_page(&m, WINDOW + 0x1000);
    assert_eq!(m.read(first, 0), 11);
    assert_eq!(m.read(second, 511), 22);
    m.write(first, 0, 33);
    ProcessPageTableRef::copy_data_to_guest(&mut m, 0x40_1000, 4096, GUEST_ROOT);
    assert_eq!(m.read(0x20_9000, 0), 33);
    assert_eq!(m.read(0x20_9000, 511), 0);
    assert_eq!(m.read(0x20_0000, 0), 11);
    m.write(0x20_0000, 1, 44);
    ProcessPageTableRef::copy_data_from_guest_to(&mut m, 0x40_0000, 10, GUEST_ROOT, WINDOW + 0x1000);
    assert_eq!(m.read(second, 1), 44);
    let (_, again) = ProcessPageTableRef::copy_data_from_guest2(&mut m, 0x40_0000, 4096, GUEST_ROOT);
    assert_eq!(again.1, 2);
}

#[test]
fn the_time_of_a_load_is_added_up() {
    let mut m = machine();
    let mut stream = Stream::new();
    let mut hasher = Hasher::new();
    let ms: u64 = 2_400_008;
    let mut range = AllocationRange(0, 0);
    range.allocate_for_guest(&mut m, 1);
    range.unmount(&mut m);
    let idle = progress(&stream);
    begin(&mut stream, &range, 3 * 4096, 10 * ms);
    // A load that starts was charged nothing, whatever came before it.
    charge(&mut stream, &idle, 99 * ms);
    assert_eq!((stream.hash_tsc, stream.alloc_tsc), (0, 0));
    let mut step = |stream: &mut Stream, m: &mut Machine, ticks: u64| {
        let before = progress(stream);
        poll_worker(stream, &mut hasher, m, 3);
        charge(stream, &before, ticks);
        (stream.hash_tsc, stream.alloc_tsc)
    };
    // To take the load on counts for nothing, to grow the window for memory.
    assert_eq!(step(&mut stream, &mut m, 50 * ms), (0, 0));
    assert_eq!(step(&mut stream, &mut m, 3 * ms), (0, 3 * ms));
    assert_eq!(stream.range_pages, 3);
    let mut params = request(3 * 4096, 0, 0);
    assert_eq!(update(&mut stream, &mut m, &mut params), Ok(()));
    // To hash and to make the digest counts for hashing.
    assert_eq!(step(&mut stream, &mut m, 7 * ms), (7 * ms, 3 * ms));
    assert_eq!(step(&mut stream, &mut m, 60 * ms), (7 * ms, 3 * ms));
    request_finish(&mut stream);
    assert_eq!(step(&mut stream, &mut m, 2 * ms), (9 * ms, 3 * ms));
    let before = progress(&stream);
    assert_eq!(load_report(&stream, &before, 40 * ms), None);
    assert!(finish(&mut stream).is_some());
    assert_eq!(
        load_report(&stream, &before, 40 * ms),
        Some(LoadReport {
            total: 3 * 4096,
            hash_ms: 9,
            alloc_ms: 3,
            wall_ms: 30,
            streamed: true,
        })
    );
    let over = progress(&stream);
    assert_eq!(load_report(&stream, &over, 41 * ms), None);
}

#[test]
fn memory_that_is_added_at_once_is_charged() {
    let mut m = machine();
    let mut stream = Stream::new();
    let mut range = AllocationRange(0, 0);
    range.allocate_for_guest(&mut m, 2);
    range.unmount(&mut m);
    begin(&mut stream, &range, 4 * 4096, 0);
    let before = progress(&stream);
    let mut params = request(0, 1, 0);
    assert_eq!(update(&mut stream, &mut m, &mut params), Ok(()));
    charge(&mut stream, &before, 5);
    assert_eq!((stream.hash_tsc, stream.alloc_tsc), (0, 5));
    let before = progress(&stream);
    assert!(finish(&mut stream).is_none());
    let report = load_report(&stream, &before, 0).unwrap();
    assert!(!report.streamed);
}

#[test]
fn the_digest_is_waited_for_two_minutes() {
    let deadline = finish_deadline(1000);
    assert_eq!(deadline, 1000 + 120 * 2_400_008_000);
    let mut stream = Stream::new();
    begin(&mut stream, &AllocationRange(0, 1), 10, 0);
    assert!(!finish_pending(&stream, 1000, deadline));
    stream.worker = 3;
    assert!(finish_pending(&stream, deadline, deadline));
    assert!(!finish_pending(&stream, deadline + 1, deadline));
    assert_eq!(finish_deadline(u64::MAX), 120 * 2_400_008_000 - 1);
}

#[test]
fn a_core_works_in_bounded_steps() {
    let mut m = machine();
    let mut stream = Stream::new();
    let mut hasher = Hasher::new();
    begin(&mut stream, &AllocationRange(0, 1), 10, 0);
    poll_worker(&mut stream, &mut hasher, &mut m, 3);
    let before = format!("{:?}", stream);
    let words = m.words.clone();
    for other in [0u64, 4, u64::MAX] {
        poll_worker(&mut stream, &mut hasher, &mut m, other);
        detach_core(&mut stream, &mut m, other);
        assert_eq!(format!("{:?}", stream), before);
        assert_eq!(m.words, words);
    }
}
