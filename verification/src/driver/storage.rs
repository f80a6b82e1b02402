//! Block storage: a RAM-backed virtual block device behind a small
//! write-through cache with least-recently-used replacement.

use vstd::prelude::*;
use crate::util::{first_match, is_first_match, lemma_first_match_is, lemma_first_match_none};

verus! {

/// Bytes per block.
pub const BLOCK_SIZE: usize = 4096;

/// 16,384 blocks of 4 KiB: a 64 MiB virtual disk.
pub const DEFAULT_TOTAL_BLOCKS: u64 = 16_384;

/// Physical address the virtual disk is said to live at.
pub const DEFAULT_BASE_ADDR: u64 = 0x6000_0000;

/// Number of cached blocks.
pub const CACHE_ENTRIES: usize = 16;

/// A block of zero bytes: the content of a block that was never written.
pub open spec fn zero_block() -> Seq<u8> {
    Seq::new(BLOCK_SIZE as nat, |i: int| 0u8)
}

/// Storage errors.
#[derive(Debug, Clone, Copy, PartialEq, Eq, Structural)]
pub enum StorageError {
    InvalidBlock,
    BufferTooSmall,
    ReadError,
    WriteError,
    Timeout,
}

/// A block device: a numbered array of `BLOCK_SIZE`-byte blocks.
pub trait StorageDevice {
    /// Number of addressable blocks.
    spec fn block_count(&self) -> nat;

    /// Content of block `b`.
    spec fn block(&self, b: u64) -> Seq<u8>;

    /// Copy block `block_num` into the first `BLOCK_SIZE` bytes of `buffer`.
    fn read_block(&self, block_num: u64, buffer: &mut [u8]) -> (r: Result<(), StorageError>)
        ensures
            final(buffer)@.len() == old(buffer)@.len(),
            block_num >= self.block_count() ==> r == Err::<(), StorageError>(StorageError::InvalidBlock)
                && final(buffer)@ == old(buffer)@,
            block_num < self.block_count() && old(buffer)@.len() < BLOCK_SIZE ==> r == Err::<(), StorageError>(
                StorageError::BufferTooSmall,
            ) && final(buffer)@ == old(buffer)@,
            block_num < self.block_count() && old(buffer)@.len() >= BLOCK_SIZE ==> r is Ok
                && final(buffer)@ == self.block(block_num) + old(buffer)@.skip(BLOCK_SIZE as int),
    ;

    /// Store the first `BLOCK_SIZE` bytes of `buffer` as block `block_num`.
    fn write_block(&mut self, block_num: u64, buffer: &[u8]) -> (r: Result<(), StorageError>)
        ensures
            final(self).block_count() == old(self).block_count(),
            block_num >= old(self).block_count() ==> r == Err::<(), StorageError>(StorageError::InvalidBlock)
                && forall|b: u64| final(self).block(b) == old(self).block(b),
            block_num < old(self).block_count() && buffer@.len() < BLOCK_SIZE ==> r == Err::<(), StorageError>(
                StorageError::BufferTooSmall,
            ) && forall|b: u64| final(self).block(b) == old(self).block(b),
            block_num < old(self).block_count() && buffer@.len() >= BLOCK_SIZE ==> r is Ok
                && forall|b: u64|
                #![trigger final(self).block(b)]
                final(self).block(b) == if b == block_num {
                    buffer@.take(BLOCK_SIZE as int)
                } else {
                    old(self).block(b)
                },
    ;

    /// Number of addressable blocks.
    fn total_blocks(&self) -> (r: u64)
        ensures
            r == self.block_count(),
    ;
}

/// Size of a block device.
#[derive(Debug, Clone, Copy)]
pub struct StorageGeometry {
    pub block_size: usize,
    pub total_blocks: u64,
    pub total_bytes: u64,
    pub base_addr: u64,
}

/// One block that has been written to the virtual disk.
#[derive(Clone, Copy)]
pub struct DiskBlock {
    pub block_num: u64,
    pub data: [u8; BLOCK_SIZE],
}

/// A RAM-backed virtual block device. Blocks never written read as zeros.
pub struct VirtualBlockDevice {
    total_blocks: u64,
    base_addr: u64,
    written: Vec<DiskBlock>,
}

impl VirtualBlockDevice {
    /// Written blocks are recorded once each.
    #[verifier::type_invariant]
    closed spec fn wf(&self) -> bool {
        forall|i: int, j: int|
            0 <= i < j < self.written@.len() ==> #[trigger] self.written@[i].block_num
                != #[trigger] self.written@[j].block_num
    }

    pub closed spec fn spec_total_blocks(&self) -> u64 {
        self.total_blocks
    }

    pub closed spec fn spec_base_addr(&self) -> u64 {
        self.base_addr
    }

    /// Content of block `b`.
    pub closed spec fn spec_block(&self, b: u64) -> Seq<u8> {
        if exists|i: int| 0 <= i < self.written@.len() && self.written@[i].block_num == b {
            let i = choose|i: int| 0 <= i < self.written@.len() && self.written@[i].block_num == b;
            self.written@[i].data@
        } else {
            zero_block()
        }
    }

    proof fn lemma_block_at(&self, i: int)
        requires
            self.wf(),
            0 <= i < self.written@.len(),
        ensures
            self.spec_block(self.written@[i].block_num) == self.written@[i].data@,
    {
        let b = self.written@[i].block_num;
        let k = choose|k: int| 0 <= k < self.written@.len() && self.written@[k].block_num == b;
        assert(k == i);
    }

    /// A device of `total_blocks` zeroed blocks at `base_addr`.
    pub fn new(total_blocks: u64, base_addr: u64) -> (r: Self)
        ensures
            r.spec_total_blocks() == total_blocks,
            r.spec_base_addr() == base_addr,
            forall|b: u64| r.spec_block(b) == zero_block(),
    {
        VirtualBlockDevice { total_blocks, base_addr, written: Vec::new() }
    }

    /// Block size, block count, byte count and base address.
    pub fn geometry(&self) -> (r: StorageGeometry)
        requires
            self.spec_total_blocks() * BLOCK_SIZE <= u64::MAX,
        ensures
            r.block_size == BLOCK_SIZE,
            r.total_blocks == self.spec_total_blocks(),
            r.total_bytes == self.spec_total_blocks() * BLOCK_SIZE,
            r.base_addr == self.spec_base_addr(),
    {
        StorageGeometry {
            block_size: BLOCK_SIZE,
            total_blocks: self.total_blocks,
            total_bytes: self.total_blocks * BLOCK_SIZE as u64,
            base_addr: self.base_addr,
        }
    }

    fn find_written(&self, block_num: u64) -> (r: Option<usize>)
        ensures
            match r {
                Some(i) => i < self.written@.len() && self.written@[i as int].block_num == block_num,
                None => forall|i: int|
                    0 <= i < self.written@.len() ==> #[trigger] self.written@[i].block_num != block_num,
            },
    {
        let mut i: usize = 0;
        while i < self.written.len()
            invariant
                i <= self.written@.len(),
                forall|j: int| 0 <= j < i ==> #[trigger] self.written@[j].block_num != block_num,
            decreases self.written@.len() - i,
        {
            if self.written[i].block_num == block_num {
                return Some(i);
            }
            i += 1;
        }
        None
    }
}

impl StorageDevice for VirtualBlockDevice {
    open spec fn block_count(&self) -> nat {
        self.spec_total_blocks() as nat
    }

    open spec fn block(&self, b: u64) -> Seq<u8> {
        self.spec_block(b)
    }

    fn read_block(&self, block_num: u64, buffer: &mut [u8]) -> (r: Result<(), StorageError>) {
        if block_num >= self.total_blocks {
            return Err(StorageError::InvalidBlock);
        }
        if buffer.len() < BLOCK_SIZE {
            return Err(StorageError::BufferTooSmall);
        }
        proof {
            use_type_invariant(self);
        }
        let found = self.find_written(block_num);
        let data: [u8; BLOCK_SIZE] = match found {
            Some(i) => self.written[i].data,
            None => [0u8; BLOCK_SIZE],
        };
        proof {
            match found {
                Some(i) => self.lemma_block_at(i as int),
                None => {}
            }
            assert(data@ == self.spec_block(block_num));
        }
        let ghost before = buffer@;
        let mut i: usize = 0;
        while i < BLOCK_SIZE
            invariant
                i <= BLOCK_SIZE,
                buffer@.len() == before.len(),
                before.len() >= BLOCK_SIZE,
                forall|j: int| 0 <= j < i ==> buffer@[j] == data@[j],
                forall|j: int| i <= j < buffer@.len() ==> buffer@[j] == before[j],
            decreases BLOCK_SIZE - i,
        {
            buffer[i] = data[i];
            i += 1;
        }
        assert(buffer@ =~= data@ + before.skip(BLOCK_SIZE as int));
        Ok(())
    }

    fn write_block(&mut self, block_num: u64, buffer: &[u8]) -> (r: Result<(), StorageError>)
        ensures
            final(self).spec_base_addr() == old(self).spec_base_addr(),
            final(self).spec_total_blocks() == old(self).spec_total_blocks(),
    {
        if block_num >= self.total_blocks {
            return Err(StorageError::InvalidBlock);
        }
        if buffer.len() < BLOCK_SIZE {
            return Err(StorageError::BufferTooSmall);
        }
        proof {
            use_type_invariant(&*self);
        }
        let mut data = [0u8; BLOCK_SIZE];
        let mut i: usize = 0;
        while i < BLOCK_SIZE
            invariant
                i <= BLOCK_SIZE,
                buffer@.len() >= BLOCK_SIZE,
                forall|j: int| 0 <= j < i ==> data@[j] == buffer@[j],
            decreases BLOCK_SIZE - i,
        {
            data[i] = buffer[i];
            i += 1;
        }
        assert(data@ =~= buffer@.take(BLOCK_SIZE as int));
        let ghost old_dev = *self;
        let found = self.find_written(block_num);
        let mut written = self.written.clone();
        assert(written@ == old_dev.written@);
        match found {
            Some(i) => {
                written.set(i, DiskBlock { block_num, data });
            },
            None => {
                written.push(DiskBlock { block_num, data });
            },
        }
        self.written = written;
        proof {
            assert forall|b: u64| #[trigger] self.spec_block(b) == if b == block_num {
                buffer@.take(BLOCK_SIZE as int)
            } else {
                old_dev.spec_block(b)
            } by {
                if b == block_num {
                    match found {
                        Some(i) => self.lemma_block_at(i as int),
                        None => self.lemma_block_at(self.written@.len() - 1),
                    }
                } else {
                    if exists|k: int| 0 <= k < self.written@.len() && self.written@[k].block_num == b {
                        let k = choose|k: int| 0 <= k < self.written@.len() && self.written@[k].block_num == b;
                        self.lemma_block_at(k);
                        assert(found != Some(k as usize));
                        assert(k < old_dev.written@.len());
                        assert(old_dev.written@[k] == self.written@[k]);
                        old_dev.lemma_block_at(k);
                    } else {
                        assert forall|k: int| 0 <= k < old_dev.written@.len() implies old_dev.written@[k].block_num != b by {
                            if found == Some(k as usize) {
                            } else {
                                assert(self.written@[k] == old_dev.written@[k]);
                            }
                        }
                    }
                }
            }
        }
        Ok(())
    }

    fn total_blocks(&self) -> (r: u64) {
        self.total_blocks
    }
}

/// One cached block.
#[derive(Clone, Copy)]
pub struct CacheEntry {
    pub block_num: u64,
    pub data: [u8; BLOCK_SIZE],
    pub valid: bool,
    pub last_used: u64,
}

impl CacheEntry {
    /// An unused cache slot.
    pub fn empty() -> (r: Self)
        ensures
            r.block_num == 0,
            r.data@ == zero_block(),
            !r.valid,
            r.last_used == 0,
    {
        let r = CacheEntry { block_num: 0, data: [0u8; BLOCK_SIZE], valid: false, last_used: 0 };
        assert(r.data@ =~= zero_block());
        r
    }
}

/// The entry caches block `b`.
pub open spec fn caches(e: CacheEntry, b: u64) -> bool {
    e.valid && e.block_num == b
}

/// Predicate on entries: caches block `b`.
pub open spec fn hits_block(b: u64) -> spec_fn(CacheEntry) -> bool {
    |e: CacheEntry| caches(e, b)
}

/// The slot that a miss fills: the first unused slot, else the first of the
/// least recently used ones.
pub open spec fn is_victim(cache: Seq<CacheEntry>, i: int) -> bool {
    &&& 0 <= i < cache.len()
    &&& if exists|k: int| 0 <= k < cache.len() && !(#[trigger] cache[k]).valid {
        is_first_match(cache, |e: CacheEntry| !e.valid, i)
    } else {
        &&& forall|j: int| 0 <= j < cache.len() ==> cache[i].last_used <= #[trigger] cache[j].last_used
        &&& forall|j: int| 0 <= j < i ==> #[trigger] cache[j].last_used > cache[i].last_used
    }
}

pub open spec fn victim(cache: Seq<CacheEntry>) -> int {
    choose|i: int| is_victim(cache, i)
}

proof fn lemma_victim_unique(cache: Seq<CacheEntry>, i: int)
    requires
        is_victim(cache, i),
    ensures
        victim(cache) == i,
{
    let k = victim(cache);
    assert(is_victim(cache, k));
    if exists|m: int| 0 <= m < cache.len() && !(#[trigger] cache[m]).valid {
        lemma_first_match_is(cache, |e: CacheEntry| !e.valid, i);
        lemma_first_match_is(cache, |e: CacheEntry| !e.valid, k);
    } else {
        if k < i {
            assert(cache[k].last_used > cache[i].last_used);
        } else if i < k {
            assert(cache[i].last_used > cache[k].last_used);
        }
    }
}

/// What a read that found a buffer large enough did.
pub open spec fn read_outcome(
    old: StorageCache,
    new: StorageCache,
    b: u64,
    ob: Seq<u8>,
    nb: Seq<u8>,
    r: Result<(), StorageError>,
) -> bool {
    let (c, h, m, rd, w) = old.counters();
    let t = (c + 1) as u64;
    match first_match(old.entries(), hits_block(b)) {
        Some(i) => {
            &&& r is Ok
            &&& new.counters() == (t, (h + 1) as u64, m, (rd + 1) as u64, w)
            &&& new.entries() == old.entries().update(i, CacheEntry { last_used: t, ..old.entries()[i] })
            &&& nb == old.entries()[i].data@ + ob.skip(BLOCK_SIZE as int)
        },
        None => {
            &&& new.counters() == (t, h, (m + 1) as u64, (rd + 1) as u64, w)
            &&& if !old.has_device() {
                r == Err::<(), StorageError>(StorageError::ReadError) && new.entries() == old.entries() && nb == ob
            } else if b >= old.disk_blocks() {
                r == Err::<(), StorageError>(StorageError::InvalidBlock) && new.entries() == old.entries() && nb
                    == ob
            } else {
                &&& r is Ok
                &&& nb == old.disk_block(b) + ob.skip(BLOCK_SIZE as int)
                &&& new.entries().len() == CACHE_ENTRIES
                &&& forall|j: int|
                    0 <= j < CACHE_ENTRIES && j != victim(old.entries()) ==> #[trigger] new.entries()[j]
                        == old.entries()[j]
                &&& filled(new.entries()[victim(old.entries())], b, old.disk_block(b), t)
            }
        },
    }
}

/// The entry holds block `b` with content `data`, last used at `t`.
pub open spec fn filled(e: CacheEntry, b: u64, data: Seq<u8>, t: u64) -> bool {
    e.block_num == b && e.valid && e.last_used == t && e.data@ == data
}

/// What a write that found a buffer large enough did.
pub open spec fn write_outcome(
    old: StorageCache,
    new: StorageCache,
    b: u64,
    buf: Seq<u8>,
    r: Result<(), StorageError>,
) -> bool {
    let (c, h, m, rd, w) = old.counters();
    let t = (c + 1) as u64;
    let slot = match first_match(old.entries(), hits_block(b)) {
        Some(i) => i,
        None => victim(old.entries()),
    };
    &&& new.counters() == (t, h, m, rd, (w + 1) as u64)
    &&& if !old.has_device() {
        r == Err::<(), StorageError>(StorageError::WriteError) && new.entries() == old.entries() && new.device()
            == old.device()
    } else if b >= old.disk_blocks() {
        r == Err::<(), StorageError>(StorageError::InvalidBlock) && new.entries() == old.entries() && new.device()
            == old.device()
    } else {
        &&& r is Ok
        &&& new.has_device()
        &&& new.disk_blocks() == old.disk_blocks()
        &&& new.device()->0.spec_base_addr() == old.device()->0.spec_base_addr()
        &&& forall|x: u64|
            #![trigger new.disk_block(x)]
            new.disk_block(x) == if x == b {
                buf.take(BLOCK_SIZE as int)
            } else {
                old.disk_block(x)
            }
        &&& new.entries().len() == CACHE_ENTRIES
        &&& 0 <= slot < CACHE_ENTRIES
        &&& forall|j: int| 0 <= j < CACHE_ENTRIES && j != slot ==> #[trigger] new.entries()[j] == old.entries()[j]
        &&& filled(new.entries()[slot], b, buf.take(BLOCK_SIZE as int), t)
    }
}

/// A block cache in front of a virtual block device. Writes go through to
/// the device; every cached block holds what the device holds.
pub struct StorageCache {
    device: Option<VirtualBlockDevice>,
    cache: [CacheEntry; CACHE_ENTRIES],
    clock: u64,
    cache_hits: u64,
    cache_misses: u64,
    reads: u64,
    writes: u64,
}

/// Access counters of a cache, in the order clock, hits, misses, reads, writes.
pub type CacheCounters = (u64, u64, u64, u64, u64);

impl StorageCache {
    /// Every valid cache slot holds the device's current content of its block.
    pub closed spec fn wf(&self) -> bool {
        &&& forall|i: int|
            0 <= i < CACHE_ENTRIES && (#[trigger] self.cache@[i]).valid ==> {
                &&& self.device is Some
                &&& self.cache@[i].block_num < self.device->0.spec_total_blocks()
                &&& self.cache@[i].data@ == self.device->0.spec_block(self.cache@[i].block_num)
            }
        &&& forall|i: int, j: int|
            0 <= i < j < CACHE_ENTRIES && (#[trigger] self.cache@[i]).valid && (#[trigger] self.cache@[j]).valid
                ==> self.cache@[i].block_num != self.cache@[j].block_num
        &&& self.cache_hits + self.cache_misses == self.reads
    }

    pub closed spec fn has_device(&self) -> bool {
        self.device is Some
    }

    /// The device, when there is one.
    pub closed spec fn device(&self) -> Option<VirtualBlockDevice> {
        self.device
    }

    pub closed spec fn entries(&self) -> Seq<CacheEntry> {
        self.cache@
    }

    pub closed spec fn counters(&self) -> CacheCounters {
        (self.clock, self.cache_hits, self.cache_misses, self.reads, self.writes)
    }

    /// Every counter can still grow by `n`.
    pub open spec fn has_room(&self, n: nat) -> bool {
        let (c, h, m, rd, w) = self.counters();
        &&& c + n <= u64::MAX
        &&& h + n <= u64::MAX
        &&& m + n <= u64::MAX
        &&& rd + n <= u64::MAX
        &&& w + n <= u64::MAX
    }

    /// Number of blocks of the device (0 without one).
    pub open spec fn disk_blocks(&self) -> nat {
        match self.device() {
            Some(d) => d.spec_total_blocks() as nat,
            None => 0,
        }
    }

    /// Content of block `b` of the device.
    pub open spec fn disk_block(&self, b: u64) -> Seq<u8> {
        self.device()->0.spec_block(b)
    }

    /// A cache with no device.
    pub fn new() -> (r: Self)
        ensures
            r.wf(),
            !r.has_device(),
            r.counters() == (0u64, 0u64, 0u64, 0u64, 0u64),
            forall|i: int| 0 <= i < CACHE_ENTRIES ==> !(#[trigger] r.entries()[i]).valid,
    {
        let e = CacheEntry::empty();
        StorageCache {
            device: None,
            cache: [e; CACHE_ENTRIES],
            clock: 0,
            cache_hits: 0,
            cache_misses: 0,
            reads: 0,
            writes: 0,
        }
    }

    /// Attach `device`, emptying the cache and zeroing the counters.
    pub fn init_device(&mut self, device: VirtualBlockDevice)
        ensures
            final(self).wf(),
            final(self).device() == Some(device),
            final(self).counters() == (0u64, 0u64, 0u64, 0u64, 0u64),
            forall|i: int| 0 <= i < CACHE_ENTRIES ==> !(#[trigger] final(self).entries()[i]).valid,
    {
        let e = CacheEntry::empty();
        self.device = Some(device);
        self.cache = [e; CACHE_ENTRIES];
        self.clock = 0;
        self.cache_hits = 0;
        self.cache_misses = 0;
        self.reads = 0;
        self.writes = 0;
    }

    /// Read block `block_num` into the first `BLOCK_SIZE` bytes of `buffer`,
    /// from the cache when it holds the block, else from the device.
    pub fn read(&mut self, block_num: u64, buffer: &mut [u8]) -> (r: Result<(), StorageError>)
        requires
            old(self).wf(),
            old(self).counters().0 < u64::MAX,
            old(self).counters().1 < u64::MAX,
            old(self).counters().2 < u64::MAX,
            old(self).counters().3 < u64::MAX,
        ensures
            final(self).wf(),
            final(self).device() == old(self).device(),
            final(buffer)@.len() == old(buffer)@.len(),
            r is Ok ==> final(buffer)@.take(BLOCK_SIZE as int) == old(self).disk_block(block_num),
            old(buffer)@.len() < BLOCK_SIZE ==> r == Err::<(), StorageError>(StorageError::BufferTooSmall)
                && *final(self) == *old(self) && final(buffer)@ == old(buffer)@,
            old(buffer)@.len() >= BLOCK_SIZE ==> read_outcome(
                *old(self),
                *final(self),
                block_num,
                old(buffer)@,
                final(buffer)@,
                r,
            ),
    {
        if buffer.len() < BLOCK_SIZE {
            return Err(StorageError::BufferTooSmall);
        }
        self.reads += 1;
        self.clock += 1;
        if let Some(index) = self.find_cache(block_num) {
            self.cache_hits += 1;
            let mut entry = self.cache[index];
            entry.last_used = self.clock;
            self.cache[index] = entry;
            copy_into(buffer, &entry.data);
            return Ok(());
        }
        self.cache_misses += 1;
        match &self.device {
            None => {
                return Err(StorageError::ReadError);
            },
            Some(device) => {
                let res = device.read_block(block_num, buffer);
                if res.is_err() {
                    return res;
                }
            },
        }
        let index = self.evict_index();
        let data = copy_block(buffer);
        let ghost before = self.cache@;
        self.cache[index] = CacheEntry { block_num, data, valid: true, last_used: self.clock };
        proof {
            assert(data@ == self.device->0.spec_block(block_num));
            assert forall|i: int, j: int|
                0 <= i < j < CACHE_ENTRIES && (#[trigger] self.cache@[i]).valid && (#[trigger] self.cache@[j]).valid
                implies self.cache@[i].block_num != self.cache@[j].block_num by {
                if i != index && j != index {
                    assert(before[i] == self.cache@[i] && before[j] == self.cache@[j]);
                } else if i == index {
                    assert(!caches(before[j], block_num));
                } else {
                    assert(!caches(before[i], block_num));
                }
            }
        }
        Ok(())
    }

    /// Write the first `BLOCK_SIZE` bytes of `buffer` to block `block_num` of
    /// the device and keep the cache in step with it.
    pub fn write(&mut self, block_num: u64, buffer: &[u8]) -> (r: Result<(), StorageError>)
        requires
            old(self).wf(),
            old(self).counters().0 < u64::MAX,
            old(self).counters().4 < u64::MAX,
        ensures
            final(self).wf(),
            buffer@.len() < BLOCK_SIZE ==> r == Err::<(), StorageError>(StorageError::BufferTooSmall)
                && *final(self) == *old(self),
            buffer@.len() >= BLOCK_SIZE ==> write_outcome(*old(self), *final(self), block_num, buffer@, r),
    {
        if buffer.len() < BLOCK_SIZE {
            return Err(StorageError::BufferTooSmall);
        }
        self.writes += 1;
        self.clock += 1;
        match &self.device {
            None => {
                return Err(StorageError::WriteError);
            },
            Some(d) => {
                if block_num >= d.total_blocks() {
                    return Err(StorageError::InvalidBlock);
                }
            },
        }
        let mut device = self.device.take().unwrap();
        let ghost pre = device;
        assert(block_num < pre.block_count());
        let res = device.write_block(block_num, buffer);
        assert(res is Ok);
        assert(device.block(block_num) == buffer@.take(BLOCK_SIZE as int));
        self.device = Some(device);
        let found = self.find_cache(block_num);
        let index = match found {
            Some(i) => i,
            None => self.evict_index(),
        };
        let data = copy_block(buffer);
        let ghost before = self.cache@;
        assert(before == old(self).cache@);
        self.cache[index] = CacheEntry { block_num, data, valid: true, last_used: self.clock };
        proof {
            assert forall|i: int|
                0 <= i < CACHE_ENTRIES && (#[trigger] self.cache@[i]).valid implies {
                &&& self.device is Some
                &&& self.cache@[i].block_num < self.device->0.spec_total_blocks()
                &&& self.cache@[i].data@ == self.device->0.spec_block(self.cache@[i].block_num)
            } by {
                if i != index {
                    assert(before[i] == self.cache@[i]);
                    assert(before[i].valid);
                    match found {
                        Some(k) => {
                            assert(caches(before[k as int], block_num));
                        },
                        None => {
                            assert(!caches(before[i], block_num));
                        },
                    }
                    assert(before[i].block_num != block_num);
                    assert(before[i].data@ == pre.spec_block(before[i].block_num));
                    assert(device.block(before[i].block_num) == pre.block(before[i].block_num));
                } else {
                    assert(data@ == device.block(block_num));
                }
            }
            assert forall|i: int, j: int|
                0 <= i < j < CACHE_ENTRIES && (#[trigger] self.cache@[i]).valid && (#[trigger] self.cache@[j]).valid
                implies self.cache@[i].block_num != self.cache@[j].block_num by {
                if i != index && j != index {
                    assert(before[i] == self.cache@[i] && before[j] == self.cache@[j]);
                } else if i == index {
                    assert(before[j] == self.cache@[j]);
                    match found {
                        Some(k) => {
                            assert(caches(before[k as int], block_num));
                        },
                        None => {
                            assert(!caches(before[j], block_num));
                        },
                    }
                } else {
                    assert(before[i] == self.cache@[i]);
                    match found {
                        Some(k) => {
                            assert(caches(before[k as int], block_num));
                        },
                        None => {
                            assert(!caches(before[i], block_num));
                        },
                    }
                }
            }
            assert forall|x: u64| #[trigger] self.disk_block(x) == if x == block_num {
                buffer@.take(BLOCK_SIZE as int)
            } else {
                old(self).disk_block(x)
            } by {
                assert(device.block(x) == self.device->0.spec_block(x));
            }
        }
        Ok(())
    }

    /// Geometry of the device, or an empty geometry without one.
    pub fn geometry(&self) -> (r: StorageGeometry)
        requires
            self.has_device() ==> self.disk_blocks() * BLOCK_SIZE <= u64::MAX,
        ensures
            r.block_size == BLOCK_SIZE,
            r.total_blocks == self.disk_blocks(),
            r.total_bytes == self.disk_blocks() * BLOCK_SIZE,
            r.base_addr == (match self.device() {
                Some(d) => d.spec_base_addr(),
                None => 0,
            }),
    {
        match &self.device {
            Some(device) => device.geometry(),
            None => StorageGeometry { block_size: BLOCK_SIZE, total_blocks: 0, total_bytes: 0, base_addr: 0 },
        }
    }

    /// The attached device, when there is one.
    pub fn attached_device(&self) -> (r: Option<&VirtualBlockDevice>)
        ensures
            match r {
                Some(d) => self.device() == Some(*d),
                None => self.device() is None,
            },
    {
        match &self.device {
            Some(device) => Some(device),
            None => None,
        }
    }

    fn find_cache(&self, block_num: u64) -> (r: Option<usize>)
        ensures
            match r {
                Some(i) => is_first_match(self.cache@, hits_block(block_num), i as int),
                None => forall|i: int| 0 <= i < CACHE_ENTRIES ==> !caches(#[trigger] self.cache@[i], block_num),
            },
            r == (match first_match(self.cache@, hits_block(block_num)) {
                Some(i) => Some(i as usize),
                None => None::<usize>,
            }),
    {
        let ghost p = hits_block(block_num);
        let mut i: usize = 0;
        assert(forall|e: CacheEntry| #[trigger] p(e) == caches(e, block_num));
        while i < CACHE_ENTRIES
            invariant
                i <= CACHE_ENTRIES,
                p == hits_block(block_num),
                forall|e: CacheEntry| #[trigger] p(e) == caches(e, block_num),
                forall|j: int| 0 <= j < i ==> !caches(#[trigger] self.cache@[j], block_num),
            decreases CACHE_ENTRIES - i,
        {
            if self.cache[i].valid && self.cache[i].block_num == block_num {
                proof {
                    assert(is_first_match(self.cache@, p, i as int));
                    lemma_first_match_is(self.cache@, p, i as int);
                }
                return Some(i);
            }
            i += 1;
        }
        proof {
            assert forall|j: int| 0 <= j < self.cache@.len() implies !p(#[trigger] self.cache@[j]) by {}
            lemma_first_match_none(self.cache@, p);
        }
        None
    }

    fn evict_index(&self) -> (r: usize)
        ensures
            r < CACHE_ENTRIES,
            r == victim(self.cache@),
    {
        let ghost p = |e: CacheEntry| !e.valid;
        let mut i: usize = 0;
        assert(forall|e: CacheEntry| #[trigger] p(e) == !e.valid);
        while i < CACHE_ENTRIES
            invariant
                i <= CACHE_ENTRIES,
                forall|e: CacheEntry| #[trigger] p(e) == !e.valid,
                forall|j: int| 0 <= j < i ==> !p(#[trigger] self.cache@[j]),
            decreases CACHE_ENTRIES - i,
        {
            if !self.cache[i].valid {
                proof {
                    assert(is_first_match(self.cache@, p, i as int));
                    assert(!self.cache@[i as int].valid);
                    assert(is_victim(self.cache@, i as int));
                    lemma_victim_unique(self.cache@, i as int);
                }
                return i;
            }
            i += 1;
        }
        let mut best: usize = 0;
        let mut k: usize = 1;
        while k < CACHE_ENTRIES
            invariant
                1 <= k <= CACHE_ENTRIES,
                best < k,
                forall|j: int| 0 <= j < k ==> self.cache@[best as int].last_used <= #[trigger] self.cache@[j].last_used,
                forall|j: int| 0 <= j < best ==> #[trigger] self.cache@[j].last_used > self.cache@[best as int].last_used,
            decreases CACHE_ENTRIES - k,
        {
            if self.cache[k].last_used < self.cache[best].last_used {
                best = k;
            }
            k += 1;
        }
        proof {
            assert(forall|m: int| 0 <= m < self.cache@.len() ==> (#[trigger] self.cache@[m]).valid);
            assert(is_victim(self.cache@, best as int));
            lemma_victim_unique(self.cache@, best as int);
        }
        best
    }
}

/// Access statistics of the storage stack.
pub struct StorageStats {
    pub total_blocks: u64,
    pub total_bytes: u64,
    pub cache_entries: usize,
    pub cache_hits: u64,
    pub cache_misses: u64,
    pub reads: u64,
    pub writes: u64,
}

/// Attach the default 64 MiB virtual disk.
pub fn init(storage: &mut StorageCache)
    ensures
        final(storage).wf(),
        final(storage).has_device(),
        final(storage).disk_blocks() == DEFAULT_TOTAL_BLOCKS,
        final(storage).device()->0.spec_base_addr() == DEFAULT_BASE_ADDR,
        forall|b: u64| #[trigger] final(storage).disk_block(b) == zero_block(),
        final(storage).counters() == (0u64, 0u64, 0u64, 0u64, 0u64),
        forall|i: int| 0 <= i < CACHE_ENTRIES ==> !(#[trigger] final(storage).entries()[i]).valid,
{
    let device = VirtualBlockDevice::new(DEFAULT_TOTAL_BLOCKS, DEFAULT_BASE_ADDR);
    storage.init_device(device);
}

/// Read block `block_num` through the cache.
pub fn read_block(storage: &mut StorageCache, block_num: u64, buffer: &mut [u8]) -> (r: Result<(), StorageError>)
    requires
        old(storage).wf(),
        old(storage).counters().0 < u64::MAX,
        old(storage).counters().1 < u64::MAX,
        old(storage).counters().2 < u64::MAX,
        old(storage).counters().3 < u64::MAX,
    ensures
        final(storage).wf(),
        final(storage).device() == old(storage).device(),
        final(buffer)@.len() == old(buffer)@.len(),
        r is Ok ==> final(buffer)@.take(BLOCK_SIZE as int) == old(storage).disk_block(block_num),
        old(buffer)@.len() < BLOCK_SIZE ==> r == Err::<(), StorageError>(StorageError::BufferTooSmall)
            && *final(storage) == *old(storage) && final(buffer)@ == old(buffer)@,
        old(buffer)@.len() >= BLOCK_SIZE ==> read_outcome(
            *old(storage),
            *final(storage),
            block_num,
            old(buffer)@,
            final(buffer)@,
            r,
        ),
{
    storage.read(block_num, buffer)
}

/// Write block `block_num` through the cache.
pub fn write_block(storage: &mut StorageCache, block_num: u64, buffer: &[u8]) -> (r: Result<(), StorageError>)
    requires
        old(storage).wf(),
        old(storage).counters().0 < u64::MAX,
        old(storage).counters().4 < u64::MAX,
    ensures
        final(storage).wf(),
        buffer@.len() < BLOCK_SIZE ==> r == Err::<(), StorageError>(StorageError::BufferTooSmall)
            && *final(storage) == *old(storage),
        buffer@.len() >= BLOCK_SIZE ==> write_outcome(*old(storage), *final(storage), block_num, buffer@, r),
{
    storage.write(block_num, buffer)
}

/// Geometry of the attached device.
pub fn get_geometry(storage: &StorageCache) -> (r: StorageGeometry)
    requires
        storage.has_device() ==> storage.disk_blocks() * BLOCK_SIZE <= u64::MAX,
    ensures
        r.block_size == BLOCK_SIZE,
        r.total_blocks == storage.disk_blocks(),
        r.total_bytes == storage.disk_blocks() * BLOCK_SIZE,
        r.base_addr == (match storage.device() {
            Some(d) => d.spec_base_addr(),
            None => 0,
        }),
{
    storage.geometry()
}

/// Geometry and access counters of the storage stack.
pub fn get_stats(storage: &StorageCache) -> (r: StorageStats)
    requires
        storage.has_device() ==> storage.disk_blocks() * BLOCK_SIZE <= u64::MAX,
    ensures
        r.total_blocks == storage.disk_blocks(),
        r.total_bytes == storage.disk_blocks() * BLOCK_SIZE,
        r.cache_entries == CACHE_ENTRIES,
        r.cache_hits == storage.counters().1,
        r.cache_misses == storage.counters().2,
        r.reads == storage.counters().3,
        r.writes == storage.counters().4,
{
    let geometry = storage.geometry();
    StorageStats {
        total_blocks: geometry.total_blocks,
        total_bytes: geometry.total_bytes,
        cache_entries: CACHE_ENTRIES,
        cache_hits: storage.cache_hits,
        cache_misses: storage.cache_misses,
        reads: storage.reads,
        writes: storage.writes,
    }
}

/// A successful read of a block returns what the last successful write of
/// that block stored.
pub proof fn law_read_after_write(
    s0: StorageCache,
    s1: StorageCache,
    s2: StorageCache,
    b: u64,
    data: Seq<u8>,
    ob: Seq<u8>,
    nb: Seq<u8>,
    r: Result<(), StorageError>,
)
    requires
        s0.wf(),
        s1.wf(),
        data.len() >= BLOCK_SIZE,
        ob.len() >= BLOCK_SIZE,
        write_outcome(s0, s1, b, data, Ok(())),
        read_outcome(s1, s2, b, ob, nb, r),
        r is Ok,
    ensures
        nb.take(BLOCK_SIZE as int) == data.take(BLOCK_SIZE as int),
{
    assert(s0.has_device());
    assert(b < s0.disk_blocks());
    assert(s1.disk_block(b) == data.take(BLOCK_SIZE as int));
    match first_match(s1.entries(), hits_block(b)) {
        Some(i) => {
            assert(is_first_match(s1.entries(), hits_block(b), i));
            assert(s1.entries()[i].valid);
            assert(s1.entries()[i].block_num == b);
            assert(s1.entries()[i].data@ == s1.disk_block(b));
            assert(nb.take(BLOCK_SIZE as int) =~= s1.entries()[i].data@);
        },
        None => {
            assert(nb.take(BLOCK_SIZE as int) =~= s1.disk_block(b));
        },
    }
}

/// Every read is a cache hit or a cache miss: hits plus misses equal reads.
pub proof fn law_hits_plus_misses(c: StorageCache)
    requires
        c.wf(),
    ensures
        c.counters().1 + c.counters().2 == c.counters().3,
{
}

/// The cache is coherent: no block is cached twice, and every cached block
/// is a block of the device and holds what the device holds.
pub proof fn law_cache_coherent(c: StorageCache)
    requires
        c.wf(),
    ensures
        c.entries().len() == CACHE_ENTRIES,
        forall|i: int, j: int|
            0 <= i < j < CACHE_ENTRIES && (#[trigger] c.entries()[i]).valid && (#[trigger] c.entries()[j]).valid
                ==> c.entries()[i].block_num != c.entries()[j].block_num,
        forall|i: int|
            0 <= i < CACHE_ENTRIES && (#[trigger] c.entries()[i]).valid ==> {
                &&& c.has_device()
                &&& c.entries()[i].block_num < c.disk_blocks()
                &&& c.entries()[i].data@ == c.disk_block(c.entries()[i].block_num)
            },
{
}

/// A successful read gives the device's current content of the block, and
/// no read changes the device.
pub proof fn law_read_gives_disk(
    s1: StorageCache,
    s2: StorageCache,
    b: u64,
    ob: Seq<u8>,
    nb: Seq<u8>,
    r: Result<(), StorageError>,
)
    requires
        s1.wf(),
        ob.len() >= BLOCK_SIZE,
        read_outcome(s1, s2, b, ob, nb, r),
    ensures
        r is Ok ==> nb.take(BLOCK_SIZE as int) == s1.disk_block(b),
{
    if r is Ok {
        match first_match(s1.entries(), hits_block(b)) {
            Some(i) => {
                assert(is_first_match(s1.entries(), hits_block(b), i));
                assert(s1.entries()[i].data@ == s1.disk_block(b));
                assert(nb.take(BLOCK_SIZE as int) =~= s1.entries()[i].data@);
            },
            None => {
                assert(nb.take(BLOCK_SIZE as int) =~= s1.disk_block(b));
            },
        }
    }
}

/// A write changes the device only at the block it writes, and only when it
/// succeeds; there the block then holds the written bytes.
pub proof fn law_write_changes_one_block(
    s0: StorageCache,
    s1: StorageCache,
    b: u64,
    data: Seq<u8>,
    r: Result<(), StorageError>,
    x: u64,
)
    requires
        write_outcome(s0, s1, b, data, r),
    ensures
        r is Err ==> s1.device() == s0.device(),
        r is Ok ==> s1.disk_block(x) == if x == b {
            data.take(BLOCK_SIZE as int)
        } else {
            s0.disk_block(x)
        },
        x != b ==> s1.disk_block(x) == s0.disk_block(x),
{
}

/// Along `steps`, each state holds the same content of block `b` as the
/// one before it (as every read, failed write and write to another block
/// leaves it).
pub open spec fn keeps_block(steps: Seq<StorageCache>, b: u64) -> bool {
    forall|i: int| 0 <= i < steps.len() - 1 ==> #[trigger] steps[i + 1].disk_block(b) == steps[i].disk_block(b)
}

proof fn lemma_kept_to_end(steps: Seq<StorageCache>, b: u64, k: int)
    requires
        keeps_block(steps, b),
        0 <= k < steps.len(),
    ensures
        steps[k].disk_block(b) == steps[0].disk_block(b),
    decreases k,
{
    if k > 0 {
        lemma_kept_to_end(steps, b, k - 1);
        assert(steps[(k - 1) + 1].disk_block(b) == steps[k - 1].disk_block(b));
    }
}

/// Read after write across other storage calls: once block `b` is written,
/// a successful read of it after any calls that keep the block gives the
/// written bytes.
pub proof fn law_read_after_write_later(
    s0: StorageCache,
    steps: Seq<StorageCache>,
    s2: StorageCache,
    b: u64,
    data: Seq<u8>,
    ob: Seq<u8>,
    nb: Seq<u8>,
    r: Result<(), StorageError>,
)
    requires
        steps.len() > 0,
        steps.last().wf(),
        data.len() >= BLOCK_SIZE,
        ob.len() >= BLOCK_SIZE,
        write_outcome(s0, steps[0], b, data, Ok(())),
        keeps_block(steps, b),
        read_outcome(steps.last(), s2, b, ob, nb, r),
        r is Ok,
    ensures
        nb.take(BLOCK_SIZE as int) == data.take(BLOCK_SIZE as int),
{
    lemma_kept_to_end(steps, b, steps.len() - 1);
    law_read_gives_disk(steps.last(), s2, b, ob, nb, r);
}

/// Copy `data` into the first `BLOCK_SIZE` bytes of `buffer`.
fn copy_into(buffer: &mut [u8], data: &[u8; BLOCK_SIZE])
    requires
        old(buffer)@.len() >= BLOCK_SIZE,
    ensures
        final(buffer)@ == data@ + old(buffer)@.skip(BLOCK_SIZE as int),
{
    let ghost before = buffer@;
    let mut i: usize = 0;
    while i < BLOCK_SIZE
        invariant
            i <= BLOCK_SIZE,
            buffer@.len() == before.len(),
            before.len() >= BLOCK_SIZE,
            forall|j: int| 0 <= j < i ==> buffer@[j] == data@[j],
            forall|j: int| i <= j < buffer@.len() ==> buffer@[j] == before[j],
        decreases BLOCK_SIZE - i,
    {
        buffer[i] = data[i];
        i += 1;
    }
    assert(buffer@ =~= data@ + before.skip(BLOCK_SIZE as int));
}

/// The first `BLOCK_SIZE` bytes of `buffer`.
fn copy_block(buffer: &[u8]) -> (r: [u8; BLOCK_SIZE])
    requires
        buffer@.len() >= BLOCK_SIZE,
    ensures
        r@ == buffer@.take(BLOCK_SIZE as int),
{
    let mut data = [0u8; BLOCK_SIZE];
    let mut i: usize = 0;
    while i < BLOCK_SIZE
        invariant
            i <= BLOCK_SIZE,
            buffer@.len() >= BLOCK_SIZE,
            forall|j: int| 0 <= j < i ==> data@[j] == buffer@[j],
        decreases BLOCK_SIZE - i,
    {
        data[i] = buffer[i];
        i += 1;
    }
    assert(data@ =~= buffer@.take(BLOCK_SIZE as int));
    data
}

} // verus!
