//! A minimal ext2 volume on a memory block device: read, bounded overwrite,
//! create and unlink in the root directory, files of up to four blocks.
//!
//! The volume has 128 blocks of 1024 bytes (two sectors each): superblock in
//! block 1, group descriptor in 2, block bitmap in 3, inode bitmap in 4 and the
//! inode table (128-byte inodes) from block 5. Contracts speak of the volume as
//! its sequence of blocks, each a sequence of bytes.
use crate::block::{self, BlockDeviceId, BlockError, BlockManager};
use crate::device::DeviceRegistry;
use crate::counter::{bump, bumped};
use crate::bytes::{bytes_eq, bytes_starts_with};
use crate::exec_image::{le16, le32};
use vstd::prelude::*;
use vstd::string::StringSliceAdditionalSpecFns;

verus! {

pub const BLOCK_SIZE: usize = 1024;
pub const SECTORS_PER_BLOCK: usize = 2;
pub const TOTAL_BLOCKS: usize = 128;
pub const SUPERBLOCK_BLOCK: usize = 1;
pub const BG_DESC_BLOCK: usize = 2;
pub const BLOCK_BITMAP_BLOCK: usize = 3;
pub const INODE_BITMAP_BLOCK: usize = 4;
pub const INODE_TABLE_BLOCK: usize = 5;
pub const ROOT_INO: u32 = 2;
pub const FILE_INO: u32 = 12;
pub const ELF_INO: u32 = 13;
pub const ROOT_DIR_BLOCK: u32 = 10;
pub const FILE_DATA_BLOCK: u32 = 11;
pub const ELF_DATA_BLOCK0: u32 = 12;
pub const ELF_DATA_BLOCKS: usize = 4;
pub const MAX_FILE_BLOCKS: usize = 4;

/// Mode bits of a directory inode.
pub const MODE_DIR: u16 = 0x4000;
/// Mode bits of a regular-file inode.
pub const MODE_FILE: u16 = 0x8000;

// ---------------------------------------------------------------------------
// The volume as blocks of bytes.

/// The ext2 device is selected and usable: active, writable, 256 sectors.
pub open spec fn volume_ready(mgr: BlockManager) -> bool {
    &&& mgr.wf()
    &&& mgr.active_index() is Some
    &&& mgr.active_media().len() == TOTAL_BLOCKS * SECTORS_PER_BLOCK
    &&& !mgr.devices@[mgr.active_index()->Some_0].info.read_only
}

/// The bytes of block `b` of the sector sequence `m`.
pub open spec fn block_of(m: Seq<[u8; 512]>, b: int) -> Seq<u8> {
    m[2 * b]@ + m[2 * b + 1]@
}

/// The volume on the active device: its 128 blocks.
pub open spec fn volume(mgr: BlockManager) -> Seq<Seq<u8>> {
    Seq::new(TOTAL_BLOCKS as nat, |b: int| block_of(mgr.active_media(), b))
}

/// Everything of the block manager but the active device's sectors is as before.
pub open spec fn same_but_active_media(a: BlockManager, b: BlockManager) -> bool {
    &&& a.active == b.active
    &&& a.primary == b.primary
    &&& a.next_id == b.next_id
    &&& a.devices@.len() == b.devices@.len()
    &&& a.active_index() == b.active_index()
    &&& forall|j: int|
        0 <= j < a.devices@.len() && j != a.active_index()->Some_0 ==> #[trigger] a.devices@[j] == b.devices@[j]
}

/// Every block of `v` holds 1024 bytes.
pub open spec fn blocks_sized(v: Seq<Seq<u8>>) -> bool {
    forall|b: int| 0 <= b < v.len() ==> (#[trigger] v[b]).len() == BLOCK_SIZE
}

proof fn lemma_volume_sized(mgr: BlockManager)
    requires
        volume_ready(mgr),
    ensures
        volume(mgr).len() == TOTAL_BLOCKS,
        blocks_sized(volume(mgr)),
{
}

/// Reads block `b`; `Err` when it lies past the end of the volume.
fn read_block(mgr: &BlockManager, b: u64) -> (r: Result<Vec<u8>, ()>)
    requires
        volume_ready(*mgr),
    ensures
        r is Ok <==> b < TOTAL_BLOCKS,
        r matches Ok(d) ==> d@ == volume(*mgr)[b as int],
{
    if b >= TOTAL_BLOCKS as u64 {
        return Err(());
    }
    let s = (b as usize) * SECTORS_PER_BLOCK;
    let mut lo = [0u8; 512];
    let mut hi = [0u8; 512];
    let r1 = block::read_active_sector(mgr, s, &mut lo);
    let r2 = block::read_active_sector(mgr, s + 1, &mut hi);
    match (r1, r2) {
        (Ok(()), Ok(())) => {},
        _ => {
            return Err(());
        },
    }
    let mut out: Vec<u8> = Vec::new();
    let mut i: usize = 0;
    while i < 512
        invariant
            i <= 512,
            out@ == lo@.subrange(0, i as int),
        decreases 512 - i,
    {
        out.push(lo[i]);
        i += 1;
        assert(out@ =~= lo@.subrange(0, i as int));
    }
    let mut j: usize = 0;
    while j < 512
        invariant
            j <= 512,
            out@ == lo@ + hi@.subrange(0, j as int),
        decreases 512 - j,
    {
        out.push(hi[j]);
        j += 1;
        assert(out@ =~= lo@ + hi@.subrange(0, j as int));
    }
    assert(out@ =~= block_of(mgr.active_media(), b as int));
    Ok(out)
}

/// Writes the 1024 bytes `data` to block `b`; `Err` when `b` lies past the end.
fn write_block(mgr: &mut BlockManager, b: u64, data: &[u8]) -> (r: Result<(), BlockError>)
    requires
        volume_ready(*old(mgr)),
        data@.len() == BLOCK_SIZE,
    ensures
        volume_ready(*final(mgr)),
        same_but_active_media(*old(mgr), *final(mgr)),
        r is Ok <==> b < TOTAL_BLOCKS,
        r is Ok ==> volume(*final(mgr)) == volume(*old(mgr)).update(b as int, data@),
        r is Err ==> *final(mgr) == *old(mgr),
{
    if b >= TOTAL_BLOCKS as u64 {
        return Err(BlockError::OutOfRange);
    }
    let ghost before = *mgr;
    let s = (b as usize) * SECTORS_PER_BLOCK;
    let mut lo = [0u8; 512];
    let mut hi = [0u8; 512];
    let mut i: usize = 0;
    while i < 512
        invariant
            i <= 512,
            data@.len() == BLOCK_SIZE,
            forall|k: int| 0 <= k < i ==> lo@[k] == data@[k] && hi@[k] == data@[512 + k],
        decreases 512 - i,
    {
        lo[i] = data[i];
        hi[i] = data[512 + i];
        i += 1;
    }
    proof {
        block::lemma_index_of(&before, before.active->Some_0);
    }
    let r1 = block::write_active_sector(mgr, s, &lo);
    assert(r1 is Ok);
    let ghost mid = *mgr;
    proof {
        block::lemma_index_of(&mid, mid.active->Some_0);
    }
    assert(mid.active_index() == before.active_index());
    assert(mid.devices@[mid.active_index()->Some_0].info == before.devices@[before.active_index()->Some_0].info);
    assert(volume_ready(mid));
    let r2 = block::write_active_sector(mgr, s + 1, &hi);
    assert(r2 is Ok);
    proof {
        block::lemma_index_of(&*mgr, mgr.active->Some_0);
    }
    assert(mgr.active_index() == before.active_index());
    assert(mgr.devices@[mgr.active_index()->Some_0].info == before.devices@[before.active_index()->Some_0].info);
    proof {
        assert(lo@ + hi@ =~= data@);
        assert forall|j: int| 0 <= j < before.devices@.len() && j != before.active_index()->Some_0
            implies #[trigger] before.devices@[j] == mgr.devices@[j] by {}
        assert(volume(*mgr) =~= volume(before).update(b as int, data@)) by {
            assert forall|c: int| 0 <= c < TOTAL_BLOCKS implies #[trigger] volume(*mgr)[c] == volume(before).update(b as int, data@)[c] by {
                if c != b {
                    assert(mgr.active_media()[2 * c] == before.active_media()[2 * c]);
                    assert(mgr.active_media()[2 * c + 1] == before.active_media()[2 * c + 1]);
                }
            }
        }
    }
    Ok(())
}

// ---------------------------------------------------------------------------
// Little-endian fields in byte buffers.

fn get_u16(d: &[u8], off: usize) -> (r: u16)
    requires
        off + 2 <= d@.len(),
    ensures
        r == le16(d@, off as int),
{
    (d[off] as u16) + (d[off + 1] as u16) * 256
}

fn get_u32(d: &[u8], off: usize) -> (r: u32)
    requires
        off + 4 <= d@.len(),
    ensures
        r == le32(d@, off as int),
{
    (d[off] as u32) + (d[off + 1] as u32) * 256 + (d[off + 2] as u32) * 65536 + (d[off + 3] as u32)
        * 16777216
}

/// `d` with the little-endian 16-bit `v` stored at `off`.
pub open spec fn put16(d: Seq<u8>, off: int, v: u16) -> Seq<u8> {
    d.update(off, (v % 256) as u8).update(off + 1, (v / 256) as u8)
}

/// `d` with the little-endian 32-bit `v` stored at `off`.
pub open spec fn put32(d: Seq<u8>, off: int, v: u32) -> Seq<u8> {
    d.update(off, (v % 256) as u8).update(off + 1, ((v / 256) % 256) as u8).update(
        off + 2,
        ((v / 65536) % 256) as u8,
    ).update(off + 3, (v / 16777216) as u8)
}

fn write_u16(out: &mut Vec<u8>, offset: usize, value: u16)
    requires
        offset + 2 <= old(out)@.len(),
    ensures
        final(out)@ == put16(old(out)@, offset as int, value),
{
    let _n = out.len();
    out[offset] = (value % 256) as u8;
    out[offset + 1] = (value / 256) as u8;
}

fn write_u32(out: &mut Vec<u8>, offset: usize, value: u32)
    requires
        offset + 4 <= old(out)@.len(),
    ensures
        final(out)@ == put32(old(out)@, offset as int, value),
{
    let _n = out.len();
    out[offset] = (value % 256) as u8;
    out[offset + 1] = ((value / 256) % 256) as u8;
    out[offset + 2] = ((value / 65536) % 256) as u8;
    out[offset + 3] = (value / 16777216) as u8;
}

fn zeros(n: usize) -> (r: Vec<u8>)
    ensures
        r@ == Seq::new(n as nat, |i: int| 0u8),
{
    let mut v: Vec<u8> = Vec::new();
    let mut i: usize = 0;
    while i < n
        invariant
            i <= n,
            v@ == Seq::new(i as nat, |k: int| 0u8),
        decreases n - i,
    {
        v.push(0);
        i += 1;
        assert(v@ =~= Seq::new(i as nat, |k: int| 0u8));
    }
    v
}

// ---------------------------------------------------------------------------
// Inodes.

/// Block of the inode table that holds inode `ino` (inodes count from 1).
pub open spec fn inode_block(ino: u32) -> int {
    INODE_TABLE_BLOCK + ((ino - 1) * 128) / (BLOCK_SIZE as int)
}

/// Offset of inode `ino` inside its block.
pub open spec fn inode_offset(ino: u32) -> int {
    ((ino - 1) * 128) % (BLOCK_SIZE as int)
}

/// Inode `ino` lies on the volume.
pub open spec fn inode_on_volume(ino: u32) -> bool {
    ino != 0 && inode_block(ino) < TOTAL_BLOCKS
}

/// Mode field of inode `ino` of volume `v`.
pub open spec fn inode_mode(v: Seq<Seq<u8>>, ino: u32) -> int {
    le16(v[inode_block(ino)], inode_offset(ino))
}

/// Size field of inode `ino`.
pub open spec fn inode_size(v: Seq<Seq<u8>>, ino: u32) -> int {
    le32(v[inode_block(ino)], inode_offset(ino) + 4)
}

/// The twelve direct block pointers of inode `ino`.
pub open spec fn inode_blocks(v: Seq<Seq<u8>>, ino: u32) -> Seq<u32> {
    Seq::new(12, |k: int| le32(v[inode_block(ino)], inode_offset(ino) + 40 + 4 * k) as u32)
}

/// An inode's mode, size and direct block pointers.
pub struct Inode {
    pub mode: u16,
    pub size: u32,
    pub blocks: Vec<u32>,
}

/// `i` is inode `ino` of volume `v`.
pub open spec fn is_inode(i: Inode, v: Seq<Seq<u8>>, ino: u32) -> bool {
    &&& i.mode == inode_mode(v, ino)
    &&& i.size == inode_size(v, ino)
    &&& i.blocks@ == inode_blocks(v, ino)
}

proof fn lemma_inode_place(ino: u32)
    requires
        ino != 0,
    ensures
        0 <= inode_offset(ino) && inode_offset(ino) + 128 <= BLOCK_SIZE,
        inode_offset(ino) % 128 == 0,
        inode_block(ino) >= INODE_TABLE_BLOCK,
{
    assert(((ino - 1) * 128) % 1024 % 128 == 0) by (nonlinear_arith)
        requires ino >= 1;
    assert(((ino - 1) * 128) % 1024 <= 1024 - 128) by (nonlinear_arith)
        requires ino >= 1;
}

/// Where inode `ino` lies: its block and offset.
fn inode_place(ino: u32) -> (r: (u64, usize))
    requires
        ino != 0,
    ensures
        r.0 == inode_block(ino),
        r.1 == inode_offset(ino),
        r.1 + 128 <= BLOCK_SIZE,
{
    proof {
        lemma_inode_place(ino);
    }
    let index = (ino - 1) as u64;
    let block = INODE_TABLE_BLOCK as u64 + (index * 128) / (BLOCK_SIZE as u64);
    let offset = ((index * 128) % (BLOCK_SIZE as u64)) as usize;
    (block, offset)
}

/// Reads inode `ino`; `Err` for inode 0 or one past the inode table's end.
fn read_inode(mgr: &BlockManager, ino: u32) -> (r: Result<Inode, ()>)
    requires
        volume_ready(*mgr),
    ensures
        r is Ok <==> inode_on_volume(ino),
        r matches Ok(i) ==> is_inode(i, volume(*mgr), ino),
{
    if ino == 0 {
        return Err(());
    }
    let (block, offset) = inode_place(ino);
    let data = read_block(mgr, block)?;
    let mut blocks: Vec<u32> = Vec::new();
    let mut k: usize = 0;
    while k < 12
        invariant
            k <= 12,
            offset + 128 <= BLOCK_SIZE,
            data@.len() == BLOCK_SIZE,
            blocks@.len() == k,
            forall|j: int| 0 <= j < k ==> #[trigger] blocks@[j] == le32(data@, offset + 40 + 4 * j) as u32,
        decreases 12 - k,
    {
        blocks.push(get_u32(data.as_slice(), offset + 40 + k * 4));
        k += 1;
    }
    let i = Inode { mode: get_u16(data.as_slice(), offset), size: get_u32(data.as_slice(), offset + 4), blocks };
    assert(i.blocks@ =~= inode_blocks(volume(*mgr), ino));
    Ok(i)
}

// ---------------------------------------------------------------------------
// Directories and file data.

/// Offset of the directory entry for `name` in the entries of `d`, walked
/// from `off`: each entry is an inode number, a record length (at least 8), a
/// name length and the name; the walk ends at a record shorter than 8 bytes.
pub open spec fn dir_entry_off(d: Seq<u8>, name: Seq<u8>, off: int) -> Option<int>
    decreases d.len() - off,
{
    if off < 0 || off + 8 > d.len() {
        None
    } else {
        let rec_len = le16(d, off + 4);
        let start = off + 8;
        let end = start + d[off + 6];
        if rec_len < 8 {
            None
        } else if end <= d.len() && d.subrange(start, end) == name {
            Some(off)
        } else if off + rec_len > d.len() {
            None
        } else {
            dir_entry_off(d, name, off + rec_len)
        }
    }
}

/// The inode that directory bytes `d` give for `name`.
pub open spec fn dir_lookup(d: Seq<u8>, name: Seq<u8>, off: int) -> Option<u32> {
    match dir_entry_off(d, name, off) {
        Some(o) => Some(le32(d, o) as u32),
        None => None,
    }
}

proof fn lemma_dir_entry_off_bounds(d: Seq<u8>, name: Seq<u8>, off: int)
    ensures
        dir_entry_off(d, name, off) matches Some(o) ==> 0 <= o && o + 8 <= d.len(),
    decreases d.len() - off,
{
    if !(off < 0 || off + 8 > d.len()) {
        let rec_len = le16(d, off + 4);
        if rec_len >= 8 && off + rec_len <= d.len() {
            lemma_dir_entry_off_bounds(d, name, off + rec_len);
        }
    }
}

/// Every record of directory bytes `d` met walking from `off` holds its name
/// (up to the last whole record).
pub open spec fn dir_wf(d: Seq<u8>, off: int) -> bool
    decreases d.len() - off,
{
    if off < 0 || off + 8 > d.len() {
        true
    } else {
        let rl = le16(d, off + 4);
        if rl < 8 || off + rl > d.len() {
            true
        } else {
            off + 8 + d[off + 6] <= off + rl && dir_wf(d, off + rl)
        }
    }
}

proof fn lemma_dir_entry_off_after(d: Seq<u8>, name: Seq<u8>, off: int)
    ensures
        dir_entry_off(d, name, off) matches Some(o) ==> off <= o,
    decreases d.len() - off,
{
    if !(off < 0 || off + 8 > d.len()) {
        let rec_len = le16(d, off + 4);
        if rec_len >= 8 && off + rec_len <= d.len() {
            lemma_dir_entry_off_after(d, name, off + rec_len);
        }
    }
}

/// Two directory byte strings that agree from `p` on give the same lookup
/// from any offset at or past `p`.
proof fn lemma_dir_walk_tail(a: Seq<u8>, b: Seq<u8>, name: Seq<u8>, off: int, p: int)
    requires
        a.len() == b.len(),
        0 <= p <= off,
        forall|i: int| p <= i < a.len() ==> a[i] == b[i],
    ensures
        dir_entry_off(a, name, off) == dir_entry_off(b, name, off),
    decreases a.len() - off,
{
    if !(off < 0 || off + 8 > a.len()) {
        let rl = le16(a, off + 4);
        assert(le16(b, off + 4) == rl);
        assert(a[off + 6] == b[off + 6]);
        let end = off + 8 + a[off + 6];
        if end <= a.len() {
            assert(a.subrange(off + 8, end) =~= b.subrange(off + 8, end));
        }
        if rl >= 8 && off + rl <= a.len() {
            lemma_dir_walk_tail(a, b, name, off + rl, p);
        }
    }
}

/// Clearing the inode field of the entry found for `name` in a directory
/// whose records hold their names changes no lookup of `name` in any
/// prefix of the directory.
proof fn lemma_dir_clear_inode(t: Seq<u8>, name: Seq<u8>, sz: int, off: int, o: int)
    requires
        0 <= off,
        0 <= sz <= t.len(),
        dir_wf(t, off),
        dir_entry_off(t, name, off) == Some(o),
    ensures
        dir_entry_off(put32(t, o, 0).subrange(0, sz), name, off) == dir_entry_off(t.subrange(0, sz), name, off),
    decreases t.len() - off,
{
    lemma_dir_entry_off_bounds(t, name, off);
    lemma_dir_entry_off_after(t, name, off);
    let d = t.subrange(0, sz);
    let e = put32(t, o, 0).subrange(0, sz);
    assert(e.len() == d.len());
    assert forall|i: int| 0 <= i < sz && !(o <= i < o + 4) implies e[i] == d[i] by {}
    if off == o {
        assert(dir_entry_off(d, name, off) == dir_entry_off(e, name, off)) by {
            if off + 8 <= sz {
                let rl = le16(d, off + 4);
                assert(le16(e, off + 4) == rl);
                assert(d[off + 6] == e[off + 6]);
                let end = off + 8 + d[off + 6];
                if end <= sz {
                    assert(d.subrange(off + 8, end) =~= e.subrange(off + 8, end));
                }
                if rl >= 8 && off + rl <= sz {
                    lemma_dir_walk_tail(d, e, name, off + rl, o + 4);
                }
            }
        }
    } else {
        // An earlier record: it lies wholly before `o`.
        let rl = le16(t, off + 4);
        let nl = t[off + 6];
        let end = off + 8 + nl;
        assert(rl >= 8 && off + rl <= t.len());
        assert(!(end <= t.len() && t.subrange(off + 8, end) == name));
        lemma_dir_entry_off_after(t, name, off + rl);
        assert(off + rl <= o);
        assert(end <= off + rl);
        if off + 8 <= sz {
            assert(le16(d, off + 4) == rl && le16(e, off + 4) == rl);
            assert(d[off + 6] == nl && e[off + 6] == nl);
            if end <= sz {
                assert(d.subrange(off + 8, end) =~= e.subrange(off + 8, end));
                assert(d.subrange(off + 8, end) =~= t.subrange(off + 8, end));
            }
            if off + rl <= sz {
                lemma_dir_clear_inode(t, name, sz, off + rl, o);
            }
        }
    }
}

/// In a directory whose records hold their names, an entry that lies wholly
/// within the first `sz` bytes is found there too.
proof fn lemma_dir_prefix_found(t: Seq<u8>, name: Seq<u8>, sz: int, off: int, o: int)
    requires
        0 <= off,
        dir_wf(t, off),
        dir_entry_off(t, name, off) == Some(o),
        o + 8 + name.len() <= sz <= t.len(),
    ensures
        dir_entry_off(t.subrange(0, sz), name, off) == Some(o),
    decreases t.len() - off,
{
    lemma_dir_entry_off_after(t, name, off);
    let d = t.subrange(0, sz);
    let rl = le16(t, off + 4);
    let end = off + 8 + t[off + 6];
    assert(le16(d, off + 4) == rl && d[off + 6] == t[off + 6]);
    if off == o {
        if rl >= 8 && off + rl <= t.len() {
            lemma_dir_entry_off_after(t, name, off + rl);
        }
        assert(end <= t.len() && t.subrange(off + 8, end) == name);
        assert(d.subrange(off + 8, end) =~= t.subrange(off + 8, end));
    } else {
        assert(rl >= 8 && off + rl <= t.len());
        lemma_dir_entry_off_after(t, name, off + rl);
        assert(end <= off + rl && off + rl <= o);
        assert(d.subrange(off + 8, end) =~= t.subrange(off + 8, end));
        lemma_dir_prefix_found(t, name, sz, off + rl, o);
    }
}

/// Offset of the entry for `name` in directory bytes `data`.
fn find_dir_entry_off(data: &[u8], name: &[u8]) -> (r: Option<usize>)
    ensures
        r matches Some(o) ==> dir_entry_off(data@, name@, 0) == Some(o as int),
        r is None ==> dir_entry_off(data@, name@, 0) is None,
{
    let mut offset: usize = 0;
    while offset <= data.len() && data.len() - offset >= 8
        invariant
            dir_entry_off(data@, name@, 0) == dir_entry_off(data@, name@, offset as int),
        decreases data@.len() - offset,
    {
        let rec_len = get_u16(data, offset + 4) as usize;
        if rec_len < 8 {
            return None;
        }
        let name_len = data[offset + 6] as usize;
        let start = offset + 8;
        if data.len() - start >= name_len && range_eq(data, start, start + name_len, name) {
            return Some(offset);
        }
        if data.len() - offset < rec_len {
            return None;
        }
        offset = offset + rec_len;
    }
    None
}

/// The entry for `name` in directory bytes `data`.
fn find_dir_entry(data: &[u8], name: &[u8]) -> (r: Option<u32>)
    ensures
        r == dir_lookup(data@, name@, 0),
{
    proof {
        lemma_dir_entry_off_bounds(data@, name@, 0);
    }
    match find_dir_entry_off(data, name) {
        Some(o) => Some(get_u32(data, o)),
        None => None,
    }
}

/// Whether `[lo, hi)` of `s` holds exactly the bytes of `p`.
fn range_eq(s: &[u8], lo: usize, hi: usize, p: &[u8]) -> (r: bool)
    requires
        lo <= hi <= s@.len(),
    ensures
        r == (s@.subrange(lo as int, hi as int) == p@),
{
    if hi - lo != p.len() {
        assert(s@.subrange(lo as int, hi as int).len() != p@.len());
        return false;
    }
    let mut i: usize = 0;
    while i < p.len()
        invariant
            hi - lo == p@.len(),
            lo <= hi <= s@.len(),
            i <= p@.len(),
            forall|k: int| 0 <= k < i ==> s@[lo + k] == p@[k],
        decreases p@.len() - i,
    {
        if s[lo + i] != p[i] {
            assert(s@.subrange(lo as int, hi as int)[i as int] != p@[i as int]);
            return false;
        }
        i += 1;
    }
    assert(s@.subrange(lo as int, hi as int) =~= p@);
    true
}

/// The content of a file with block pointers `bl` (from pointer `k` on) of
/// which `rem` bytes remain: the blocks' bytes in order until the size is
/// reached or a zero pointer ends them, then zero bytes; `None` when a
/// pointer lies past the end of the volume.
pub open spec fn file_bytes(v: Seq<Seq<u8>>, bl: Seq<u32>, k: int, rem: int) -> Option<Seq<u8>>
    decreases bl.len() - k,
{
    if k < 0 || k >= bl.len() || rem <= 0 || bl[k] == 0 {
        Some(Seq::new(if rem > 0 { rem as nat } else { 0 }, |i: int| 0u8))
    } else if bl[k] >= TOTAL_BLOCKS {
        None
    } else {
        let take = if rem < BLOCK_SIZE { rem } else { BLOCK_SIZE as int };
        match file_bytes(v, bl, k + 1, rem - take) {
            Some(t) => Some(v[bl[k] as int].subrange(0, take) + t),
            None => None,
        }
    }
}

/// Reads the content of the file with inode `inode`.
fn read_file_data(mgr: &BlockManager, inode: &Inode) -> (r: Result<Vec<u8>, ()>)
    requires
        volume_ready(*mgr),
    ensures
        r is Ok <==> file_bytes(volume(*mgr), inode.blocks@, 0, inode.size as int) is Some,
        r matches Ok(d) ==> d@ == file_bytes(volume(*mgr), inode.blocks@, 0, inode.size as int)->Some_0,
{
    let ghost v = volume(*mgr);
    let ghost whole = file_bytes(v, inode.blocks@, 0, inode.size as int);
    let len = inode.size as usize;
    let mut out: Vec<u8> = Vec::new();
    let mut copied: usize = 0;
    let mut k: usize = 0;
    while k < inode.blocks.len() && copied < len && inode.blocks[k] != 0
        invariant
            v == volume(*mgr),
            volume_ready(*mgr),
            k <= inode.blocks@.len(),
            copied <= len,
            len == inode.size,
            out@.len() == copied,
            whole == file_bytes(v, inode.blocks@, 0, inode.size as int),
            whole == (match file_bytes(v, inode.blocks@, k as int, len - copied) {
                Some(t) => Some(out@ + t),
                None => None,
            }),
        decreases inode.blocks@.len() - k,
    {
        let data = match read_block(mgr, inode.blocks[k] as u64) {
            Ok(d) => d,
            Err(()) => {
                return Err(());
            },
        };
        let take = if len - copied < BLOCK_SIZE { len - copied } else { BLOCK_SIZE };
        let ghost before = out@;
        let mut j: usize = 0;
        while j < take
            invariant
                j <= take <= BLOCK_SIZE,
                data@.len() == BLOCK_SIZE,
                out@ == before + data@.subrange(0, j as int),
            decreases take - j,
        {
            out.push(data[j]);
            j += 1;
            assert(out@ =~= before + data@.subrange(0, j as int));
        }
        proof {
            lemma_volume_sized(*mgr);
            assert(before + data@.subrange(0, take as int) + file_bytes(v, inode.blocks@, k + 1, len - copied - take)->Some_0
                =~= before + (data@.subrange(0, take as int) + file_bytes(v, inode.blocks@, k + 1, len - copied - take)->Some_0));
        }
        copied = copied + take;
        k += 1;
    }
    let pad = zeros(len - copied);
    let ghost before = out@;
    let mut i: usize = 0;
    while i < pad.len()
        invariant
            i <= pad@.len(),
            out@ == before + pad@.subrange(0, i as int),
        decreases pad@.len() - i,
    {
        out.push(pad[i]);
        i += 1;
        assert(out@ =~= before + pad@.subrange(0, i as int));
    }
    assert(pad@.subrange(0, pad@.len() as int) =~= pad@);
    Ok(out)
}

/// `p` without its leading `/` characters.
pub open spec fn strip_slashes(p: Seq<u8>) -> Seq<u8>
    decreases p.len(),
{
    if p.len() > 0 && p[0] == 47 {
        strip_slashes(p.subrange(1, p.len() as int))
    } else {
        p
    }
}

fn strip_slashes_exec(p: &[u8]) -> (r: usize)
    ensures
        r <= p@.len(),
        p@.subrange(r as int, p@.len() as int) == strip_slashes(p@),
{
    let mut i: usize = 0;
    assert(p@.subrange(0, p@.len() as int) =~= p@);
    while i < p.len() && p[i] == 47
        invariant
            i <= p@.len(),
            strip_slashes(p@) == strip_slashes(p@.subrange(i as int, p@.len() as int)),
        decreases p@.len() - i,
    {
        assert(p@.subrange(i as int, p@.len() as int).subrange(1, p@.len() - i) =~= p@.subrange(i + 1, p@.len() as int));
        i += 1;
    }
    assert(p@.subrange(0, p@.len() as int) =~= p@);
    i
}

/// The directory bytes of the root directory, when its inode says it is one.
pub open spec fn root_dir(v: Seq<Seq<u8>>) -> Option<Seq<u8>> {
    if (inode_mode(v, ROOT_INO) as u16) & 0xF000 != MODE_DIR {
        None
    } else {
        file_bytes(v, inode_blocks(v, ROOT_INO), 0, inode_size(v, ROOT_INO))
    }
}

/// The content of file `name` of the root directory of volume `v`, or `None`.
pub open spec fn volume_read(v: Seq<Seq<u8>>, name: Seq<u8>) -> Option<Seq<u8>> {
    if name.len() == 0 {
        None
    } else {
        match root_dir(v) {
            None => None,
            Some(dir) => match dir_lookup(dir, name, 0) {
                None => None,
                Some(ino) => if !inode_on_volume(ino) || (inode_mode(v, ino) as u16) & 0xF000 != MODE_FILE {
                    None
                } else {
                    file_bytes(v, inode_blocks(v, ino), 0, inode_size(v, ino))
                },
            },
        }
    }
}

fn read_file_inner(mgr: &BlockManager, name: &[u8]) -> (r: Result<Vec<u8>, ()>)
    requires
        volume_ready(*mgr),
    ensures
        r is Ok <==> volume_read(volume(*mgr), name@) is Some,
        r matches Ok(d) ==> d@ == volume_read(volume(*mgr), name@)->Some_0,
{
    if name.len() == 0 {
        return Err(());
    }
    let root = read_inode(mgr, ROOT_INO)?;
    if root.mode & 0xF000 != MODE_DIR {
        return Err(());
    }
    let dir = read_file_data(mgr, &root)?;
    let target = match find_dir_entry(dir.as_slice(), name) {
        Some(t) => t,
        None => {
            return Err(());
        },
    };
    let file = match read_inode(mgr, target) {
        Ok(f) => f,
        Err(()) => {
            return Err(());
        },
    };
    if file.mode & 0xF000 != MODE_FILE {
        return Err(());
    }
    read_file_data(mgr, &file)
}

// ---------------------------------------------------------------------------
// Allocation bitmaps.

/// The mask of bit `n % 8` in a bitmap byte.
pub open spec fn bit_mask(n: int) -> u8 {
    1u8 << ((n % 8) as u8)
}

/// Bit `n` of bitmap `bm` is set.
pub open spec fn bit_set(bm: Seq<u8>, n: int) -> bool {
    bm[n / 8] & bit_mask(n) != 0
}

/// The first clear bit of `bm` in `[lo, hi)`, or `hi`.
pub open spec fn first_clear(bm: Seq<u8>, lo: int, hi: int) -> int
    decreases hi - lo,
{
    if lo >= hi {
        hi
    } else if !bit_set(bm, lo) {
        lo
    } else {
        first_clear(bm, lo + 1, hi)
    }
}

/// `bm` with bit `n` set.
pub open spec fn with_bit(bm: Seq<u8>, n: int) -> Seq<u8> {
    bm.update(n / 8, bm[n / 8] | bit_mask(n))
}

/// `bm` with bit `n` clear.
pub open spec fn without_bit(bm: Seq<u8>, n: int) -> Seq<u8> {
    bm.update(n / 8, bm[n / 8] & !bit_mask(n))
}

proof fn lemma_first_clear_bounds(bm: Seq<u8>, lo: int, hi: int)
    requires
        lo <= hi,
    ensures
        lo <= first_clear(bm, lo, hi) <= hi,
    decreases hi - lo,
{
    if lo < hi && bit_set(bm, lo) {
        lemma_first_clear_bounds(bm, lo + 1, hi);
    }
}

/// Setting bit `a` of a byte changes bit `a` alone.
proof fn lemma_or_bit(x: u8, a: u8, b: u8)
    by (bit_vector)
    requires
        a < 8,
        b < 8,
    ensures
        ((x | (1u8 << a)) & (1u8 << b) != 0) == (a == b || (x & (1u8 << b)) != 0),
{
}

/// Setting bit `n` of a bitmap changes bit `n` alone.
proof fn lemma_with_bit(bm: Seq<u8>, n: int, m: int)
    requires
        0 <= n,
        0 <= m,
        n / 8 < bm.len(),
        m / 8 < bm.len(),
    ensures
        bit_set(with_bit(bm, n), m) == (m == n || bit_set(bm, m)),
{
    if m / 8 == n / 8 {
        lemma_or_bit(bm[n / 8], (n % 8) as u8, (m % 8) as u8);
        assert(m % 8 == n % 8 ==> m == n);
    }
}

/// Clearing bit `a` of a byte changes bit `a` alone.
proof fn lemma_and_not_bit(x: u8, a: u8, b: u8)
    by (bit_vector)
    requires
        a < 8,
        b < 8,
    ensures
        ((x & !(1u8 << a)) & (1u8 << b) != 0) == (a != b && (x & (1u8 << b)) != 0),
{
}

/// Clearing bit `n` of a bitmap changes bit `n` alone.
proof fn lemma_without_bit(bm: Seq<u8>, n: int, m: int)
    requires
        0 <= n,
        0 <= m,
        n / 8 < bm.len(),
        m / 8 < bm.len(),
    ensures
        bit_set(without_bit(bm, n), m) == (m != n && bit_set(bm, m)),
{
    if m / 8 == n / 8 {
        lemma_and_not_bit(bm[n / 8], (n % 8) as u8, (m % 8) as u8);
        assert(m % 8 == n % 8 ==> m == n);
    }
}

/// The first clear bit found is clear.
proof fn lemma_first_clear_is_clear(bm: Seq<u8>, lo: int, hi: int)
    requires
        lo <= hi,
        first_clear(bm, lo, hi) < hi,
    ensures
        !bit_set(bm, first_clear(bm, lo, hi)),
    decreases hi - lo,
{
    if lo < hi && bit_set(bm, lo) {
        lemma_first_clear_is_clear(bm, lo + 1, hi);
    }
}

/// How many bits of `bm` in `[lo, hi)` are clear.
pub open spec fn clear_bits(bm: Seq<u8>, lo: int, hi: int) -> nat
    decreases hi - lo,
{
    if lo >= hi {
        0
    } else {
        (if bit_set(bm, lo) { 0nat } else { 1nat }) + clear_bits(bm, lo + 1, hi)
    }
}

/// With a clear bit in the range, the search for one finds it inside.
proof fn lemma_clear_bits_found(bm: Seq<u8>, lo: int, hi: int)
    requires
        clear_bits(bm, lo, hi) > 0,
    ensures
        first_clear(bm, lo, hi) < hi,
    decreases hi - lo,
{
    if lo < hi && bit_set(bm, lo) {
        lemma_clear_bits_found(bm, lo + 1, hi);
    }
}

/// Setting a clear bit `n` takes one off the clear bits of a range holding it.
proof fn lemma_clear_bits_set(bm: Seq<u8>, n: int, lo: int, hi: int)
    requires
        0 <= n,
        0 <= lo,
        n / 8 < bm.len(),
        hi <= 8 * bm.len(),
        !bit_set(bm, n),
    ensures
        clear_bits(with_bit(bm, n), lo, hi) + (if lo <= n < hi { 1int } else { 0int }) == clear_bits(bm, lo, hi),
    decreases hi - lo,
{
    if lo < hi {
        lemma_with_bit(bm, n, lo);
        lemma_clear_bits_set(bm, n, lo + 1, hi);
    }
}

fn mask_of(n: usize) -> (r: u8)
    ensures
        r == bit_mask(n as int),
{
    1u8 << ((n % 8) as u8)
}

/// The first clear bit of `bm` in `[lo, hi)`, or `hi`.
fn first_clear_exec(bm: &[u8], lo: usize, hi: usize) -> (r: usize)
    requires
        lo <= hi,
        hi <= 8 * bm@.len(),
    ensures
        r == first_clear(bm@, lo as int, hi as int),
        lo <= r <= hi,
{
    proof {
        lemma_first_clear_bounds(bm@, lo as int, hi as int);
    }
    let mut n = lo;
    while n < hi
        invariant
            lo <= n <= hi,
            hi <= 8 * bm@.len(),
            first_clear(bm@, lo as int, hi as int) == first_clear(bm@, n as int, hi as int),
        decreases hi - n,
    {
        if bm[n / 8] & mask_of(n) == 0 {
            return n;
        }
        n += 1;
    }
    n
}

/// Claims the first free block (from block 1) in the block bitmap.
fn alloc_block(mgr: &mut BlockManager) -> (r: Result<u32, ()>)
    requires
        volume_ready(*old(mgr)),
    ensures
        volume_ready(*final(mgr)),
        same_but_active_media(*old(mgr), *final(mgr)),
        ({
            let bm = volume(*old(mgr))[BLOCK_BITMAP_BLOCK as int];
            let n = first_clear(bm, 1, TOTAL_BLOCKS as int);
            &&& r is Ok <==> n < TOTAL_BLOCKS
            &&& r matches Ok(b) ==> b == n && volume(*final(mgr)) == volume(*old(mgr)).update(
                BLOCK_BITMAP_BLOCK as int,
                with_bit(bm, n),
            )
            &&& r is Err ==> *final(mgr) == *old(mgr)
        }),
{
    let mut bitmap = read_block(mgr, BLOCK_BITMAP_BLOCK as u64)?;
    let n = first_clear_exec(bitmap.as_slice(), 1, TOTAL_BLOCKS);
    if n >= TOTAL_BLOCKS {
        return Err(());
    }
    let m = mask_of(n);
    bitmap[n / 8] = bitmap[n / 8] | m;
    match write_block(mgr, BLOCK_BITMAP_BLOCK as u64, bitmap.as_slice()) {
        Ok(()) => Ok(n as u32),
        Err(_) => Err(()),
    }
}

/// Releases block `block` in the block bitmap; `Err` for block 0 or one past the end.
fn free_block(mgr: &mut BlockManager, block: u32) -> (r: Result<(), ()>)
    requires
        volume_ready(*old(mgr)),
    ensures
        volume_ready(*final(mgr)),
        same_but_active_media(*old(mgr), *final(mgr)),
        r is Ok <==> 0 < block < TOTAL_BLOCKS,
        r is Ok ==> volume(*final(mgr)) == volume(*old(mgr)).update(
            BLOCK_BITMAP_BLOCK as int,
            without_bit(volume(*old(mgr))[BLOCK_BITMAP_BLOCK as int], block as int),
        ),
        r is Err ==> *final(mgr) == *old(mgr),
{
    if block == 0 || block as usize >= TOTAL_BLOCKS {
        return Err(());
    }
    let n = block as usize;
    let mut bitmap = read_block(mgr, BLOCK_BITMAP_BLOCK as u64)?;
    let m = mask_of(n);
    bitmap[n / 8] = bitmap[n / 8] & !m;
    match write_block(mgr, BLOCK_BITMAP_BLOCK as u64, bitmap.as_slice()) {
        Ok(()) => Ok(()),
        Err(_) => Err(()),
    }
}

/// Claims the first free inode (inode `k + 1` owns bit `k`) in the inode bitmap.
fn alloc_inode(mgr: &mut BlockManager) -> (r: Result<u32, ()>)
    requires
        volume_ready(*old(mgr)),
    ensures
        volume_ready(*final(mgr)),
        same_but_active_media(*old(mgr), *final(mgr)),
        ({
            let bm = volume(*old(mgr))[INODE_BITMAP_BLOCK as int];
            let k = first_clear(bm, 0, 128);
            &&& r is Ok <==> k < 128
            &&& r matches Ok(ino) ==> ino == k + 1 && volume(*final(mgr)) == volume(*old(mgr)).update(
                INODE_BITMAP_BLOCK as int,
                with_bit(bm, k),
            )
            &&& r is Err ==> *final(mgr) == *old(mgr)
        }),
{
    let mut bitmap = read_block(mgr, INODE_BITMAP_BLOCK as u64)?;
    let k = first_clear_exec(bitmap.as_slice(), 0, 128);
    if k >= 128 {
        return Err(());
    }
    let m = mask_of(k);
    bitmap[k / 8] = bitmap[k / 8] | m;
    match write_block(mgr, INODE_BITMAP_BLOCK as u64, bitmap.as_slice()) {
        Ok(()) => Ok((k + 1) as u32),
        Err(_) => Err(()),
    }
}

/// `d` with the bytes `bytes` stored from `off` on.
pub open spec fn splice(d: Seq<u8>, off: int, bytes: Seq<u8>) -> Seq<u8> {
    Seq::new(d.len(), |i: int| if off <= i < off + bytes.len() { bytes[i - off] } else { d[i] })
}

/// Stores the 128 bytes `bytes` as inode `ino`.
fn write_inode(mgr: &mut BlockManager, ino: u32, bytes: &[u8])
    requires
        volume_ready(*old(mgr)),
        inode_on_volume(ino),
        bytes@.len() == 128,
    ensures
        volume_ready(*final(mgr)),
        same_but_active_media(*old(mgr), *final(mgr)),
        volume(*final(mgr)) == volume(*old(mgr)).update(
            inode_block(ino),
            splice(volume(*old(mgr))[inode_block(ino)], inode_offset(ino), bytes@),
        ),
{
    let (block, offset) = inode_place(ino);
    let mut data = match read_block(mgr, block) {
        Ok(d) => d,
        Err(()) => {
            return ;
        },
    };
    let ghost orig = data@;
    let mut i: usize = 0;
    while i < 128
        invariant
            i <= 128,
            offset + 128 <= BLOCK_SIZE,
            bytes@.len() == 128,
            data@.len() == orig.len(),
            orig.len() == BLOCK_SIZE,
            forall|j: int| 0 <= j < orig.len() ==> #[trigger] data@[j] == (if offset <= j < offset + i { bytes@[j - offset] } else { orig[j] }),
        decreases 128 - i,
    {
        data[offset + i] = bytes[i];
        i += 1;
    }
    assert(data@ =~= splice(orig, offset as int, bytes@));
    let _ = write_block(mgr, block, data.as_slice());
}

/// Releases inode `ino` in the inode bitmap and clears its 128 bytes.
fn free_inode(mgr: &mut BlockManager, ino: u32) -> (r: Result<(), ()>)
    requires
        volume_ready(*old(mgr)),
        inode_on_volume(ino),
    ensures
        volume_ready(*final(mgr)),
        same_but_active_media(*old(mgr), *final(mgr)),
        r is Ok,
        ({
            let v0 = volume(*old(mgr));
            let v1 = v0.update(INODE_BITMAP_BLOCK as int, without_bit(v0[INODE_BITMAP_BLOCK as int], ino - 1));
            volume(*final(mgr)) == v1.update(
                inode_block(ino),
                splice(v1[inode_block(ino)], inode_offset(ino), Seq::new(128, |i: int| 0u8)),
            )
        }),
{
    let idx = (ino - 1) as usize;
    proof {
        assert((ino - 1) * 128 / 1024 < 123);
    }
    let mut bitmap = read_block(mgr, INODE_BITMAP_BLOCK as u64)?;
    let m = mask_of(idx);
    bitmap[idx / 8] = bitmap[idx / 8] & !m;
    match write_block(mgr, INODE_BITMAP_BLOCK as u64, bitmap.as_slice()) {
        Ok(()) => {},
        Err(_) => {
            return Err(());
        },
    }
    let cleared = zeros(128);
    write_inode(mgr, ino, cleared.as_slice());
    Ok(())
}

/// Sets the size field of inode `ino`.
fn patch_inode_size(mgr: &mut BlockManager, ino: u32, size: u32) -> (r: Result<(), ()>)
    requires
        volume_ready(*old(mgr)),
    ensures
        volume_ready(*final(mgr)),
        same_but_active_media(*old(mgr), *final(mgr)),
        r is Ok <==> inode_on_volume(ino),
        r is Ok ==> volume(*final(mgr)) == volume(*old(mgr)).update(
            inode_block(ino),
            put32(volume(*old(mgr))[inode_block(ino)], inode_offset(ino) + 4, size),
        ),
        r is Err ==> *final(mgr) == *old(mgr),
{
    if ino == 0 {
        return Err(());
    }
    let (block, offset) = inode_place(ino);
    let mut data = read_block(mgr, block)?;
    write_u32(&mut data, offset + 4, size);
    match write_block(mgr, block, data.as_slice()) {
        Ok(()) => Ok(()),
        Err(_) => Err(()),
    }
}

/// `d` with the 32-bit values `bl` stored one after another from `off`.
pub open spec fn put32s(d: Seq<u8>, off: int, bl: Seq<u32>) -> Seq<u8>
    decreases bl.len(),
{
    if bl.len() == 0 {
        d
    } else {
        put32(put32s(d, off, bl.drop_last()), off + 4 * (bl.len() - 1), bl.last())
    }
}

/// The bytes of block `blk` once a regular-file inode with size `size` and
/// block pointers `bl` is stored at `off`.
pub open spec fn regular_inode_image(blk: Seq<u8>, off: int, size: u32, bl: Seq<u32>) -> Seq<u8> {
    put32s(put32(put16(blk, off, MODE_FILE), off + 4, size), off + 40, bl)
}

/// Stores inode `ino` as a regular file of `size` bytes with block pointers `blocks`.
fn write_regular_inode(mgr: &mut BlockManager, ino: u32, size: u32, blocks: &[u32]) -> (r: Result<(), ()>)
    requires
        volume_ready(*old(mgr)),
        blocks@.len() == 12,
    ensures
        volume_ready(*final(mgr)),
        same_but_active_media(*old(mgr), *final(mgr)),
        r is Ok <==> inode_on_volume(ino),
        r is Ok ==> volume(*final(mgr)) == volume(*old(mgr)).update(
            inode_block(ino),
            regular_inode_image(volume(*old(mgr))[inode_block(ino)], inode_offset(ino), size, blocks@),
        ),
        r is Err ==> *final(mgr) == *old(mgr),
{
    if ino == 0 {
        return Err(());
    }
    let (block, offset) = inode_place(ino);
    let mut data = read_block(mgr, block)?;
    write_u16(&mut data, offset, MODE_FILE);
    write_u32(&mut data, offset + 4, size);
    let ghost base = data@;
    let mut k: usize = 0;
    while k < 12
        invariant
            k <= 12,
            blocks@.len() == 12,
            offset + 128 <= BLOCK_SIZE,
            data@.len() == BLOCK_SIZE,
            base.len() == BLOCK_SIZE,
            data@ == put32s(base, offset + 40, blocks@.subrange(0, k as int)),
        decreases 12 - k,
    {
        write_u32(&mut data, offset + 40 + k * 4, blocks[k]);
        proof {
            assert(blocks@.subrange(0, k + 1).drop_last() =~= blocks@.subrange(0, k as int));
        }
        k += 1;
    }
    assert(blocks@.subrange(0, 12) =~= blocks@);
    match write_block(mgr, block, data.as_slice()) {
        Ok(()) => Ok(()),
        Err(_) => Err(()),
    }
}

// ---------------------------------------------------------------------------
// Directory entries.

/// Where a new entry goes in directory block `d`, walking from `off` with the
/// insertion point `ins` so far: just past the last entry before an entry with
/// inode 0, a record shorter than 8 bytes, or the end of the block.
pub open spec fn insert_point(d: Seq<u8>, off: int, ins: int) -> int
    decreases d.len() - off,
{
    if off < 0 || off + 8 > d.len() {
        ins
    } else {
        let el = le16(d, off + 4);
        if el < 8 || le32(d, off) == 0 {
            ins
        } else if off + el > d.len() {
            off + el
        } else {
            insert_point(d, off + el, off + el)
        }
    }
}

/// Record length of a directory entry whose name is `n` bytes long.
pub open spec fn rec_len_for(n: int) -> int {
    ((8 + n + 3) / 4) * 4
}

/// Directory block `d` with an entry for inode `child` named `name` at `at`.
pub open spec fn with_entry(d: Seq<u8>, at: int, child: u32, name: Seq<u8>) -> Seq<u8> {
    splice(
        put16(put32(d, at, child), at + 4, rec_len_for(name.len() as int) as u16).update(
            at + 6,
            name.len() as u8,
        ).update(at + 7, 1u8),
        at + 8,
        name,
    )
}

proof fn lemma_insert_point_bounds(d: Seq<u8>, off: int, ins: int)
    requires
        0 <= ins,
        0 <= off,
    ensures
        0 <= insert_point(d, off, ins),
    decreases d.len() - off,
{
    if !(off < 0 || off + 8 > d.len()) {
        let el = le16(d, off + 4);
        if !(el < 8 || le32(d, off) == 0) && off + el <= d.len() {
            lemma_insert_point_bounds(d, off + el, off + el);
        }
    }
}

fn insert_point_exec(d: &[u8]) -> (r: usize)
    requires
        d@.len() == BLOCK_SIZE,
    ensures
        r == insert_point(d@, 0, 0),
{
    let mut offset: usize = 0;
    let mut insert_at: usize = 0;
    while offset <= d.len() && d.len() - offset >= 8
        invariant
            d@.len() == BLOCK_SIZE,
            offset <= BLOCK_SIZE,
            insert_point(d@, 0, 0) == insert_point(d@, offset as int, insert_at as int),
        decreases d@.len() - offset,
    {
        let inode = get_u32(d, offset);
        let entry_len = get_u16(d, offset + 4) as usize;
        if entry_len < 8 || inode == 0 {
            return insert_at;
        }
        if d.len() - offset < entry_len {
            return offset + entry_len;
        }
        insert_at = offset + entry_len;
        offset = insert_at;
    }
    insert_at
}

/// The volume once an entry for `child` named `name` is appended to the
/// directory with inode `parent`, or `None` when that is refused: the parent
/// is off the volume or has no first block (or one past the end), the name is
/// empty or longer than 255 bytes, or the entry does not fit in the block. The
/// parent's size becomes the end of the new entry.
pub open spec fn appended(v: Seq<Seq<u8>>, parent: u32, name: Seq<u8>, child: u32) -> Option<Seq<Seq<u8>>> {
    if !inode_on_volume(parent) {
        None
    } else {
        let pb = inode_blocks(v, parent)[0];
        if pb == 0 || name.len() == 0 || name.len() > 255 || pb >= TOTAL_BLOCKS {
            None
        } else {
            let at = insert_point(v[pb as int], 0, 0);
            let rl = rec_len_for(name.len() as int);
            if at + rl > BLOCK_SIZE {
                None
            } else {
                let v1 = v.update(pb as int, with_entry(v[pb as int], at, child, name));
                let ib = inode_block(parent);
                Some(v1.update(ib, put32(v1[ib], inode_offset(parent) + 4, (at + rl) as u32)))
            }
        }
    }
}

/// Appends an entry for `child_ino` named `name` to directory `parent_ino`.
fn append_dir_entry(mgr: &mut BlockManager, parent_ino: u32, name: &[u8], child_ino: u32) -> (r: Result<(), ()>)
    requires
        volume_ready(*old(mgr)),
    ensures
        volume_ready(*final(mgr)),
        same_but_active_media(*old(mgr), *final(mgr)),
        r is Ok <==> appended(volume(*old(mgr)), parent_ino, name@, child_ino) is Some,
        r is Ok ==> volume(*final(mgr)) == appended(volume(*old(mgr)), parent_ino, name@, child_ino)->Some_0,
        r is Err ==> *final(mgr) == *old(mgr),
{
    let parent = read_inode(mgr, parent_ino)?;
    if parent.blocks[0] == 0 {
        return Err(());
    }
    if name.len() == 0 || name.len() > 255 {
        return Err(());
    }
    let rec_len = ((8 + name.len() + 3) / 4) * 4;
    let mut dir = read_block(mgr, parent.blocks[0] as u64)?;
    proof {
        lemma_insert_point_bounds(dir@, 0, 0);
    }
    let insert_at = insert_point_exec(dir.as_slice());
    if insert_at > BLOCK_SIZE || BLOCK_SIZE - insert_at < rec_len {
        return Err(());
    }
    let ghost d0 = dir@;
    write_u32(&mut dir, insert_at, child_ino);
    write_u16(&mut dir, insert_at + 4, rec_len as u16);
    dir[insert_at + 6] = name.len() as u8;
    dir[insert_at + 7] = 1;
    let ghost d1 = dir@;
    let mut i: usize = 0;
    while i < name.len()
        invariant
            i <= name@.len(),
            insert_at + 8 + name@.len() <= BLOCK_SIZE,
            dir@.len() == d1.len(),
            d1.len() == BLOCK_SIZE,
            forall|j: int| 0 <= j < d1.len() ==> #[trigger] dir@[j] == (if insert_at + 8 <= j < insert_at + 8 + i { name@[j - insert_at - 8] } else { d1[j] }),
        decreases name@.len() - i,
    {
        dir[insert_at + 8 + i] = name[i];
        i += 1;
    }
    assert(dir@ =~= with_entry(d0, insert_at as int, child_ino, name@));
    match write_block(mgr, parent.blocks[0] as u64, dir.as_slice()) {
        Ok(()) => {},
        Err(_) => {
            return Err(());
        },
    }
    patch_inode_size(mgr, parent_ino, (insert_at + rec_len) as u32)
}

/// The volume once the root-directory entry named `name` is cleared, with
/// the inode it named; `None` when the root has no first block (or one past
/// the end), no entry carries the name, or that entry's inode is 0.
pub open spec fn removed(v: Seq<Seq<u8>>, name: Seq<u8>) -> Option<(Seq<Seq<u8>>, u32)> {
    let rb = inode_blocks(v, ROOT_INO)[0];
    if rb == 0 || rb >= TOTAL_BLOCKS {
        None
    } else {
        let d = v[rb as int];
        match dir_entry_off(d, name, 0) {
            None => None,
            Some(o) => if le32(d, o) == 0 {
                None
            } else {
                Some((v.update(rb as int, put32(d, o, 0)), le32(d, o) as u32))
            },
        }
    }
}

/// Clears the root-directory entry named `name`; returns the inode it named.
fn remove_dir_entry(mgr: &mut BlockManager, name: &[u8]) -> (r: Result<u32, ()>)
    requires
        volume_ready(*old(mgr)),
    ensures
        volume_ready(*final(mgr)),
        same_but_active_media(*old(mgr), *final(mgr)),
        r is Ok <==> removed(volume(*old(mgr)), name@) is Some,
        r matches Ok(ino) ==> ino == removed(volume(*old(mgr)), name@)->Some_0.1
            && volume(*final(mgr)) == removed(volume(*old(mgr)), name@)->Some_0.0,
        r is Err ==> *final(mgr) == *old(mgr),
{
    let root = read_inode(mgr, ROOT_INO)?;
    if root.blocks[0] == 0 {
        return Err(());
    }
    let mut dir = read_block(mgr, root.blocks[0] as u64)?;
    proof {
        lemma_dir_entry_off_bounds(dir@, name@, 0);
    }
    let offset = match find_dir_entry_off(dir.as_slice(), name) {
        Some(o) => o,
        None => {
            return Err(());
        },
    };
    let inode = get_u32(dir.as_slice(), offset);
    if inode == 0 {
        return Err(());
    }
    write_u32(&mut dir, offset, 0);
    match write_block(mgr, root.blocks[0] as u64, dir.as_slice()) {
        Ok(()) => Ok(inode),
        Err(_) => Err(()),
    }
}

// ---------------------------------------------------------------------------
// File content.

/// Blocks a file of `len` bytes occupies.
pub open spec fn blocks_needed(len: int) -> int {
    if len <= 0 {
        0
    } else {
        (len - 1) / (BLOCK_SIZE as int) + 1
    }
}

/// Index of the first zero pointer in `bl` from `k` on, or the length.
pub open spec fn lead_nonzero(bl: Seq<u32>, k: int) -> int
    decreases bl.len() - k,
{
    if k < 0 || k >= bl.len() || bl[k] == 0 {
        k
    } else {
        lead_nonzero(bl, k + 1)
    }
}

/// Block `i` of a file's content `data`: 1024 bytes, zero past the end of `data`.
pub open spec fn chunk(data: Seq<u8>, i: int) -> Seq<u8> {
    Seq::new(BLOCK_SIZE as nat, |k: int| if i * 1024 + k < data.len() { data[i * 1024 + k] } else { 0u8 })
}

/// The first `n` pointers of `ids` are distinct and none is the block bitmap
/// or the block that holds inode `ino`, so writing one never overwrites another.
pub open spec fn apart(ids: Seq<u32>, n: int, ino: u32) -> bool {
    &&& forall|i: int, j: int| 0 <= i < j < n ==> ids[i] != ids[j]
    &&& forall|i: int| 0 <= i < n ==> ids[i] != BLOCK_BITMAP_BLOCK && ids[i] != inode_block(ino)
}

proof fn lemma_lead_nonzero(bl: Seq<u32>, k: int)
    requires
        0 <= k <= bl.len(),
    ensures
        k <= lead_nonzero(bl, k) <= bl.len(),
        forall|j: int| k <= j < lead_nonzero(bl, k) ==> bl[j] != 0,
    decreases bl.len() - k,
{
    if k < bl.len() && bl[k] != 0 {
        lemma_lead_nonzero(bl, k + 1);
    }
}

proof fn lemma_le16_put16(d: Seq<u8>, o: int, v: u16)
    requires
        0 <= o,
        o + 2 <= d.len(),
    ensures
        le16(put16(d, o, v), o) == v,
{
    assert((v % 256) + (v / 256) * 256 == v) by (nonlinear_arith);
}

proof fn lemma_le32_put32(d: Seq<u8>, o: int, v: u32)
    requires
        0 <= o,
        o + 4 <= d.len(),
    ensures
        le32(put32(d, o, v), o) == v,
{
    assert((v % 256) as int + ((v / 256) % 256) as int * 256 + ((v / 65536) % 256) as int * 65536
        + (v / 16777216) as int * 16777216 == v as int) by (bit_vector);
}

/// Storing values from `off` on leaves bytes outside `[off, off + 4 * bl.len())`
/// alone and stores each value where it belongs.
proof fn lemma_put32s(d: Seq<u8>, off: int, bl: Seq<u32>)
    requires
        0 <= off,
        off + 4 * bl.len() <= d.len(),
    ensures
        put32s(d, off, bl).len() == d.len(),
        forall|i: int| 0 <= i < d.len() && !(off <= i < off + 4 * bl.len()) ==> #[trigger] put32s(d, off, bl)[i] == d[i],
        forall|k: int| 0 <= k < bl.len() ==> #[trigger] le32(put32s(d, off, bl), off + 4 * k) == bl[k],
    decreases bl.len(),
{
    if bl.len() > 0 {
        let last = bl.len() - 1;
        lemma_put32s(d, off, bl.drop_last());
        let prev = put32s(d, off, bl.drop_last());
        lemma_le32_put32(prev, off + 4 * last, bl.last());
        assert forall|k: int| 0 <= k < bl.len() implies #[trigger] le32(put32s(d, off, bl), off + 4 * k) == bl[k] by {
            if k < last {
                assert(le32(prev, off + 4 * k) == bl.drop_last()[k]);
            }
        }
    }
}

/// Inode `ino` of a volume whose inode block holds `regular_inode_image`
/// reads back as a regular file of `size` bytes with pointers `bl`.
proof fn lemma_regular_inode(v: Seq<Seq<u8>>, ino: u32, size: u32, bl: Seq<u32>)
    requires
        inode_on_volume(ino),
        v.len() == TOTAL_BLOCKS,
        v[inode_block(ino)].len() == BLOCK_SIZE,
        bl.len() == 12,
    ensures
        ({
            let w = v.update(inode_block(ino), regular_inode_image(v[inode_block(ino)], inode_offset(ino), size, bl));
            &&& inode_mode(w, ino) == MODE_FILE
            &&& inode_size(w, ino) == size
            &&& inode_blocks(w, ino) == bl
        }),
{
    lemma_inode_place(ino);
    let blk = v[inode_block(ino)];
    let off = inode_offset(ino);
    let a = put16(blk, off, MODE_FILE);
    let b = put32(a, off + 4, size);
    lemma_le16_put16(blk, off, MODE_FILE);
    lemma_le32_put32(a, off + 4, size);
    lemma_put32s(b, off + 40, bl);
    let img = put32s(b, off + 40, bl);
    assert(img[off] == b[off] && img[off + 1] == b[off + 1]);
    assert(img[off + 4] == b[off + 4] && img[off + 5] == b[off + 5] && img[off + 6] == b[off + 6] && img[off + 7] == b[off + 7]);
    let w = v.update(inode_block(ino), img);
    assert(inode_blocks(w, ino) =~= bl);
}

fn chunk_exec(data: &[u8], i: usize) -> (r: Vec<u8>)
    requires
        i < MAX_FILE_BLOCKS,
    ensures
        r@ == chunk(data@, i as int),
{
    let mut block = zeros(BLOCK_SIZE);
    let start = i * BLOCK_SIZE;
    let mut k: usize = 0;
    while k < BLOCK_SIZE
        invariant
            k <= BLOCK_SIZE,
            start == i * 1024,
            i < MAX_FILE_BLOCKS,
            block@.len() == BLOCK_SIZE,
            forall|j: int| 0 <= j < BLOCK_SIZE ==> #[trigger] block@[j] == (if j < k && start + j < data@.len() { data@[start + j] } else { 0u8 }),
        decreases BLOCK_SIZE - k,
    {
        if start + k < data.len() {
            block[k] = data[start + k];
        }
        k += 1;
    }
    assert(block@ =~= chunk(data@, i as int));
    block
}

/// Volume `fin` is volume `v0` once regular file `ino` holds `data`: the
/// inode records a regular file of `data`'s length; its first blocks are the
/// file's old leading blocks, then freshly claimed ones, all on the volume; the
/// pointers past the content are cleared where the file used to have blocks and
/// kept otherwise; and, when the content blocks are `apart`, each holds its
/// chunk of `data`.
pub open spec fn rewritten(v0: Seq<Seq<u8>>, fin: Seq<Seq<u8>>, ino: u32, data: Seq<u8>) -> bool {
    let old_bl = inode_blocks(v0, ino);
    let ids = inode_blocks(fin, ino);
    let n = blocks_needed(data.len() as int);
    let u = lead_nonzero(old_bl, 0);
    &&& inode_on_volume(ino)
    &&& inode_mode(fin, ino) == MODE_FILE
    &&& inode_size(fin, ino) == data.len()
    &&& forall|i: int| 0 <= i < n ==> 0 < #[trigger] ids[i] < TOTAL_BLOCKS
    &&& forall|i: int| 0 <= i < n && i < u ==> #[trigger] ids[i] == old_bl[i]
    &&& forall|i: int| n <= i < 12 ==> #[trigger] ids[i] == (if i < u { 0 } else { old_bl[i] })
    &&& apart(ids, n, ino) ==> forall|i: int| 0 <= i < n ==> fin[#[trigger] ids[i] as int] == chunk(data, i)
    &&& fin.len() == v0.len()
    &&& forall|b: int|
        0 <= b < v0.len() && b != BLOCK_BITMAP_BLOCK && b != inode_block(ino) && !among(ids, n, b) ==> #[trigger] fin[b] == v0[b]
    &&& (inode_block(ino) != BLOCK_BITMAP_BLOCK && !among(ids, n, inode_block(ino))) ==> forall|j: int|
        0 <= j < BLOCK_SIZE && !(inode_offset(ino) <= j < inode_offset(ino) + 128) ==> #[trigger] fin[inode_block(ino)][j]
            == v0[inode_block(ino)][j]
}

/// A rewrite of inode `ino` to `len` bytes that needs no new blocks: the
/// inode is a regular file, the content fits in the blocks it already has,
/// and those all lie on the volume.
pub open spec fn fits_in_place(v: Seq<Seq<u8>>, ino: u32, len: int) -> bool {
    let bl = inode_blocks(v, ino);
    &&& inode_on_volume(ino)
    &&& (inode_mode(v, ino) as u16) & 0xF000 == MODE_FILE
    &&& blocks_needed(len) <= MAX_FILE_BLOCKS
    &&& blocks_needed(len) <= lead_nonzero(bl, 0)
    &&& forall|i: int| 0 <= i < lead_nonzero(bl, 0) ==> #[trigger] bl[i] < TOTAL_BLOCKS
}

/// A rewrite of inode `ino` to `len` bytes that can go through: the inode is
/// a regular file on the volume, the content fits in four blocks, the
/// file's blocks lie on the volume, and the block bitmap has enough clear
/// bits (from block 1 on) for the blocks the file lacks.
pub open spec fn can_write(v: Seq<Seq<u8>>, ino: u32, len: int) -> bool {
    let bl = inode_blocks(v, ino);
    let u = lead_nonzero(bl, 0);
    &&& inode_on_volume(ino)
    &&& (inode_mode(v, ino) as u16) & 0xF000 == MODE_FILE
    &&& blocks_needed(len) <= MAX_FILE_BLOCKS
    &&& forall|i: int| 0 <= i < u ==> #[trigger] bl[i] < TOTAL_BLOCKS
    &&& blocks_needed(len) <= u || clear_bits(v[BLOCK_BITMAP_BLOCK as int], 1, TOTAL_BLOCKS as int) + u >= blocks_needed(len)
}

/// Block `b` is one of the first `n` pointers of `ids`.
pub open spec fn among(ids: Seq<u32>, n: int, b: int) -> bool {
    exists|i: int| 0 <= i < n && ids[i] as int == b
}

/// Storing a regular-file inode at `off` leaves the rest of the block alone.
proof fn lemma_regular_inode_local(blk: Seq<u8>, off: int, size: u32, bl: Seq<u32>)
    requires
        blk.len() == BLOCK_SIZE,
        0 <= off,
        off + 128 <= BLOCK_SIZE,
        bl.len() == 12,
    ensures
        regular_inode_image(blk, off, size, bl).len() == BLOCK_SIZE,
        forall|j: int| 0 <= j < BLOCK_SIZE && !(off <= j < off + 128) ==> #[trigger] regular_inode_image(blk, off, size, bl)[j] == blk[j],
{
    let a = put16(blk, off, MODE_FILE);
    let b = put32(a, off + 4, size);
    lemma_put32s(b, off + 40, bl);
}

/// The bookkeeping a write of regular file `ino` relies on, read off the
/// volume before the write: the block bitmap marks itself, the file's inode
/// block, the root inode's block, the file's blocks and the root
/// directory's blocks; the file's blocks are distinct, on the volume, and
/// none of them is the bitmap, an inode block of the file or the root, or a
/// root-directory block; the root directory's blocks are neither the bitmap
/// nor the file's inode block; the file's pointers past its first zero are
/// zero.
pub open spec fn layout_ok(v: Seq<Seq<u8>>, ino: u32) -> bool {
    let bl = inode_blocks(v, ino);
    let u = lead_nonzero(bl, 0);
    let bm = v[BLOCK_BITMAP_BLOCK as int];
    let rb = inode_block(ROOT_INO);
    let rbl = inode_blocks(v, ROOT_INO);
    &&& bit_set(bm, BLOCK_BITMAP_BLOCK as int) && bit_set(bm, inode_block(ino)) && bit_set(bm, rb)
    &&& forall|i: int| u <= i < 12 ==> #[trigger] bl[i] == 0
    &&& forall|i: int, j: int| 0 <= i < j < u ==> bl[i] != bl[j]
    &&& forall|i: int| 0 <= i < u ==> {
        &&& (#[trigger] bl[i]) < TOTAL_BLOCKS
        &&& bl[i] != BLOCK_BITMAP_BLOCK && bl[i] != inode_block(ino) && bl[i] != rb
        &&& bit_set(bm, bl[i] as int)
        &&& forall|k: int| 0 <= k < 12 ==> bl[i] != #[trigger] rbl[k]
    }
    &&& forall|k: int| 0 <= k < 12 && #[trigger] rbl[k] != 0 ==> rbl[k] != BLOCK_BITMAP_BLOCK && rbl[k] != inode_block(ino)
        && rbl[k] < TOTAL_BLOCKS && bit_set(bm, rbl[k] as int)
}

/// What a write of regular file `ino` relies on to leave inode `other`
/// alone, read off the volume before the write: the block bitmap marks
/// `other`'s inode block and blocks, neither of which is among `ino`'s
/// blocks, and `other`'s blocks are neither the bitmap nor `ino`'s inode
/// block.
pub open spec fn layout_keeps(v: Seq<Seq<u8>>, ino: u32, other: u32) -> bool {
    let bl = inode_blocks(v, ino);
    let u = lead_nonzero(bl, 0);
    let bm = v[BLOCK_BITMAP_BLOCK as int];
    let ob = inode_block(other);
    let obl = inode_blocks(v, other);
    &&& ob != BLOCK_BITMAP_BLOCK && bit_set(bm, ob)
    &&& forall|i: int| 0 <= i < u ==> (#[trigger] bl[i]) != ob
    &&& forall|i: int, k: int| 0 <= i < u && 0 <= k < 12 ==> #[trigger] bl[i] != #[trigger] obl[k]
    &&& forall|k: int| 0 <= k < 12 && #[trigger] obl[k] != 0 ==> obl[k] != BLOCK_BITMAP_BLOCK && obl[k] != inode_block(ino)
        && obl[k] < TOTAL_BLOCKS && bit_set(bm, obl[k] as int)
}

/// Block `m` is one of the pointers `lo..hi` of `bl`.
pub open spec fn among_range(bl: Seq<u32>, lo: int, hi: int, m: int) -> bool {
    exists|t: int| lo <= t < hi && #[trigger] bl[t] as int == m
}

/// The block bitmap once regular file `ino` of volume `v0` is rewritten to
/// `n` blocks as volume `fin`: each bit set before stays set but those of
/// the file's released blocks (its leading pointers from `n` on), each of
/// the file's first `n` new pointers is marked, and those past its old
/// blocks were free before.
pub open spec fn bitmap_rewritten(v0: Seq<Seq<u8>>, fin: Seq<Seq<u8>>, ino: u32, n: int) -> bool {
    let old_bl = inode_blocks(v0, ino);
    let ids = inode_blocks(fin, ino);
    let bm0 = v0[BLOCK_BITMAP_BLOCK as int];
    let bm = fin[BLOCK_BITMAP_BLOCK as int];
    &&& forall|m: int|
        0 <= m < TOTAL_BLOCKS && #[trigger] bit_set(bm0, m) && !among_range(old_bl, n, lead_nonzero(old_bl, 0), m)
            ==> bit_set(bm, m)
    &&& forall|t: int| 0 <= t < n ==> bit_set(bm, #[trigger] ids[t] as int)
    &&& forall|t: int| lead_nonzero(old_bl, 0) <= t < n ==> !bit_set(bm0, #[trigger] ids[t] as int)
}

/// File `other` of volume `v` and regular file `ino` both have the
/// bookkeeping writes rely on and leave each other alone, so a write to
/// either keeps all of it (see `write_file`).
pub open spec fn files_apart(v: Seq<Seq<u8>>, ino: u32, other: u32) -> bool {
    &&& ino != ROOT_INO && other != ROOT_INO && other != ino && inode_on_volume(other)
    &&& layout_ok(v, ino) && layout_ok(v, other)
    &&& layout_keeps(v, ino, other) && layout_keeps(v, other, ino)
}

/// Rewrites the content of regular file `ino` to `data` (at most four blocks):
/// keeps the blocks the file already had, claims more as needed, releases those
/// no longer needed, then stores the inode with the new size and pointers.
fn write_file_data(mgr: &mut BlockManager, ino: u32, data: &[u8]) -> (r: Result<(), ()>)
    requires
        volume_ready(*old(mgr)),
    ensures
        volume_ready(*final(mgr)),
        same_but_active_media(*old(mgr), *final(mgr)),
        !inode_on_volume(ino) ==> r is Err && *final(mgr) == *old(mgr),
        inode_on_volume(ino) && (inode_mode(volume(*old(mgr)), ino) as u16) & 0xF000 != MODE_FILE ==> r is Err
            && *final(mgr) == *old(mgr),
        inode_on_volume(ino) && blocks_needed(data@.len() as int) > MAX_FILE_BLOCKS ==> r is Err && *final(mgr) == *old(mgr),
        can_write(volume(*old(mgr)), ino, data@.len() as int) ==> r is Ok,
        r is Ok ==> rewritten(volume(*old(mgr)), volume(*final(mgr)), ino, data@),
        r is Ok ==> forall|other: u32| layout_keeps(volume(*old(mgr)), ino, other) ==> #[trigger] file_kept(
            volume(*old(mgr)),
            ino,
            inode_blocks(volume(*final(mgr)), ino),
            blocks_needed(data@.len() as int),
            other,
        ),
        r is Ok && layout_ok(volume(*old(mgr)), ino) ==> apart(
            inode_blocks(volume(*final(mgr)), ino),
            blocks_needed(data@.len() as int),
            ino,
        ) && root_kept(
            volume(*old(mgr)),
            ino,
            inode_blocks(volume(*final(mgr)), ino),
            blocks_needed(data@.len() as int),
        ) && bitmap_rewritten(volume(*old(mgr)), volume(*final(mgr)), ino, blocks_needed(data@.len() as int)),
{
    let ghost v0 = volume(*mgr);
    let ghost m0 = *mgr;
    let ghost bm0 = v0[BLOCK_BITMAP_BLOCK as int];
    proof {
        lemma_volume_sized(m0);
    }
    let file = read_inode(mgr, ino)?;
    if file.mode & 0xF000 != MODE_FILE {
        return Err(());
    }
    let len = data.len();
    let needed = if len == 0 { 0 } else { (len - 1) / BLOCK_SIZE + 1 };
    if needed > MAX_FILE_BLOCKS {
        return Err(());
    }
    let mut ids = file.blocks;
    let ghost old_bl = ids@;
    proof {
        lemma_lead_nonzero(old_bl, 0);
        lemma_inode_place(ino);
    }
    let mut used: usize = 0;
    while used < 12 && ids[used] != 0
        invariant
            used <= 12,
            ids@ == old_bl,
            old_bl.len() == 12,
            lead_nonzero(old_bl, 0) == lead_nonzero(old_bl, used as int),
        decreases 12 - used,
    {
        used += 1;
    }
    // Claim the blocks the file lacks.
    let mut i = used;
    while i < needed
        invariant
            m0 == *old(mgr),
            v0 == volume(m0),
            inode_on_volume(ino),
            (inode_mode(v0, ino) as u16) & 0xF000 == MODE_FILE,
            old_bl == inode_blocks(v0, ino),
            needed == blocks_needed(data@.len() as int),
            volume_ready(*mgr),
            same_but_active_media(m0, *mgr),
            used <= 12,
            needed <= MAX_FILE_BLOCKS,
            used <= i || needed <= i,
            i == used || i <= needed,
            i <= 12,
            ids@.len() == 12,
            used == lead_nonzero(old_bl, 0),
            forall|j: int| 0 <= j < used ==> old_bl[j] != 0,
            forall|j: int| 0 <= j < 12 && !(used <= j < i) ==> #[trigger] ids@[j] == old_bl[j],
            forall|j: int| used <= j < i ==> 0 < #[trigger] ids@[j] < TOTAL_BLOCKS,
            volume(*mgr).len() == TOTAL_BLOCKS,
            forall|b: int| 0 <= b < TOTAL_BLOCKS && b != BLOCK_BITMAP_BLOCK ==> #[trigger] volume(*mgr)[b] == v0[b],
            bm0 == v0[BLOCK_BITMAP_BLOCK as int],
            bm0.len() == BLOCK_SIZE,
            volume(*mgr)[BLOCK_BITMAP_BLOCK as int].len() == BLOCK_SIZE,
            forall|m: int| 0 <= m < TOTAL_BLOCKS && bit_set(bm0, m) ==> #[trigger] bit_set(volume(*mgr)[BLOCK_BITMAP_BLOCK as int], m),
            forall|j: int| used <= j < i ==> bit_set(volume(*mgr)[BLOCK_BITMAP_BLOCK as int], #[trigger] ids@[j] as int)
                && !bit_set(bm0, ids@[j] as int),
            forall|a: int, c: int| used <= a < c < i ==> #[trigger] ids@[a] != #[trigger] ids@[c],
            can_write(v0, ino, data@.len() as int) ==> clear_bits(volume(*mgr)[BLOCK_BITMAP_BLOCK as int], 1, TOTAL_BLOCKS as int) + i
                >= needed,
        decreases 12 - i,
    {
        let ghost bm = volume(*mgr)[BLOCK_BITMAP_BLOCK as int];
        let ghost before = ids@;
        proof {
            lemma_first_clear_bounds(bm, 1, TOTAL_BLOCKS as int);
            if can_write(v0, ino, data@.len() as int) {
                lemma_clear_bits_found(bm, 1, TOTAL_BLOCKS as int);
            }
        }
        let b = alloc_block(mgr)?;
        proof {
            lemma_first_clear_is_clear(bm, 1, TOTAL_BLOCKS as int);
            lemma_clear_bits_set(bm, b as int, 1, TOTAL_BLOCKS as int);
            lemma_volume_sized(*mgr);
            let nb = volume(*mgr)[BLOCK_BITMAP_BLOCK as int];
            assert(nb == with_bit(bm, b as int));
            assert forall|m: int| 0 <= m < TOTAL_BLOCKS implies #[trigger] bit_set(nb, m) == (m == b || bit_set(bm, m)) by {
                lemma_with_bit(bm, b as int, m);
            }
            assert(!bit_set(bm0, b as int));
            assert forall|j: int| used <= j < i implies before[j] != b by {
                assert(bit_set(bm, before[j] as int));
            }
        }
        ids.set(i, b);
        i += 1;
    }
    let ghost fixed = ids@;
    let ghost bmc = volume(*mgr)[BLOCK_BITMAP_BLOCK as int];
    let ghost claimed_to = i as int;
    proof {
        if layout_ok(v0, ino) {
            let rbl = inode_blocks(v0, ROOT_INO);
            let n = needed as int;
            assert forall|a: int, c: int| 0 <= a < c < n implies fixed[a] != fixed[c] by {
                if c < used {
                } else if a < used {
                    assert(bit_set(bm0, fixed[a] as int));
                    assert(!bit_set(bm0, fixed[c] as int));
                } else {
                }
            }
            assert forall|a: int| 0 <= a < n implies fixed[a] != BLOCK_BITMAP_BLOCK && fixed[a] != inode_block(ino) by {
                if a >= used {
                    assert(!bit_set(bm0, fixed[a] as int));
                }
            }
            assert(apart(fixed, n, ino));
            assert(!among(fixed, n, inode_block(ROOT_INO))) by {
                if among(fixed, n, inode_block(ROOT_INO)) {
                    let w = choose|w: int| 0 <= w < n && fixed[w] as int == inode_block(ROOT_INO);
                    if w >= used {
                        assert(!bit_set(bm0, fixed[w] as int));
                    }
                }
            }
            assert forall|k: int| 0 <= k < 12 && #[trigger] rbl[k] != 0 implies !among(fixed, n, rbl[k] as int) by {
                if among(fixed, n, rbl[k] as int) {
                    let w = choose|w: int| 0 <= w < n && fixed[w] as int == rbl[k] as int;
                    if w >= used {
                        assert(!bit_set(bm0, fixed[w] as int));
                    } else {
                        assert(old_bl[w] != rbl[k]);
                    }
                }
            }
            assert(root_kept(v0, ino, fixed, n));
        }
        assert forall|other: u32| layout_keeps(v0, ino, other) implies #[trigger] file_kept(v0, ino, fixed, needed as int, other) by {
            let n = needed as int;
            let obl = inode_blocks(v0, other);
            let ob = inode_block(other);
            assert(!among(fixed, n, ob)) by {
                if among(fixed, n, ob) {
                    let w = choose|w: int| 0 <= w < n && fixed[w] as int == ob;
                    if w >= used {
                        assert(!bit_set(bm0, fixed[w] as int));
                    } else {
                        assert(old_bl[w] != ob);
                    }
                }
            }
            assert forall|k: int| 0 <= k < 12 && #[trigger] obl[k] != 0 implies !among(fixed, n, obl[k] as int) by {
                if among(fixed, n, obl[k] as int) {
                    let w = choose|w: int| 0 <= w < n && fixed[w] as int == obl[k] as int;
                    if w >= used {
                        assert(!bit_set(bm0, fixed[w] as int));
                    } else {
                        assert(old_bl[w] != obl[k]);
                    }
                }
            }
        }
    }
    assert(forall|t: int| 0 <= t < needed ==> 0 < #[trigger] fixed[t]);
    // Write the content.
    let mut k: usize = 0;
    while k < needed
        invariant
            m0 == *old(mgr),
            v0 == volume(m0),
            inode_on_volume(ino),
            (inode_mode(v0, ino) as u16) & 0xF000 == MODE_FILE,
            old_bl == inode_blocks(v0, ino),
            needed == blocks_needed(data@.len() as int),
            volume_ready(*mgr),
            same_but_active_media(m0, *mgr),
            k <= needed <= MAX_FILE_BLOCKS,
            ids@ == fixed,
            fixed.len() == 12,
            can_write(v0, ino, data@.len() as int) ==> forall|t: int| 0 <= t < needed ==> #[trigger] fixed[t] < TOTAL_BLOCKS,
            used <= 12,
            used == lead_nonzero(old_bl, 0),
            forall|t: int| 0 <= t < used ==> old_bl[t] != 0,
            forall|t: int| 0 <= t < 12 && !(used <= t < needed) ==> #[trigger] fixed[t] == old_bl[t],
            forall|t: int| 0 <= t < needed ==> 0 < #[trigger] fixed[t],
            forall|j: int| 0 <= j < k ==> #[trigger] fixed[j] < TOTAL_BLOCKS,
            apart(fixed, needed as int, ino) ==> volume(*mgr)[BLOCK_BITMAP_BLOCK as int] == bmc,
            volume(*mgr).len() == TOTAL_BLOCKS,
            forall|b: int| 0 <= b < TOTAL_BLOCKS && b != BLOCK_BITMAP_BLOCK && !among(fixed, k as int, b) ==> #[trigger] volume(*mgr)[b] == v0[b],
            apart(fixed, needed as int, ino) ==> forall|j: int| 0 <= j < k ==> volume(*mgr)[#[trigger] fixed[j] as int] == chunk(data@, j),
        decreases needed - k,
    {
        let block = chunk_exec(data, k);
        match write_block(mgr, ids[k] as u64, block.as_slice()) {
            Ok(()) => {},
            Err(_) => {
                return Err(());
            },
        }
        proof {
            assert forall|b: int| 0 <= b < TOTAL_BLOCKS && b != BLOCK_BITMAP_BLOCK && !among(fixed, k + 1, b)
                implies #[trigger] volume(*mgr)[b] == v0[b] by {
                if among(fixed, k as int, b) {
                    let w = choose|w: int| 0 <= w < k && fixed[w] as int == b;
                    assert(0 <= w < k + 1 && fixed[w] as int == b);
                }
                assert(b != fixed[k as int]) by {
                    if b == fixed[k as int] {
                        assert(0 <= k < k + 1 && fixed[k as int] as int == b);
                    }
                }
            }
        }
        k += 1;
    }
    // Release the blocks no longer needed.
    let mut j = needed;
    while j < used
        invariant
            m0 == *old(mgr),
            v0 == volume(m0),
            inode_on_volume(ino),
            (inode_mode(v0, ino) as u16) & 0xF000 == MODE_FILE,
            old_bl == inode_blocks(v0, ino),
            needed == blocks_needed(data@.len() as int),
            volume_ready(*mgr),
            same_but_active_media(m0, *mgr),
            needed <= j || used <= j,
            j == needed || j <= used,
            j <= 12,
            used <= 12,
            needed <= MAX_FILE_BLOCKS,
            used == lead_nonzero(old_bl, 0),
            forall|t: int| 0 <= t < used ==> old_bl[t] != 0,
            can_write(v0, ino, data@.len() as int) ==> forall|t: int| 0 <= t < used ==> #[trigger] old_bl[t] < TOTAL_BLOCKS,
            ids@.len() == 12,
            forall|t: int| 0 <= t < 12 && !(needed <= t < j) ==> #[trigger] ids@[t] == fixed[t],
            forall|t: int| needed <= t < j ==> #[trigger] ids@[t] == 0,
            forall|t: int| 0 <= t < needed ==> 0 < #[trigger] fixed[t] < TOTAL_BLOCKS,
            forall|t: int| 0 <= t < 12 && !(used <= t < needed) ==> #[trigger] fixed[t] == old_bl[t],
            apart(fixed, needed as int, ino) ==> forall|t: int| 0 <= t < needed ==> volume(*mgr)[#[trigger] fixed[t] as int] == chunk(data@, t),
            volume(*mgr).len() == TOTAL_BLOCKS,
            forall|b: int| 0 <= b < TOTAL_BLOCKS && b != BLOCK_BITMAP_BLOCK && !among(fixed, needed as int, b) ==> #[trigger] volume(*mgr)[b] == v0[b],
            bmc.len() == BLOCK_SIZE,
            apart(fixed, needed as int, ino) ==> forall|m: int|
                0 <= m < TOTAL_BLOCKS && #[trigger] bit_set(bmc, m) && !among_range(old_bl, needed as int, j as int, m)
                    ==> bit_set(volume(*mgr)[BLOCK_BITMAP_BLOCK as int], m),
        decreases 12 - j,
    {
        if ids[j] != 0 {
            let ghost cur = volume(*mgr)[BLOCK_BITMAP_BLOCK as int];
            proof {
                lemma_volume_sized(*mgr);
            }
            free_block(mgr, ids[j])?;
            proof {
                assert(ids@[j as int] == old_bl[j as int]);
                assert forall|m: int|
                    0 <= m < TOTAL_BLOCKS && #[trigger] bit_set(bmc, m) && !among_range(old_bl, needed as int, j + 1, m)
                    && apart(fixed, needed as int, ino) implies bit_set(volume(*mgr)[BLOCK_BITMAP_BLOCK as int], m) by {
                    if among_range(old_bl, needed as int, j as int, m) {
                        let w = choose|w: int| needed <= w < j && #[trigger] old_bl[w] as int == m;
                        assert(needed <= w < j + 1 && old_bl[w] as int == m);
                    }
                    assert(m != old_bl[j as int]) by {
                        if m == old_bl[j as int] {
                            assert(needed <= j < j + 1 && old_bl[j as int] as int == m);
                        }
                    }
                    lemma_without_bit(cur, old_bl[j as int] as int, m);
                }
            }
            ids.set(j, 0);
        } else {
            proof {
                assert forall|m: int|
                    0 <= m < TOTAL_BLOCKS && #[trigger] bit_set(bmc, m) && !among_range(old_bl, needed as int, j + 1, m)
                    && apart(fixed, needed as int, ino) implies bit_set(volume(*mgr)[BLOCK_BITMAP_BLOCK as int], m) by {
                    if among_range(old_bl, needed as int, j as int, m) {
                        let w = choose|w: int| needed <= w < j && #[trigger] old_bl[w] as int == m;
                        assert(needed <= w < j + 1 && old_bl[w] as int == m);
                    }
                }
            }
        }
        j += 1;
    }
    let ghost released_to = j as int;
    let ghost before_inode = volume(*mgr);
    assert(len <= 4096);
    let r = write_regular_inode(mgr, ino, len as u32, ids.as_slice());
    proof {
        if r is Ok {
            lemma_volume_sized(m0);
            lemma_regular_inode(before_inode, ino, len as u32, ids@);
            let fin = volume(*mgr);
            assert(inode_blocks(fin, ino) == ids@);
            assert forall|t: int| 0 <= t < needed implies #[trigger] ids@[t] == fixed[t] by {}
            assert(inode_mode(fin, ino) == MODE_FILE);
            assert(inode_size(fin, ino) == data@.len());
            assert(forall|t: int| 0 <= t < needed ==> 0 < #[trigger] inode_blocks(fin, ino)[t] < TOTAL_BLOCKS);
            assert(forall|t: int| 0 <= t < needed && t < used ==> #[trigger] inode_blocks(fin, ino)[t] == old_bl[t]);
            assert(forall|t: int| needed <= t < 12 ==> #[trigger] inode_blocks(fin, ino)[t] == (if t < used { 0 } else { old_bl[t] }));
            lemma_regular_inode_local(before_inode[inode_block(ino)], inode_offset(ino), len as u32, ids@);
            assert forall|b: int| 0 <= b < TOTAL_BLOCKS && !among(fixed, needed as int, b) implies
                #[trigger] among(inode_blocks(fin, ino), needed as int, b) == false by {
                if among(inode_blocks(fin, ino), needed as int, b) {
                    let w = choose|w: int| 0 <= w < needed && inode_blocks(fin, ino)[w] as int == b;
                    assert(fixed[w] as int == b);
                }
            }
            assert forall|b: int| 0 <= b < TOTAL_BLOCKS && among(fixed, needed as int, b) implies
                #[trigger] among(inode_blocks(fin, ino), needed as int, b) by {
                let w = choose|w: int| 0 <= w < needed && fixed[w] as int == b;
                assert(inode_blocks(fin, ino)[w] as int == b);
            }
            if layout_ok(v0, ino) {
                lemma_inode_place(ino);
                let fbm = fin[BLOCK_BITMAP_BLOCK as int];
                assert(fbm == before_inode[BLOCK_BITMAP_BLOCK as int]);
                assert forall|m: int|
                    0 <= m < TOTAL_BLOCKS && #[trigger] bit_set(bm0, m) && !among_range(old_bl, needed as int, used as int, m)
                    implies bit_set(fbm, m) by {
                    assert(bit_set(bmc, m));
                    if among_range(old_bl, needed as int, released_to, m) {
                        let w = choose|w: int| needed <= w < released_to && #[trigger] old_bl[w] as int == m;
                        assert(needed <= w < used && old_bl[w] as int == m);
                    }
                }
                assert forall|t: int| 0 <= t < needed implies bit_set(fbm, #[trigger] inode_blocks(fin, ino)[t] as int) by {
                    let b = fixed[t];
                    assert(inode_blocks(fin, ino)[t] == b);
                    if t < used {
                        assert(old_bl[t] == b);
                        assert(bit_set(bm0, b as int));
                        assert(bit_set(bmc, b as int));
                        if among_range(old_bl, needed as int, released_to, b as int) {
                            let w = choose|w: int| needed <= w < released_to && #[trigger] old_bl[w] as int == b as int;
                            assert(t < w < used);
                        }
                    } else {
                        assert(used <= t < claimed_to);
                        assert(bit_set(bmc, b as int) && !bit_set(bm0, b as int));
                        if among_range(old_bl, needed as int, released_to, b as int) {
                            let w = choose|w: int| needed <= w < released_to && #[trigger] old_bl[w] as int == b as int;
                            assert(w < used);
                            assert(bit_set(bm0, old_bl[w] as int));
                        }
                    }
                }
                assert forall|t: int| used <= t < needed implies !bit_set(bm0, #[trigger] inode_blocks(fin, ino)[t] as int) by {
                    assert(inode_blocks(fin, ino)[t] == fixed[t]);
                    assert(t < claimed_to);
                }
                assert(bitmap_rewritten(v0, fin, ino, needed as int));
            }
            if apart(ids@, needed as int, ino) {
                assert forall|a: int, b: int| 0 <= a < b < needed implies fixed[a] != fixed[b] by {
                    assert(ids@[a] != ids@[b]);
                }
                assert forall|a: int| 0 <= a < needed implies fixed[a] != BLOCK_BITMAP_BLOCK && fixed[a] != inode_block(ino) by {
                    assert(ids@[a] == fixed[a]);
                }
                assert forall|t: int| 0 <= t < needed implies fin[#[trigger] ids@[t] as int] == chunk(data@, t) by {
                    assert(before_inode[fixed[t] as int] == chunk(data@, t));
                }
            }
        }
    }
    r
}

// ---------------------------------------------------------------------------
// Root-directory operations.

/// The inode the root directory gives for `name`, if the root is a directory
/// whose entries can be read.
pub open spec fn root_lookup(v: Seq<Seq<u8>>, name: Seq<u8>) -> Option<Option<u32>> {
    match root_dir(v) {
        None => None,
        Some(d) => Some(dir_lookup(d, name, 0)),
    }
}

fn find_dir_entry_in_root(mgr: &BlockManager, name: &[u8]) -> (r: Result<Option<u32>, ()>)
    requires
        volume_ready(*mgr),
    ensures
        r is Ok <==> root_lookup(volume(*mgr), name@) is Some,
        r matches Ok(o) ==> o == root_lookup(volume(*mgr), name@)->Some_0,
{
    let root = read_inode(mgr, ROOT_INO)?;
    if root.mode & 0xF000 != MODE_DIR {
        return Err(());
    }
    let dir = read_file_data(mgr, &root)?;
    Ok(find_dir_entry(dir.as_slice(), name))
}

/// The regular file that the root directory names `name`.
pub open spec fn regular_file_ino(v: Seq<Seq<u8>>, name: Seq<u8>) -> Option<u32> {
    match root_lookup(v, name) {
        Some(Some(ino)) => if inode_on_volume(ino) && (inode_mode(v, ino) as u16) & 0xF000 == MODE_FILE {
            Some(ino)
        } else {
            None
        },
        _ => None,
    }
}

fn resolve_regular_file_ino(mgr: &BlockManager, name: &[u8]) -> (r: Result<u32, ()>)
    requires
        volume_ready(*mgr),
    ensures
        r is Ok <==> regular_file_ino(volume(*mgr), name@) is Some,
        r matches Ok(ino) ==> ino == regular_file_ino(volume(*mgr), name@)->Some_0,
{
    let ino = match find_dir_entry_in_root(mgr, name)? {
        Some(i) => i,
        None => {
            return Err(());
        },
    };
    let file = read_inode(mgr, ino)?;
    if file.mode & 0xF000 != MODE_FILE {
        return Err(());
    }
    Ok(ino)
}

fn write_file_inner(mgr: &mut BlockManager, name: &[u8], data: &[u8]) -> (r: Result<(), ()>)
    requires
        volume_ready(*old(mgr)),
    ensures
        volume_ready(*final(mgr)),
        same_but_active_media(*old(mgr), *final(mgr)),
        (name@.len() == 0 || regular_file_ino(volume(*old(mgr)), name@) is None) ==> r is Err && *final(mgr) == *old(mgr),
        r is Ok ==> regular_file_ino(volume(*old(mgr)), name@) is Some && rewritten(
            volume(*old(mgr)),
            volume(*final(mgr)),
            regular_file_ino(volume(*old(mgr)), name@)->Some_0,
            data@,
        ),
        (name@.len() > 0 && regular_file_ino(volume(*old(mgr)), name@) is Some && can_write(
            volume(*old(mgr)),
            regular_file_ino(volume(*old(mgr)), name@)->Some_0,
            data@.len() as int,
        )) ==> r is Ok,
        r is Ok && layout_ok(volume(*old(mgr)), regular_file_ino(volume(*old(mgr)), name@)->Some_0) ==> volume_read(
            volume(*final(mgr)),
            name@,
        ) == Some(data@),
        r is Ok && layout_ok(volume(*old(mgr)), regular_file_ino(volume(*old(mgr)), name@)->Some_0) ==> forall|other: Seq<u8>|
            regular_file_ino(volume(*old(mgr)), other) is Some && regular_file_ino(volume(*old(mgr)), other)
                != regular_file_ino(volume(*old(mgr)), name@) && layout_keeps(
                volume(*old(mgr)),
                regular_file_ino(volume(*old(mgr)), name@)->Some_0,
                regular_file_ino(volume(*old(mgr)), other)->Some_0,
            ) ==> #[trigger] volume_read(volume(*final(mgr)), other) == volume_read(volume(*old(mgr)), other),
        r is Ok && layout_ok(volume(*old(mgr)), regular_file_ino(volume(*old(mgr)), name@)->Some_0) ==> layout_ok(
            volume(*final(mgr)),
            regular_file_ino(volume(*old(mgr)), name@)->Some_0,
        ),
        r is Ok && layout_ok(volume(*old(mgr)), regular_file_ino(volume(*old(mgr)), name@)->Some_0) ==> root_dir(
            volume(*final(mgr)),
        ) == root_dir(volume(*old(mgr))),
        r is Ok ==> forall|other: u32|
            files_apart(volume(*old(mgr)), regular_file_ino(volume(*old(mgr)), name@)->Some_0, other) ==> #[trigger] files_apart(
                volume(*final(mgr)),
                regular_file_ino(volume(*old(mgr)), name@)->Some_0,
                other,
            ),
{
    if name.len() == 0 {
        return Err(());
    }
    let ghost v0 = volume(*mgr);
    let target_ino = resolve_regular_file_ino(mgr, name)?;
    let r = write_file_data(mgr, target_ino, data);
    proof {
        if r is Ok && layout_ok(v0, target_ino) {
            lemma_volume_sized(*old(mgr));
            lemma_write_then_read(v0, volume(*mgr), name@, data@);
            assert forall|other: Seq<u8>|
                regular_file_ino(v0, other) is Some && regular_file_ino(v0, other) != regular_file_ino(v0, name@)
                    && layout_keeps(v0, target_ino, regular_file_ino(v0, other)->Some_0)
                implies #[trigger] volume_read(volume(*mgr), other) == volume_read(v0, other) by {
                let o = regular_file_ino(v0, other)->Some_0;
                assert(file_kept(v0, target_ino, inode_blocks(volume(*mgr), target_ino), blocks_needed(data@.len() as int), o));
                lemma_write_keeps_other(v0, volume(*mgr), name@, data@, other);
            }
            assert(root_dir(v0) is Some);
            assert(target_ino != ROOT_INO) by {
                if target_ino == ROOT_INO {
                    let m = inode_mode(v0, target_ino) as u16;
                    assert(m & 0xF000u16 == 0x4000u16 && m & 0xF000u16 == 0x8000u16);
                }
            }
            lemma_rewrite_keeps_layout(v0, volume(*mgr), target_ino, data@);
            assert(file_kept(v0, target_ino, inode_blocks(volume(*mgr), target_ino), blocks_needed(data@.len() as int), ROOT_INO));
            lemma_rewrite_keeps_inode(v0, volume(*mgr), target_ino, data@, ROOT_INO);
            assert(root_dir(volume(*mgr)) == root_dir(v0));
            assert forall|other: u32| files_apart(v0, target_ino, other) implies #[trigger] files_apart(
                volume(*mgr),
                target_ino,
                other,
            ) by {
                lemma_rewrite_keeps_other_layout(v0, volume(*mgr), target_ino, data@, other);
            }
        }
    }
    r
}

/// Pointers of an inode that owns no block.
pub open spec fn no_blocks() -> Seq<u32> {
    Seq::new(12, |i: int| 0u32)
}

/// Creating `name`: the inode to claim (the first clear bit of the inode
/// bitmap, plus one) and the volume once it is claimed, entered in the root
/// and stored as an empty regular file.
pub open spec fn created_entry(v: Seq<Seq<u8>>, name: Seq<u8>) -> Option<(Seq<Seq<u8>>, u32)> {
    let bm = v[INODE_BITMAP_BLOCK as int];
    let k = first_clear(bm, 0, 128);
    if k >= 128 {
        None
    } else {
        let ino = (k + 1) as u32;
        let v1 = v.update(INODE_BITMAP_BLOCK as int, with_bit(bm, k));
        match appended(v1, ROOT_INO, name, ino) {
            Some(v2) => Some((
                v2.update(inode_block(ino), regular_inode_image(v2[inode_block(ino)], inode_offset(ino), 0, no_blocks())),
                ino,
            )),
            None => None,
        }
    }
}

fn create_file_inner(mgr: &mut BlockManager, name: &[u8], data: &[u8]) -> (r: Result<(), ()>)
    requires
        volume_ready(*old(mgr)),
    ensures
        volume_ready(*final(mgr)),
        same_but_active_media(*old(mgr), *final(mgr)),
        (name@.len() == 0 || !(root_lookup(volume(*old(mgr)), name@) == Some(None::<u32>))) ==> r is Err && *final(mgr)
            == *old(mgr),
        r is Ok ==> (created_entry(volume(*old(mgr)), name@) matches Some(c) && rewritten(c.0, volume(*final(mgr)), c.1, data@)
            && (inode_mode(c.0, c.1) as u16) & 0xF000 == MODE_FILE),
        name@.len() > 0 && root_lookup(volume(*old(mgr)), name@) == Some(None::<u32>) && (created_entry(
            volume(*old(mgr)),
            name@,
        ) matches Some(c) && can_write(c.0, c.1, data@.len() as int)) ==> r is Ok,
        r is Ok ==> (created_entry(volume(*old(mgr)), name@) matches Some(c) && (layout_ok(c.0, c.1) && c.1 != ROOT_INO
            ==> layout_ok(volume(*final(mgr)), c.1))),
{
    if name.len() == 0 {
        return Err(());
    }
    match find_dir_entry_in_root(mgr, name)? {
        Some(_) => {
            return Err(());
        },
        None => {},
    }
    let ghost v0 = volume(*mgr);
    let ino = alloc_inode(mgr)?;
    proof {
        lemma_first_clear_bounds(v0[INODE_BITMAP_BLOCK as int], 0, 128);
        lemma_inode_place(ino);
    }
    append_dir_entry(mgr, ROOT_INO, name, ino)?;
    let empty: [u32; 12] = [0u32; 12];
    assert(empty@ =~= no_blocks());
    write_regular_inode(mgr, ino, 0, &empty)?;
    proof {
        lemma_volume_sized(*mgr);
    }
    let ghost vb = volume(*mgr);
    let r = write_file_data(mgr, ino, data);
    proof {
        if r is Ok && layout_ok(vb, ino) && ino != ROOT_INO {
            lemma_rewrite_keeps_layout(vb, volume(*mgr), ino, data@);
        }
    }
    r
}

/// Bitmap `bm` with the bit of every nonzero pointer of `bl` from `k` on cleared.
pub open spec fn without_bits(bm: Seq<u8>, bl: Seq<u32>, k: int) -> Seq<u8>
    decreases bl.len() - k,
{
    if k < 0 || k >= bl.len() {
        bm
    } else {
        without_bits(if bl[k] != 0 { without_bit(bm, bl[k] as int) } else { bm }, bl, k + 1)
    }
}

/// The volume once file `name` is unlinked: its root entry cleared, its blocks
/// and its inode released, the inode cleared; `None` when there is no such
/// entry, its inode is off the volume, or a block pointer lies past the end.
pub open spec fn unlinked(v: Seq<Seq<u8>>, name: Seq<u8>) -> Option<Seq<Seq<u8>>> {
    match removed(v, name) {
        None => None,
        Some((v1, ino)) => if !inode_on_volume(ino) {
            None
        } else {
            let bl = inode_blocks(v1, ino);
            if exists|i: int| 0 <= i < 12 && #[trigger] bl[i] >= TOTAL_BLOCKS {
                None
            } else {
                let v2 = v1.update(BLOCK_BITMAP_BLOCK as int, without_bits(v1[BLOCK_BITMAP_BLOCK as int], bl, 0));
                let v3 = v2.update(INODE_BITMAP_BLOCK as int, without_bit(v2[INODE_BITMAP_BLOCK as int], ino - 1));
                Some(v3.update(inode_block(ino), splice(v3[inode_block(ino)], inode_offset(ino), Seq::new(128, |i: int| 0u8))))
            }
        },
    }
}

fn unlink_file_inner(mgr: &mut BlockManager, name: &[u8]) -> (r: Result<(), ()>)
    requires
        volume_ready(*old(mgr)),
    ensures
        volume_ready(*final(mgr)),
        same_but_active_media(*old(mgr), *final(mgr)),
        removed(volume(*old(mgr)), name@) is None ==> r is Err && *final(mgr) == *old(mgr),
        r is Ok <==> unlinked(volume(*old(mgr)), name@) is Some,
        r is Ok ==> volume(*final(mgr)) == unlinked(volume(*old(mgr)), name@)->Some_0,
{
    let ghost m0 = *mgr;
    let ino = remove_dir_entry(mgr, name)?;
    let ghost v1 = volume(*mgr);
    let file = match read_inode(mgr, ino) {
        Ok(f) => f,
        Err(()) => {
            return Err(());
        },
    };
    let ghost bl = file.blocks@;
    let mut k: usize = 0;
    while k < 12
        invariant
            m0 == *old(mgr),
            volume_ready(*mgr),
            same_but_active_media(m0, *mgr),
            k <= 12,
            file.blocks@ == bl,
            bl.len() == 12,
            bl == inode_blocks(v1, ino),
            inode_on_volume(ino),
            removed(volume(m0), name@) == Some((v1, ino)),
            forall|j: int| 0 <= j < k ==> #[trigger] bl[j] < TOTAL_BLOCKS,
            volume(*mgr) == v1.update(BLOCK_BITMAP_BLOCK as int, volume(*mgr)[BLOCK_BITMAP_BLOCK as int]),
            without_bits(v1[BLOCK_BITMAP_BLOCK as int], bl, 0) == without_bits(volume(*mgr)[BLOCK_BITMAP_BLOCK as int], bl, k as int),
        decreases 12 - k,
    {
        let block_id = file.blocks[k];
        if block_id != 0 {
            match free_block(mgr, block_id) {
                Ok(()) => {},
                Err(()) => {
                    assert(unlinked(volume(m0), name@) is None);
                    return Err(());
                },
            }
        }
        k += 1;
    }
    assert(!(exists|i: int| 0 <= i < 12 && #[trigger] bl[i] >= TOTAL_BLOCKS));
    free_inode(mgr, ino)
}

// ---------------------------------------------------------------------------
// Formatting.

/// `n` zero bytes.
pub open spec fn zero_bytes(n: nat) -> Seq<u8> {
    Seq::new(n, |i: int| 0u8)
}

/// The superblock: 32 inodes, 128 blocks, first data block 0, the ext2 magic
/// and 128-byte inodes.
pub open spec fn superblock_image() -> Seq<u8> {
    put16(put16(put32(put32(put32(zero_bytes(1024), 0x00, 32), 0x04, TOTAL_BLOCKS as u32), 0x10, 0), 0x38, 0xEF53), 0x54, 128)
}

/// The group descriptor: bitmap and inode-table locations and free counts.
pub open spec fn group_desc_image() -> Seq<u8> {
    put16(
        put16(
            put16(
                put16(put32(put32(put32(zero_bytes(1024), 0x00, 3), 0x04, 4), 0x08, 5), 0x0C, 0xFFFE),
                0x0E,
                0xFFFE,
            ),
            0x10,
            0x003E,
        ),
        0x12,
        0x0001,
    )
}

/// The block bitmap with the metadata, root-directory and seed-file blocks in
/// use: blocks 1 to 8 and 10 to 15.
pub open spec fn block_bitmap_image() -> Seq<u8> {
    zero_bytes(1024).update(0, 0xFE).update(1, 0xFD)
}

/// The inode bitmap with inodes 2, 12 and 13 in use.
pub open spec fn inode_bitmap_image() -> Seq<u8> {
    zero_bytes(1024).update(0, 0x02).update(1, 0x18)
}

/// The root directory's inode.
pub open spec fn root_inode_image() -> Seq<u8> {
    put32(put32(put16(zero_bytes(128), 0x00, MODE_DIR), 0x04, 48), 0x28, ROOT_DIR_BLOCK)
}

/// The root directory block: entries for `smoke.txt` (inode 12) and
/// `ring3-io-demo.elf` (inode 13).
pub open spec fn root_dir_image() -> Seq<u8> {
    let smoke = "smoke.txt".spec_bytes();
    let elf = "ring3-io-demo.elf".spec_bytes();
    let a = put16(put32(zero_bytes(1024), 0, FILE_INO), 4, 20).update(6, smoke.len() as u8).update(7, 1u8);
    let b = splice(a, 8, smoke);
    let c = put16(put32(b, 20, ELF_INO), 24, 28).update(26, elf.len() as u8).update(27, 1u8);
    splice(c, 28, elf)
}

/// The inode of `smoke.txt`: 8 bytes in block 11.
pub open spec fn smoke_inode_image() -> Seq<u8> {
    put32(put32(put16(zero_bytes(128), 0x00, MODE_FILE), 0x04, 8), 0x28, FILE_DATA_BLOCK)
}

/// The content block of `smoke.txt`.
pub open spec fn smoke_data_image() -> Seq<u8> {
    splice(zero_bytes(1024), 0, "ext2 ok\n".spec_bytes())
}

/// The inode of the demo ELF: up to four blocks from block 12.
pub open spec fn elf_inode_image(elf_len: int) -> Seq<u8> {
    let size = if elf_len < 4096 { elf_len } else { 4096 };
    put32s(put32(put16(zero_bytes(128), 0x00, MODE_FILE), 0x04, size as u32), 40, seq![12u32, 13u32, 14u32, 15u32])
}

/// Volume `v` once formatted with the demo ELF `elf`. The inode-table blocks
/// keep their other bytes.
pub open spec fn formatted(v: Seq<Seq<u8>>, elf: Seq<u8>) -> Seq<Seq<u8>> {
    let v1 = v.update(1, superblock_image()).update(2, group_desc_image()).update(3, block_bitmap_image()).update(
        4,
        inode_bitmap_image(),
    );
    let v2 = v1.update(5, splice(v1[5], 128, root_inode_image())).update(10, root_dir_image());
    let v3 = v2.update(6, splice(v2[6], 384, smoke_inode_image())).update(11, smoke_data_image());
    let v4 = v3.update(6, splice(v3[6], 512, elf_inode_image(elf.len() as int)));
    v4.update(12, chunk(elf, 0)).update(13, chunk(elf, 1)).update(14, chunk(elf, 2)).update(15, chunk(elf, 3))
}

fn put_bytes(out: &mut Vec<u8>, offset: usize, bytes: &[u8])
    requires
        offset + bytes@.len() <= old(out)@.len(),
    ensures
        final(out)@ == splice(old(out)@, offset as int, bytes@),
{
    let ghost orig = out@;
    let n = out.len();
    let mut i: usize = 0;
    while i < bytes.len()
        invariant
            n == orig.len(),
            i <= bytes@.len(),
            offset + bytes@.len() <= orig.len(),
            out@.len() == orig.len(),
            forall|j: int| 0 <= j < orig.len() ==> #[trigger] out@[j] == (if offset <= j < offset + i { bytes@[j - offset] } else { orig[j] }),
        decreases bytes@.len() - i,
    {
        out[offset + i] = bytes[i];
        i += 1;
    }
    assert(out@ =~= splice(orig, offset as int, bytes@));
}

/// Lays down an empty volume with the seed files `smoke.txt` and
/// `ring3-io-demo.elf` (the first four blocks of `elf`).
fn format_minimal(mgr: &mut BlockManager, elf: &[u8])
    requires
        volume_ready(*old(mgr)),
    ensures
        volume_ready(*final(mgr)),
        same_but_active_media(*old(mgr), *final(mgr)),
        volume(*final(mgr)) == formatted(volume(*old(mgr)), elf@),
{
    let ghost v0 = volume(*mgr);
    proof {
        lemma_volume_sized(*mgr);
    }
    let mut superblock = zeros(BLOCK_SIZE);
    write_u32(&mut superblock, 0x00, 32);
    write_u32(&mut superblock, 0x04, TOTAL_BLOCKS as u32);
    write_u32(&mut superblock, 0x10, 0);
    write_u16(&mut superblock, 0x38, 0xEF53);
    write_u16(&mut superblock, 0x54, 128);
    let _ = write_block(mgr, SUPERBLOCK_BLOCK as u64, superblock.as_slice());

    let mut bg = zeros(BLOCK_SIZE);
    write_u32(&mut bg, 0x00, BLOCK_BITMAP_BLOCK as u32);
    write_u32(&mut bg, 0x04, INODE_BITMAP_BLOCK as u32);
    write_u32(&mut bg, 0x08, INODE_TABLE_BLOCK as u32);
    write_u16(&mut bg, 0x0C, 0xFFFE);
    write_u16(&mut bg, 0x0E, 0xFFFE);
    write_u16(&mut bg, 0x10, 0x003E);
    write_u16(&mut bg, 0x12, 0x0001);
    let _ = write_block(mgr, BG_DESC_BLOCK as u64, bg.as_slice());

    // Blocks 1..=8 (metadata and inode table) and 10..=15 (root directory,
    // smoke.txt, the demo ELF) are in use.
    let mut block_bitmap = zeros(BLOCK_SIZE);
    block_bitmap[0] = 0xFE;
    block_bitmap[1] = 0xFD;
    let _ = write_block(mgr, BLOCK_BITMAP_BLOCK as u64, block_bitmap.as_slice());

    let mut inode_bitmap = zeros(BLOCK_SIZE);
    inode_bitmap[0] = 0b0000_0010;
    inode_bitmap[1] = 0b0001_1000;
    let _ = write_block(mgr, INODE_BITMAP_BLOCK as u64, inode_bitmap.as_slice());
    let ghost v1 = volume(*mgr);
    assert(v1 == v0.update(1, superblock_image()).update(2, group_desc_image()).update(3, block_bitmap_image()).update(4, inode_bitmap_image()));

    let mut root = zeros(128);
    write_u16(&mut root, 0x00, MODE_DIR);
    write_u32(&mut root, 0x04, 48);
    write_u32(&mut root, 0x28, ROOT_DIR_BLOCK);
    write_inode(mgr, ROOT_INO, root.as_slice());

    let mut dir_block = zeros(BLOCK_SIZE);
    let smoke_name = "smoke.txt".as_bytes();
    write_u32(&mut dir_block, 0, FILE_INO);
    write_u16(&mut dir_block, 4, 20);
    dir_block[6] = smoke_name.len() as u8;
    dir_block[7] = 1;
    let elf_name = "ring3-io-demo.elf".as_bytes();
    proof {
        reveal_strlit("smoke.txt");
        reveal_strlit("ring3-io-demo.elf");
        reveal_strlit("ext2 ok\n");
        vstd::string::is_ascii_spec_bytes("smoke.txt");
        vstd::string::is_ascii_spec_bytes("ring3-io-demo.elf");
        vstd::string::is_ascii_spec_bytes("ext2 ok\n");
    }
    put_bytes(&mut dir_block, 8, smoke_name);
    let elf_dentry_off: usize = 20;
    write_u32(&mut dir_block, elf_dentry_off, ELF_INO);
    write_u16(&mut dir_block, elf_dentry_off + 4, 28);
    dir_block[elf_dentry_off + 6] = elf_name.len() as u8;
    dir_block[elf_dentry_off + 7] = 1;
    put_bytes(&mut dir_block, elf_dentry_off + 8, elf_name);
    let _ = write_block(mgr, ROOT_DIR_BLOCK as u64, dir_block.as_slice());

    let mut file = zeros(128);
    write_u16(&mut file, 0x00, MODE_FILE);
    write_u32(&mut file, 0x04, 8);
    write_u32(&mut file, 0x28, FILE_DATA_BLOCK);
    write_inode(mgr, FILE_INO, file.as_slice());

    let mut payload = zeros(BLOCK_SIZE);
    put_bytes(&mut payload, 0, "ext2 ok\n".as_bytes());
    let _ = write_block(mgr, FILE_DATA_BLOCK as u64, payload.as_slice());

    let mut elf_inode = zeros(128);
    write_u16(&mut elf_inode, 0x00, MODE_FILE);
    let size = if elf.len() < ELF_DATA_BLOCKS * BLOCK_SIZE { elf.len() } else { ELF_DATA_BLOCKS * BLOCK_SIZE };
    write_u32(&mut elf_inode, 0x04, size as u32);
    let ghost base = elf_inode@;
    let mut idx: usize = 0;
    while idx < ELF_DATA_BLOCKS
        invariant
            idx <= ELF_DATA_BLOCKS,
            elf_inode@.len() == 128,
            elf_inode@ == put32s(base, 40, seq![12u32, 13u32, 14u32, 15u32].subrange(0, idx as int)),
        decreases ELF_DATA_BLOCKS - idx,
    {
        write_u32(&mut elf_inode, 40 + idx * 4, ELF_DATA_BLOCK0 + idx as u32);
        proof {
            let ids = seq![12u32, 13u32, 14u32, 15u32];
            assert(ids.subrange(0, idx + 1).drop_last() =~= ids.subrange(0, idx as int));
            assert(ids.subrange(0, idx + 1).last() == ELF_DATA_BLOCK0 + idx);
        }
        idx += 1;
    }
    assert(seq![12u32, 13u32, 14u32, 15u32].subrange(0, 4) =~= seq![12u32, 13u32, 14u32, 15u32]);
    write_inode(mgr, ELF_INO, elf_inode.as_slice());
    let ghost v4 = volume(*mgr);

    let mut block_idx: usize = 0;
    while block_idx < ELF_DATA_BLOCKS
        invariant
            block_idx <= ELF_DATA_BLOCKS,
            volume_ready(*mgr),
            same_but_active_media(*old(mgr), *mgr),
            v4.len() == TOTAL_BLOCKS,
            volume(*mgr).len() == TOTAL_BLOCKS,
            forall|j: int| 0 <= j < TOTAL_BLOCKS ==> #[trigger] volume(*mgr)[j] == (if 12 <= j < 12 + block_idx { chunk(elf@, j - 12) } else { v4[j] }),
        decreases ELF_DATA_BLOCKS - block_idx,
    {
        let block = chunk_exec(elf, block_idx);
        let _ = write_block(mgr, ELF_DATA_BLOCK0 as u64 + block_idx as u64, block.as_slice());
        block_idx += 1;
    }
    assert(volume(*mgr) =~= formatted(v0, elf@));
}

// ---------------------------------------------------------------------------
// The mounted volume.

/// Where the volume lives and what has been done to it.
pub struct Ext2State {
    /// Raw id of the volume's block device (0 before `init`).
    pub device: u64,
    /// Non-zero once the volume is formatted.
    pub mounted: u64,
    pub writes: u64,
    pub creates: u64,
    pub unlinks: u64,
}

impl Ext2State {
    pub fn new() -> (r: Self)
        ensures
            r.device == 0 && r.mounted == 0 && r.writes == 0 && r.creates == 0 && r.unlinks == 0,
    {
        Ext2State { device: 0, mounted: 0, writes: 0, creates: 0, unlinks: 0 }
    }
}

pub fn is_mounted(st: &Ext2State) -> (r: bool)
    ensures
        r == (st.mounted != 0),
{
    st.mounted != 0
}

/// The volume's block device, once there is one.
pub fn device_id(st: &Ext2State) -> (r: Option<BlockDeviceId>)
    ensures
        st.device == 0 ==> r is None,
        st.device != 0 ==> r == Some(BlockDeviceId(st.device)),
{
    if st.device == 0 {
        None
    } else {
        Some(BlockDeviceId::from_raw(st.device))
    }
}

pub fn write_count(st: &Ext2State) -> (r: u64)
    ensures
        r == st.writes,
{
    st.writes
}

pub fn create_count(st: &Ext2State) -> (r: u64)
    ensures
        r == st.creates,
{
    st.creates
}

pub fn unlink_count(st: &Ext2State) -> (r: u64)
    ensures
        r == st.unlinks,
{
    st.unlinks
}

/// A volume of zero bytes, as a fresh memory device holds.
pub open spec fn fresh_volume() -> Seq<Seq<u8>> {
    Seq::new(TOTAL_BLOCKS as nat, |b: int| zero_bytes(1024))
}

/// The block manager with device `id` made the active one.
pub open spec fn selected(mgr: BlockManager, id: BlockDeviceId) -> BlockManager {
    BlockManager { active: Some(id), ..mgr }
}

/// The volume on device `id` is usable.
pub open spec fn device_ready(mgr: BlockManager, id: BlockDeviceId) -> bool {
    volume_ready(selected(mgr, id))
}

/// The volume on device `id`.
pub open spec fn device_volume(mgr: BlockManager, id: BlockDeviceId) -> Seq<Seq<u8>> {
    volume(selected(mgr, id))
}

/// Makes `id` the active device if its volume is usable; returns the device
/// that was active before.
fn select_device(mgr: &mut BlockManager, id: BlockDeviceId) -> (r: Result<Option<BlockDeviceId>, ()>)
    requires
        old(mgr).wf(),
    ensures
        r is Ok <==> device_ready(*old(mgr), id),
        r matches Ok(prev) ==> prev == old(mgr).active && *final(mgr) == selected(*old(mgr), id),
        r is Err ==> *final(mgr) == *old(mgr),
{
    let ghost m0 = *mgr;
    let prev = mgr.active;
    match block::set_active(mgr, id) {
        Ok(()) => {},
        Err(_) => {
            proof {
                reveal(BlockManager::index_of);
            }
            assert(*mgr == m0);
            return Err(());
        },
    }
    assert(*mgr == selected(m0, id));
    proof {
        block::lemma_index_of(&*mgr, id);
    }
    let count = block::active_sector_count(mgr);
    let info = block::active_info(mgr);
    proof {
        if mgr.active_index() is Some {
            let ai = mgr.active_index()->Some_0;
            assert(mgr.devices@[ai].media@.len() == mgr.devices@[ai].info.sector_count);
        }
    }
    let ok = match (count, info) {
        (Ok(c), Ok(i)) => c == TOTAL_BLOCKS * SECTORS_PER_BLOCK && !i.read_only,
        _ => false,
    };
    if !ok {
        mgr.active = prev;
        assert(*mgr == m0);
        return Err(());
    }
    Ok(prev)
}

/// `p` without its leading `/` characters, as bytes.
fn name_of(p: &str) -> (r: Vec<u8>)
    ensures
        r@ == strip_slashes(p.spec_bytes()),
{
    let b = p.as_bytes();
    let start = strip_slashes_exec(b);
    let mut out: Vec<u8> = Vec::new();
    let mut i = start;
    while i < b.len()
        invariant
            start <= i <= b@.len(),
            out@ == b@.subrange(start as int, i as int),
        decreases b@.len() - i,
    {
        out.push(b[i]);
        i += 1;
        assert(out@ =~= b@.subrange(start as int, i as int));
    }
    out
}

/// Formats the volume on a fresh 256-sector memory device, once. `true` when
/// the volume is mounted.
pub fn init(st: &mut Ext2State, mgr: &mut BlockManager, devs: &mut DeviceRegistry, elf: &[u8]) -> (r: bool)
    requires
        old(mgr).wf(),
    ensures
        final(mgr).wf(),
        old(st).mounted != 0 ==> r && *final(st) == *old(st) && *final(mgr) == *old(mgr),
        r ==> final(st).mounted != 0,
        old(st).mounted == 0 ==> final(mgr).active == (if old(mgr).active is None {
            Some(BlockDeviceId(old(mgr).next_id))
        } else {
            old(mgr).active
        }),
        old(st).mounted == 0 ==> final(st).device == old(mgr).next_id,
        old(st).mounted == 0 && (forall|j: int| 0 <= j < old(mgr).devices@.len() ==> (#[trigger] old(mgr).devices@[j]).info.id
            != BlockDeviceId(old(mgr).next_id)) ==> r && device_ready(*final(mgr), BlockDeviceId(old(mgr).next_id))
            && device_volume(*final(mgr), BlockDeviceId(old(mgr).next_id)) == formatted(fresh_volume(), elf@),
        final(st).writes == old(st).writes && final(st).creates == old(st).creates && final(st).unlinks == old(st).unlinks,
{
    if st.mounted != 0 {
        return true;
    }
    let ghost m0 = *mgr;
    let id = block::register_memory_fallback(mgr, devs, TOTAL_BLOCKS * SECTORS_PER_BLOCK);
    st.device = id.as_u64();
    let ghost m1 = *mgr;
    proof {
        if forall|j: int| 0 <= j < m0.devices@.len() ==> (#[trigger] m0.devices@[j]).info.id != BlockDeviceId(m0.next_id) {
            let last = m1.devices@.len() - 1;
            assert forall|j: int| 0 <= j < last implies (#[trigger] m1.devices@[j]).info.id != id by {
                assert(m1.devices@[j] == m0.devices@[j]);
            }
            block::lemma_index_of_first(&m1, id, last);
            assert(selected(m1, id).index_of(id) == m1.index_of(id)) by {
                reveal(BlockManager::index_of);
            }
            assert(volume(selected(m1, id)) =~= fresh_volume()) by {
                assert forall|b: int| 0 <= b < TOTAL_BLOCKS implies #[trigger] volume(selected(m1, id))[b] == zero_bytes(1024) by {
                    let m = m1.devices@[last].media@;
                    assert(block::is_zero_sector(m[2 * b]));
                    assert(block::is_zero_sector(m[2 * b + 1]));
                    assert(block_of(m, b) =~= zero_bytes(1024));
                }
            }
        }
    }
    let prev = match select_device(mgr, id) {
        Ok(p) => p,
        Err(()) => {
            return false;
        },
    };
    format_minimal(mgr, elf);
    let ghost m2 = *mgr;
    mgr.active = prev;
    proof {
        assert(selected(*mgr, id).index_of(id) == m1.index_of(id)) by {
            reveal(BlockManager::index_of);
        }
        assert(selected(*mgr, id) == m2);
    }
    st.mounted = 1;
    true
}

/// The device manager is as before but for the contents of device `id`'s volume.
pub open spec fn only_volume_changed(a: BlockManager, b: BlockManager, id: BlockDeviceId) -> bool {
    &&& b.active == a.active
    &&& same_but_active_media(selected(a, id), selected(b, id))
}

/// Reads file `path` (leading `/` ignored) from the root directory.
pub fn read_file(st: &Ext2State, mgr: &mut BlockManager, path: &str) -> (r: Result<Vec<u8>, ()>)
    requires
        old(mgr).wf(),
    ensures
        *final(mgr) == *old(mgr),
        r is Ok <==> st.mounted != 0 && st.device != 0 && device_ready(*old(mgr), BlockDeviceId(st.device))
            && volume_read(device_volume(*old(mgr), BlockDeviceId(st.device)), strip_slashes(path.spec_bytes())) is Some,
        r matches Ok(d) ==> d@ == volume_read(
            device_volume(*old(mgr), BlockDeviceId(st.device)),
            strip_slashes(path.spec_bytes()),
        )->Some_0,
{
    if st.mounted == 0 {
        return Err(());
    }
    let id = match device_id(st) {
        Some(i) => i,
        None => {
            return Err(());
        },
    };
    let ghost m0 = *mgr;
    let prev = select_device(mgr, id)?;
    let name = name_of(path);
    let r = read_file_inner(mgr, name.as_slice());
    mgr.active = prev;
    assert(*mgr == m0);
    r
}

/// The files `write_file` may overwrite.
pub open spec fn writable(name: Seq<u8>) -> bool {
    name == "smoke.txt".spec_bytes() || name == "scratch.txt".spec_bytes()
}

/// The files `create_file` may create and `unlink_file` may remove.
pub open spec fn scratch(name: Seq<u8>) -> bool {
    name == "scratch.txt".spec_bytes()
}

fn is_writable(name: &[u8]) -> (r: bool)
    ensures
        r == writable(name@),
{
    proof {
        assert(name@.subrange(0, name@.len() as int) =~= name@);
    }
    range_eq(name, 0, name.len(), "smoke.txt".as_bytes()) || range_eq(name, 0, name.len(), "scratch.txt".as_bytes())
}

fn is_scratch(name: &[u8]) -> (r: bool)
    ensures
        r == scratch(name@),
{
    proof {
        assert(name@.subrange(0, name@.len() as int) =~= name@);
    }
    range_eq(name, 0, name.len(), "scratch.txt".as_bytes())
}

/// Overwrites file `path` (`smoke.txt` or `scratch.txt` only) with `data`
/// (at most four blocks).
pub fn write_file(st: &mut Ext2State, mgr: &mut BlockManager, path: &str, data: &[u8]) -> (r: Result<(), ()>)
    requires
        old(mgr).wf(),
    ensures
        final(mgr).wf(),
        ({
            let id = BlockDeviceId(old(st).device);
            let name = strip_slashes(path.spec_bytes());
            let v0 = device_volume(*old(mgr), id);
            &&& (old(st).mounted == 0 || !writable(name) || data@.len() > MAX_FILE_BLOCKS * BLOCK_SIZE || old(st).device
                == 0 || !device_ready(*old(mgr), id)) ==> r is Err && *final(mgr) == *old(mgr)
            &&& device_ready(*old(mgr), id) ==> only_volume_changed(*old(mgr), *final(mgr), id)
            &&& r is Ok ==> old(st).mounted != 0 && writable(name) && regular_file_ino(v0, name) is Some && rewritten(
                v0,
                device_volume(*final(mgr), id),
                regular_file_ino(v0, name)->Some_0,
                data@,
            )
            &&& device_ready(*old(mgr), id) ==> device_ready(*final(mgr), id)
            &&& r is Ok && layout_ok(v0, regular_file_ino(v0, name)->Some_0) ==> volume_read(
                device_volume(*final(mgr), id),
                name,
            ) == Some(data@)
            &&& r is Ok && layout_ok(v0, regular_file_ino(v0, name)->Some_0) ==> forall|other: Seq<u8>|
                regular_file_ino(v0, other) is Some && regular_file_ino(v0, other) != regular_file_ino(v0, name)
                    && layout_keeps(v0, regular_file_ino(v0, name)->Some_0, regular_file_ino(v0, other)->Some_0)
                    ==> #[trigger] volume_read(device_volume(*final(mgr), id), other) == volume_read(v0, other)
            &&& r is Ok && layout_ok(v0, regular_file_ino(v0, name)->Some_0) ==> layout_ok(
                device_volume(*final(mgr), id),
                regular_file_ino(v0, name)->Some_0,
            )
            &&& r is Ok && layout_ok(v0, regular_file_ino(v0, name)->Some_0) ==> root_dir(device_volume(*final(mgr), id))
                == root_dir(v0)
            &&& r is Ok ==> forall|other: u32| files_apart(v0, regular_file_ino(v0, name)->Some_0, other) ==> #[trigger] files_apart(
                device_volume(*final(mgr), id),
                regular_file_ino(v0, name)->Some_0,
                other,
            )
            &&& (old(st).mounted != 0 && writable(name) && data@.len() <= MAX_FILE_BLOCKS * BLOCK_SIZE && old(st).device != 0
                && device_ready(*old(mgr), id) && regular_file_ino(v0, name) is Some && can_write(
                v0,
                regular_file_ino(v0, name)->Some_0,
                data@.len() as int,
            )) ==> r is Ok
            &&& final(st).writes == (if r is Ok { bumped(old(st).writes) } else { old(st).writes })
            &&& final(st).device == old(st).device && final(st).mounted == old(st).mounted
            &&& final(st).creates == old(st).creates && final(st).unlinks == old(st).unlinks
        }),
{
    if st.mounted == 0 {
        return Err(());
    }
    let name = name_of(path);
    if !is_writable(name.as_slice()) {
        return Err(());
    }
    if data.len() > BLOCK_SIZE * MAX_FILE_BLOCKS {
        return Err(());
    }
    let id = match device_id(st) {
        Some(i) => i,
        None => {
            return Err(());
        },
    };
    let prev = select_device(mgr, id)?;
    let r = write_file_inner(mgr, name.as_slice(), data);
    let ghost m2 = *mgr;
    mgr.active = prev;
    assert(selected(*mgr, id) == m2);
    assert(name@.len() > 0) by {
        reveal_strlit("smoke.txt");
        reveal_strlit("scratch.txt");
        vstd::string::is_ascii_spec_bytes("smoke.txt");
        vstd::string::is_ascii_spec_bytes("scratch.txt");
    }
    if r.is_err() {
        return Err(());
    }
    st.writes = bump(st.writes);
    Ok(())
}

/// Creates file `path` (`scratch.txt` only) in the root directory with content
/// `data` (at most four blocks).
pub fn create_file(st: &mut Ext2State, mgr: &mut BlockManager, path: &str, data: &[u8]) -> (r: Result<(), ()>)
    requires
        old(mgr).wf(),
    ensures
        final(mgr).wf(),
        ({
            let id = BlockDeviceId(old(st).device);
            let name = strip_slashes(path.spec_bytes());
            let v0 = device_volume(*old(mgr), id);
            &&& (old(st).mounted == 0 || !scratch(name) || data@.len() > MAX_FILE_BLOCKS * BLOCK_SIZE || old(st).device
                == 0 || !device_ready(*old(mgr), id)) ==> r is Err && *final(mgr) == *old(mgr)
            &&& device_ready(*old(mgr), id) ==> only_volume_changed(*old(mgr), *final(mgr), id)
            &&& r is Ok ==> old(st).mounted != 0 && scratch(name) && root_lookup(v0, name) == Some(None::<u32>)
                && (created_entry(v0, name) matches Some(c) && rewritten(c.0, device_volume(*final(mgr), id), c.1, data@)
                && (inode_mode(c.0, c.1) as u16) & 0xF000 == MODE_FILE)
            &&& r is Ok ==> (created_entry(v0, name) matches Some(c) && (layout_ok(c.0, c.1) && c.1 != ROOT_INO
                ==> layout_ok(device_volume(*final(mgr), id), c.1)))
            &&& final(st).creates == (if r is Ok { bumped(old(st).creates) } else { old(st).creates })
            &&& final(st).device == old(st).device && final(st).mounted == old(st).mounted
            &&& final(st).writes == old(st).writes && final(st).unlinks == old(st).unlinks
            &&& (old(st).mounted != 0 && scratch(name) && data@.len() <= MAX_FILE_BLOCKS * BLOCK_SIZE && old(st).device != 0
                && device_ready(*old(mgr), id) && root_lookup(v0, name) == Some(None::<u32>) && (created_entry(v0, name)
                matches Some(c) && can_write(c.0, c.1, data@.len() as int))) ==> r is Ok
        }),
{
    if st.mounted == 0 {
        return Err(());
    }
    let name = name_of(path);
    if !is_scratch(name.as_slice()) {
        return Err(());
    }
    assert(name@.len() > 0) by {
        reveal_strlit("scratch.txt");
        vstd::string::is_ascii_spec_bytes("scratch.txt");
    }
    if data.len() > BLOCK_SIZE * MAX_FILE_BLOCKS {
        return Err(());
    }
    let id = match device_id(st) {
        Some(i) => i,
        None => {
            return Err(());
        },
    };
    let prev = select_device(mgr, id)?;
    let r = create_file_inner(mgr, name.as_slice(), data);
    mgr.active = prev;
    if r.is_err() {
        return Err(());
    }
    st.creates = bump(st.creates);
    Ok(())
}

/// Removes file `path` (`scratch.txt` only) from the root directory and
/// releases its blocks and inode.
pub fn unlink_file(st: &mut Ext2State, mgr: &mut BlockManager, path: &str) -> (r: Result<(), ()>)
    requires
        old(mgr).wf(),
    ensures
        final(mgr).wf(),
        ({
            let id = BlockDeviceId(old(st).device);
            let name = strip_slashes(path.spec_bytes());
            let v0 = device_volume(*old(mgr), id);
            &&& (old(st).mounted == 0 || !scratch(name) || old(st).device == 0 || !device_ready(*old(mgr), id)) ==> r is Err
                && *final(mgr) == *old(mgr)
            &&& device_ready(*old(mgr), id) ==> only_volume_changed(*old(mgr), *final(mgr), id)
            &&& (old(st).mounted != 0 && scratch(name) && old(st).device != 0 && device_ready(*old(mgr), id)) ==> (r is Ok
                <==> unlinked(v0, name) is Some)
            &&& r is Ok ==> device_volume(*final(mgr), id) == unlinked(v0, name)->Some_0
            &&& r is Ok && unlink_layout(v0, name) ==> volume_read(device_volume(*final(mgr), id), name) is None
            &&& r is Ok ==> forall|other: u32| unlink_spares(v0, name, other) ==> #[trigger] layout_ok(
                device_volume(*final(mgr), id),
                other,
            )
            &&& final(st).unlinks == (if r is Ok { bumped(old(st).unlinks) } else { old(st).unlinks })
            &&& final(st).device == old(st).device && final(st).mounted == old(st).mounted
            &&& final(st).writes == old(st).writes && final(st).creates == old(st).creates
        }),
{
    if st.mounted == 0 {
        return Err(());
    }
    let name = name_of(path);
    if !is_scratch(name.as_slice()) {
        return Err(());
    }
    let id = match device_id(st) {
        Some(i) => i,
        None => {
            return Err(());
        },
    };
    let prev = select_device(mgr, id)?;
    let ghost m1 = *mgr;
    let ghost v0 = volume(*mgr);
    let r = unlink_file_inner(mgr, name.as_slice());
    proof {
        if r is Ok && unlink_layout(v0, name@) {
            lemma_volume_sized(m1);
            lemma_unlink_then_read(v0, name@);
        }
        if r is Ok {
            lemma_volume_sized(m1);
            assert forall|other: u32| unlink_spares(v0, name@, other) implies #[trigger] layout_ok(
                unlinked(v0, name@)->Some_0,
                other,
            ) by {
                lemma_unlink_keeps_layout(v0, name@, other);
            }
        }
    }
    mgr.active = prev;
    if r.is_err() {
        return Err(());
    }
    st.unlinks = bump(st.unlinks);
    Ok(())
}

/// Mounting formats a fresh device: the volume is not mounted yet, and the
/// next device id is non-zero and carried by no registered device.
pub open spec fn fresh_mount(st: Ext2State, mgr: BlockManager) -> bool {
    &&& st.mounted == 0
    &&& mgr.next_id != 0
    &&& forall|j: int| 0 <= j < mgr.devices@.len() ==> (#[trigger] mgr.devices@[j]).info.id != BlockDeviceId(mgr.next_id)
}

/// The first four bytes of every ELF image.
pub const ELF_MAGIC: [u8; 4] = [0x7f, 0x45, 0x4c, 0x46];

fn is_demo_elf(r: &Result<Vec<u8>, ()>) -> (ok: bool)
    ensures
        ok == (r matches Ok(b) && b@.len() > 256 && b@.subrange(0, 4) == ELF_MAGIC@),
{
    match r {
        Ok(b) => b.len() > 256 && bytes_starts_with(b.as_slice(), &ELF_MAGIC),
        Err(()) => false,
    }
}

/// Mounts the volume and reads back both seed files.
#[verifier::spinoff_prover]
#[verifier::rlimit(50)]
pub fn smoke_ext2_read(st: &mut Ext2State, mgr: &mut BlockManager, devs: &mut DeviceRegistry, elf: &[u8]) -> (r: bool)
    requires
        old(mgr).wf(),
    ensures
        final(mgr).wf(),
        r ==> final(st).mounted != 0,
        fresh_mount(*old(st), *old(mgr)) ==> r == (elf@.len() > 256 && elf@.subrange(0, 4) == ELF_MAGIC@),
{
    let ghost fresh = fresh_mount(*st, *mgr);
    let ghost id = BlockDeviceId(mgr.next_id);
    if !init(st, mgr, devs, elf) {
        return false;
    }
    proof {
        if fresh {
            lemma_smoke_name_bytes();
            lemma_formatted_smoke_file(fresh_volume(), elf@);
            lemma_formatted_elf_file(fresh_volume(), elf@);
            reveal_strlit("ext2 ok");
            vstd::string::is_ascii_spec_bytes("ext2 ok");
            assert("ext2 ok".spec_bytes() =~= seq![101u8, 120, 116, 50, 32, 111, 107]);
            assert(strip_slashes("smoke.txt".spec_bytes()) == "smoke.txt".spec_bytes());
            assert(strip_slashes("ring3-io-demo.elf".spec_bytes()) == "ring3-io-demo.elf".spec_bytes());
        }
    }
    let smoke = read_file(st, mgr, "smoke.txt");
    let smoke_ok = match &smoke {
        Ok(b) => bytes_starts_with(b.as_slice(), "ext2 ok".as_bytes()),
        Err(()) => false,
    };
    proof {
        if fresh {
            assert("ext2 ok\n".spec_bytes().subrange(0, 7) =~= "ext2 ok".spec_bytes());
            assert(smoke_ok);
        }
    }
    let elf_ok = is_demo_elf(&read_file(st, mgr, "ring3-io-demo.elf"));
    proof {
        if fresh {
            let size: int = if elf@.len() < 4096 { elf@.len() as int } else { 4096 };
            if size >= 4 {
                assert(elf@.subrange(0, size).subrange(0, 4) =~= elf@.subrange(0, 4));
            }
        }
    }
    smoke_ok && elf_ok
}

/// Overwrites `smoke.txt`, checks the write reads back, that the ELF may not be
/// overwritten and stays intact.
#[verifier::spinoff_prover]
#[verifier::rlimit(80)]
pub fn smoke_ext2_write(st: &mut Ext2State, mgr: &mut BlockManager, devs: &mut DeviceRegistry, elf: &[u8]) -> (r: bool)
    requires
        old(mgr).wf(),
    ensures
        final(mgr).wf(),
        r ==> final(st).mounted != 0 && final(st).writes != 0,
        fresh_mount(*old(st), *old(mgr)) && old(st).writes < u64::MAX ==> r == (elf@.len() > 256 && elf@.subrange(0, 4)
            == ELF_MAGIC@),
{
    let ghost fresh = fresh_mount(*st, *mgr) && st.writes < u64::MAX;
    let ghost id = BlockDeviceId(mgr.next_id);
    if !init(st, mgr, devs, elf) {
        return false;
    }
    let ghost f = device_volume(*mgr, id);
    proof {
        if fresh {
            lemma_smoke_name_bytes();
            lemma_formatted_layout(fresh_volume(), elf@);
            lemma_formatted_elf_file(fresh_volume(), elf@);
            reveal_strlit("scratch.txt");
            vstd::string::is_ascii_spec_bytes("scratch.txt");
            assert(strip_slashes("smoke.txt".spec_bytes()) == "smoke.txt".spec_bytes());
            assert(strip_slashes("ring3-io-demo.elf".spec_bytes()) == "ring3-io-demo.elf".spec_bytes());
            assert(!writable("ring3-io-demo.elf".spec_bytes()));
            assert(writable("smoke.txt".spec_bytes()));
            assert(lead_nonzero(inode_blocks(f, FILE_INO), 0) == 1) by {
                reveal_with_fuel(lead_nonzero, 3);
            }
            assert(fits_in_place(f, FILE_INO, 8));
        }
    }
    let bad = [0x62u8, 0x61, 0x64];
    let reject_elf = write_file(st, mgr, "ring3-io-demo.elf", &bad).is_err();
    let data = "ext2 wr\n".as_bytes();
    proof {
        reveal_strlit("ext2 wr\n");
        vstd::string::is_ascii_spec_bytes("ext2 wr\n");
        assert(data@.len() == 8);
    }
    let wrote = write_file(st, mgr, "smoke.txt", data).is_ok();
    let ghost g = device_volume(*mgr, id);
    proof {
        if fresh {
            let ids = inode_blocks(g, FILE_INO);
            assert(wrote);
            assert(rewritten(f, g, FILE_INO, data@));
            assert(blocks_needed(8) == 1);
            assert(ids[0] == 11);
            assert(apart(ids, 1, FILE_INO));
            assert(root_kept(f, FILE_INO, ids, 1)) by {
                assert forall|k: int| 0 <= k < 12 && #[trigger] inode_blocks(f, ROOT_INO)[k] != 0 implies k == 0 by {}
                assert(!among(ids, 1, 10)) by {
                    if among(ids, 1, 10) {
                        let w = choose|w: int| 0 <= w < 1 && ids[w] as int == 10;
                        assert(w == 0);
                    }
                }
                assert(!among(ids, 1, inode_block(ROOT_INO))) by {
                    if among(ids, 1, inode_block(ROOT_INO)) {
                        let w = choose|w: int| 0 <= w < 1 && ids[w] as int == inode_block(ROOT_INO);
                        assert(w == 0);
                    }
                }
            }
            lemma_write_then_read(f, g, "smoke.txt".spec_bytes(), data@);
            assert(file_kept(f, FILE_INO, ids, 1, ELF_INO)) by {
                assert forall|b: int| #[trigger] among(ids, 1, b) implies b == 11 by {
                    let w = choose|w: int| 0 <= w < 1 && ids[w] as int == b;
                    assert(w == 0);
                }
            }
            lemma_write_keeps_other(f, g, "smoke.txt".spec_bytes(), data@, "ring3-io-demo.elf".spec_bytes());
        }
    }
    let read_back = match read_file(st, mgr, "smoke.txt") {
        Ok(b) => bytes_eq(b.as_slice(), data),
        Err(()) => false,
    };
    let elf_intact = is_demo_elf(&read_file(st, mgr, "ring3-io-demo.elf"));
    proof {
        if fresh {
            let size: int = if elf@.len() < 4096 { elf@.len() as int } else { 4096 };
            if size >= 4 {
                assert(elf@.subrange(0, size).subrange(0, 4) =~= elf@.subrange(0, 4));
            }
        }
    }
    reject_elf && wrote && read_back && elf_intact && write_count(st) > 0
}

/// Creates `scratch.txt`, grows it past one block, unlinks it, and checks the
/// seed files are protected.
#[verifier::spinoff_prover]
#[verifier::rlimit(50)]
pub fn smoke_ext2_create_unlink(st: &mut Ext2State, mgr: &mut BlockManager, devs: &mut DeviceRegistry, elf: &[u8]) -> (r: bool)
    requires
        old(mgr).wf(),
    ensures
        final(mgr).wf(),
        r ==> final(st).mounted != 0 && final(st).creates != 0 && final(st).unlinks != 0,
{
    if !init(st, mgr, devs, elf) {
        return false;
    }
    let absent = read_file(st, mgr, "scratch.txt").is_err();
    let created = create_file(st, mgr, "scratch.txt", "new file\n".as_bytes()).is_ok();
    let read_ok = match read_file(st, mgr, "scratch.txt") {
        Ok(b) => bytes_eq(b.as_slice(), "new file\n".as_bytes()),
        Err(()) => false,
    };
    let mut big: Vec<u8> = Vec::new();
    let mut i: usize = 0;
    while i < BLOCK_SIZE + 512
        invariant
            i <= BLOCK_SIZE + 512,
            big@.len() == i,
        decreases BLOCK_SIZE + 512 - i,
    {
        big.push(0x58);
        i += 1;
    }
    let grew = write_file(st, mgr, "scratch.txt", big.as_slice()).is_ok();
    let big_read = match read_file(st, mgr, "scratch.txt") {
        Ok(b) => b.len() == BLOCK_SIZE + 512,
        Err(()) => false,
    };
    let unlinked = unlink_file(st, mgr, "scratch.txt").is_ok();
    let gone = read_file(st, mgr, "scratch.txt").is_err();
    let protect_smoke = unlink_file(st, mgr, "smoke.txt").is_err();
    let protect_elf = unlink_file(st, mgr, "ring3-io-demo.elf").is_err();
    let smoke_intact = match read_file(st, mgr, "smoke.txt") {
        Ok(b) => b.len() != 0,
        Err(()) => false,
    };
    absent && created && read_ok && grew && big_read && unlinked && gone && protect_smoke && protect_elf
        && smoke_intact && create_count(st) > 0 && unlink_count(st) > 0
}

// ---------------------------------------------------------------------------
// Reading back a rewrite.

/// Reading with pointers that lead to the same bytes in both volumes gives
/// the same content.
proof fn lemma_file_bytes_same(v: Seq<Seq<u8>>, w: Seq<Seq<u8>>, bl: Seq<u32>, k: int, rem: int)
    requires
        forall|j: int| k <= j < bl.len() && bl[j] != 0 && bl[j] < TOTAL_BLOCKS ==> v[bl[j] as int] == w[bl[j] as int],
    ensures
        file_bytes(v, bl, k, rem) == file_bytes(w, bl, k, rem),
    decreases bl.len() - k,
{
    if !(k < 0 || k >= bl.len() || rem <= 0 || bl[k] == 0) && bl[k] < TOTAL_BLOCKS {
        let take = if rem < BLOCK_SIZE { rem } else { BLOCK_SIZE as int };
        lemma_file_bytes_same(v, w, bl, k + 1, rem - take);
    }
}

proof fn lemma_blocks_needed(len: int, k: int)
    requires
        0 <= k < blocks_needed(len),
    ensures
        k * 1024 < len,
        (k + 1 == blocks_needed(len)) ==> len - k * 1024 <= 1024,
        (k + 1 < blocks_needed(len)) ==> len - k * 1024 > 1024,
{
    assert(len > 0);
    let q = (len - 1) / 1024;
    assert(k <= q);
    assert(k * 1024 <= q * 1024) by (nonlinear_arith)
        requires k <= q;
    assert(q * 1024 <= len - 1) by (nonlinear_arith)
        requires q == (len - 1) / 1024, len >= 1;
    if k + 1 == q + 1 {
        assert(len - 1 < (q + 1) * 1024) by (nonlinear_arith)
            requires q == (len - 1) / 1024, len >= 1;
    } else {
        assert((k + 1) * 1024 <= q * 1024) by (nonlinear_arith)
            requires k + 1 <= q;
    }
}

/// The content blocks of a rewritten file read back as its data.
proof fn lemma_file_bytes_chunks(v: Seq<Seq<u8>>, bl: Seq<u32>, data: Seq<u8>, k: int)
    requires
        bl.len() == 12,
        blocks_needed(data.len() as int) <= MAX_FILE_BLOCKS,
        0 <= k <= blocks_needed(data.len() as int),
        forall|i: int| 0 <= i < blocks_needed(data.len() as int) ==> 0 < #[trigger] bl[i] < TOTAL_BLOCKS,
        forall|i: int| 0 <= i < blocks_needed(data.len() as int) ==> v[#[trigger] bl[i] as int] == chunk(data, i),
    ensures
        file_bytes(v, bl, k, data.len() - k * 1024) == Some(
            data.subrange(if k * 1024 < data.len() { k * 1024 } else { data.len() as int }, data.len() as int),
        ),
    decreases blocks_needed(data.len() as int) - k,
{
    let n = blocks_needed(data.len() as int);
    let len = data.len() as int;
    if k == n {
        if n > 0 {
            lemma_blocks_needed(len, n - 1);
        }
        assert(len - k * 1024 <= 0);
        assert(data.subrange(len, len) =~= Seq::new(0, |i: int| 0u8));
    } else {
        lemma_blocks_needed(len, k);
        let rem = len - k * 1024;
        let take = if rem < BLOCK_SIZE { rem } else { BLOCK_SIZE as int };
        lemma_file_bytes_chunks(v, bl, data, k + 1);
        if k + 1 == n {
            assert(take == rem);
            assert(len - (k + 1) * 1024 <= 0);
        } else {
            assert(take == 1024);
            assert((k + 1) * 1024 < len);
        }
        let rest = data.subrange(if (k + 1) * 1024 < len { (k + 1) * 1024 } else { len }, len);
        assert(file_bytes(v, bl, k + 1, rem - take) == Some(rest));
        assert(v[bl[k] as int].subrange(0, take) =~= data.subrange(k * 1024, k * 1024 + take));
        assert(data.subrange(k * 1024, k * 1024 + take) + rest =~= data.subrange(k * 1024, len));
    }
}

/// Neither the block bitmap, nor the block of inode `ino`, nor any of the
/// first `n` pointers of `ids` holds the root directory's inode or one of its
/// blocks.
pub open spec fn root_kept(v: Seq<Seq<u8>>, ino: u32, ids: Seq<u32>, n: int) -> bool {
    let rb = inode_block(ROOT_INO);
    let root_bl = inode_blocks(v, ROOT_INO);
    &&& rb != BLOCK_BITMAP_BLOCK && !among(ids, n, rb)
    &&& forall|k: int|
        0 <= k < 12 && #[trigger] root_bl[k] != 0 ==> root_bl[k] != BLOCK_BITMAP_BLOCK && root_bl[k] != inode_block(ino)
            && !among(ids, n, root_bl[k] as int)
}

/// Rewriting a file and reading it back: once regular file `name` of volume
/// `v0` is rewritten to `data`, reading `name` from the new volume gives
/// `data`, provided the new content blocks are `apart` and the root
/// directory's inode and blocks are left alone (`root_kept`).
pub proof fn lemma_write_then_read(v0: Seq<Seq<u8>>, fin: Seq<Seq<u8>>, name: Seq<u8>, data: Seq<u8>)
    requires
        v0.len() == TOTAL_BLOCKS,
        blocks_sized(v0),
        name.len() > 0,
        regular_file_ino(v0, name) is Some,
        rewritten(v0, fin, regular_file_ino(v0, name)->Some_0, data),
        apart(
            inode_blocks(fin, regular_file_ino(v0, name)->Some_0),
            blocks_needed(data.len() as int),
            regular_file_ino(v0, name)->Some_0,
        ),
        blocks_needed(data.len() as int) <= MAX_FILE_BLOCKS,
        root_kept(
            v0,
            regular_file_ino(v0, name)->Some_0,
            inode_blocks(fin, regular_file_ino(v0, name)->Some_0),
            blocks_needed(data.len() as int),
        ),
    ensures
        volume_read(fin, name) == Some(data),
{
    let ino = regular_file_ino(v0, name)->Some_0;
    let ids = inode_blocks(fin, ino);
    let n = blocks_needed(data.len() as int);
    let rb = inode_block(ROOT_INO);
    let dir = root_dir(v0)->Some_0;
    assert(root_dir(v0) is Some);
    assert(dir_lookup(dir, name, 0) == Some(ino));
    lemma_inode_place(ino);
    lemma_inode_place(ROOT_INO);
    assert(rb == 5 && inode_offset(ROOT_INO) == 128);
    // The file is not the root directory: their modes differ.
    assert(ino != ROOT_INO) by {
        if ino == ROOT_INO {
            let m = inode_mode(v0, ino) as u16;
            assert(m & 0xF000u16 == 0x4000u16 && m & 0xF000u16 == 0x8000u16);
        }
    }
    // The root inode's bytes are the same in both volumes.
    if rb != inode_block(ino) {
        assert(fin[rb] == v0[rb]);
    } else {
        assert(inode_block(ino) == 5);
        assert(((ino - 1) * 128) / 1024 == 0);
        assert((ino - 1) * 128 < 1024);
        assert(inode_offset(ino) == (ino - 1) * 128);
        assert(inode_offset(ino) != 128);
        assert(inode_offset(ino) + 128 <= 128 || inode_offset(ino) >= 256) by (nonlinear_arith)
            requires inode_offset(ino) == (ino - 1) * 128, ino != 2, ino >= 1;
        assert forall|j: int| 128 <= j < 256 implies fin[rb][j] == v0[rb][j] by {}
    }
    assert(inode_mode(fin, ROOT_INO) == inode_mode(v0, ROOT_INO));
    assert(inode_size(fin, ROOT_INO) == inode_size(v0, ROOT_INO));
    assert(inode_blocks(fin, ROOT_INO) =~= inode_blocks(v0, ROOT_INO));
    // The root directory's entries are the same.
    let root_bl = inode_blocks(v0, ROOT_INO);
    assert forall|j: int| 0 <= j < root_bl.len() && root_bl[j] != 0 && root_bl[j] < TOTAL_BLOCKS implies fin[root_bl[j] as int]
        == v0[root_bl[j] as int] by {
        assert(root_bl[j] != BLOCK_BITMAP_BLOCK && root_bl[j] != inode_block(ino) && !among(ids, n, root_bl[j] as int));
    }
    lemma_file_bytes_same(fin, v0, root_bl, 0, inode_size(v0, ROOT_INO));
    assert(root_dir(fin) == root_dir(v0));
    // The file's content reads back.
    assert(((inode_mode(fin, ino) as u16) & 0xF000) == MODE_FILE) by {
        assert(inode_mode(fin, ino) == 0x8000);
        assert((0x8000u16 & 0xF000u16) == 0x8000u16) by (bit_vector);
    }
    lemma_file_bytes_chunks(fin, ids, data, 0);
    assert(data.subrange(0, data.len() as int) =~= data);
}

// ---------------------------------------------------------------------------
// A freshly formatted volume.

proof fn lemma_smoke_name_bytes()
    ensures
        "smoke.txt".spec_bytes() == seq![115u8, 109, 111, 107, 101, 46, 116, 120, 116],
        "ext2 ok\n".spec_bytes() == seq![101u8, 120, 116, 50, 32, 111, 107, 10],
        "ring3-io-demo.elf".spec_bytes() == seq![114u8, 105, 110, 103, 51, 45, 105, 111, 45, 100, 101, 109, 111, 46, 101, 108, 102],
{
    reveal_strlit("smoke.txt");
    reveal_strlit("ext2 ok\n");
    reveal_strlit("ring3-io-demo.elf");
    vstd::string::is_ascii_spec_bytes("ring3-io-demo.elf");
    assert("ring3-io-demo.elf".spec_bytes() =~= seq![114u8, 105, 110, 103, 51, 45, 105, 111, 45, 100, 101, 109, 111, 46, 101, 108, 102]);
    vstd::string::is_ascii_spec_bytes("smoke.txt");
    vstd::string::is_ascii_spec_bytes("ext2 ok\n");
    assert("smoke.txt".spec_bytes() =~= seq![115u8, 109, 111, 107, 101, 46, 116, 120, 116]);
    assert("ext2 ok\n".spec_bytes() =~= seq![101u8, 120, 116, 50, 32, 111, 107, 10]);
}

/// A freshly formatted volume reads back `smoke.txt` as `ext2 ok\n`.
pub proof fn lemma_formatted_smoke_file(v: Seq<Seq<u8>>, elf: Seq<u8>)
    requires
        v.len() == TOTAL_BLOCKS,
        blocks_sized(v),
    ensures
        volume_read(formatted(v, elf), "smoke.txt".spec_bytes()) == Some("ext2 ok\n".spec_bytes()),
        root_lookup(formatted(v, elf), "smoke.txt".spec_bytes()) == Some(Some(FILE_INO)),
{
    lemma_smoke_name_bytes();
    let f = formatted(v, elf);
    let name = "smoke.txt".spec_bytes();
    assert(f.len() == TOTAL_BLOCKS);
    // The root inode.
    let rii = root_inode_image();
    assert(rii.len() == 128);
    assert(f[5] == splice(v[5], 128, rii));
    assert(f[5][128] == rii[0] && f[5][129] == rii[1]);
    assert(rii[0] == 0 && rii[1] == 0x40);
    assert(inode_mode(f, ROOT_INO) == 0x4000);
    assert((0x4000u16 & 0xF000u16) == 0x4000u16) by (bit_vector);
    assert(rii[4] == 48 && rii[5] == 0 && rii[6] == 0 && rii[7] == 0);
    assert(inode_size(f, ROOT_INO) == 48);
    let rbl = inode_blocks(f, ROOT_INO);
    assert(rii[40] == 10 && rii[41] == 0 && rii[42] == 0 && rii[43] == 0);
    assert(rbl[0] == 10);
    assert(rii[44] == 0 && rii[45] == 0 && rii[46] == 0 && rii[47] == 0);
    assert(rbl[1] == 0);
    // The root directory's entries.
    let rdi = root_dir_image();
    assert(f[10] == rdi);
    assert(file_bytes(f, rbl, 1, 0) == Some(Seq::new(0, |i: int| 0u8)));
    let dir = root_dir(f)->Some_0;
    assert(dir =~= rdi.subrange(0, 48) + Seq::new(0, |i: int| 0u8));
    assert(rdi.len() == 1024);
    assert(rdi[4] == 20 && rdi[5] == 0 && rdi[6] == 9);
    assert(dir.subrange(8, 17) =~= name);
    assert(dir_entry_off(dir, name, 0) == Some(0int));
    assert(rdi[0] == 12 && rdi[1] == 0 && rdi[2] == 0 && rdi[3] == 0);
    assert(dir_lookup(dir, name, 0) == Some(FILE_INO));
    // The file's inode and content.
    assert(inode_block(FILE_INO) == 6 && inode_offset(FILE_INO) == 384);
    let sii = smoke_inode_image();
    let eii = elf_inode_image(elf.len() as int);
    assert(f[6] == splice(splice(v[6], 384, sii), 512, eii));
    assert(sii[0] == 0 && sii[1] == 0x80);
    assert(inode_mode(f, FILE_INO) == 0x8000);
    assert((0x8000u16 & 0xF000u16) == 0x8000u16) by (bit_vector);
    assert(sii[4] == 8 && sii[5] == 0 && sii[6] == 0 && sii[7] == 0);
    assert(inode_size(f, FILE_INO) == 8);
    let fbl = inode_blocks(f, FILE_INO);
    assert(sii[40] == 11 && sii[41] == 0 && sii[42] == 0 && sii[43] == 0);
    assert(fbl[0] == 11);
    assert(sii[44] == 0 && sii[45] == 0 && sii[46] == 0 && sii[47] == 0);
    assert(fbl[1] == 0);
    assert(f[11] == smoke_data_image());
    assert(file_bytes(f, fbl, 1, 0) == Some(Seq::new(0, |i: int| 0u8)));
    assert(smoke_data_image().subrange(0, 8) =~= "ext2 ok\n".spec_bytes());
    assert(file_bytes(f, fbl, 0, 8) == Some(smoke_data_image().subrange(0, 8) + Seq::new(0, |i: int| 0u8)));
    assert(smoke_data_image().subrange(0, 8) + Seq::new(0, |i: int| 0u8) =~= "ext2 ok\n".spec_bytes());
}

/// A freshly formatted volume reads back `ring3-io-demo.elf` as the first
/// four blocks of the demo ELF.
pub proof fn lemma_formatted_elf_file(v: Seq<Seq<u8>>, elf: Seq<u8>)
    requires
        v.len() == TOTAL_BLOCKS,
        blocks_sized(v),
    ensures
        volume_read(formatted(v, elf), "ring3-io-demo.elf".spec_bytes()) == Some(
            elf.subrange(0, if elf.len() < 4096 { elf.len() as int } else { 4096 }),
        ),
        root_lookup(formatted(v, elf), "ring3-io-demo.elf".spec_bytes()) == Some(Some(ELF_INO)),
{
    lemma_smoke_name_bytes();
    let f = formatted(v, elf);
    let name = "ring3-io-demo.elf".spec_bytes();
    let size: int = if elf.len() < 4096 { elf.len() as int } else { 4096 };
    let data = elf.subrange(0, size);
    // The root directory, as for `smoke.txt`.
    let rii = root_inode_image();
    assert(f[5] == splice(v[5], 128, rii));
    assert(f[5][128] == rii[0] && f[5][129] == rii[1]);
    assert(inode_mode(f, ROOT_INO) == 0x4000);
    assert((0x4000u16 & 0xF000u16) == 0x4000u16) by (bit_vector);
    assert(inode_size(f, ROOT_INO) == 48);
    let rbl = inode_blocks(f, ROOT_INO);
    assert(rbl[0] == 10);
    assert(rbl[1] == 0);
    let rdi = root_dir_image();
    assert(f[10] == rdi);
    assert(file_bytes(f, rbl, 1, 0) == Some(Seq::new(0, |i: int| 0u8)));
    let dir = root_dir(f)->Some_0;
    assert(dir =~= rdi.subrange(0, 48) + Seq::new(0, |i: int| 0u8));
    // The first entry is `smoke.txt`; the second is the ELF.
    assert(rdi[4] == 20 && rdi[5] == 0 && rdi[6] == 9);
    assert(dir.subrange(8, 17).len() != name.len());
    assert(rdi[24] == 28 && rdi[25] == 0 && rdi[26] == 17);
    assert(dir.subrange(28, 45) =~= name);
    assert(dir_entry_off(dir, name, 20) == Some(20int));
    assert(dir_entry_off(dir, name, 0) == Some(20int));
    assert(rdi[20] == 13 && rdi[21] == 0 && rdi[22] == 0 && rdi[23] == 0);
    assert(dir_lookup(dir, name, 0) == Some(ELF_INO));
    // The ELF's inode.
    assert(inode_block(ELF_INO) == 6 && inode_offset(ELF_INO) == 512);
    let eii = elf_inode_image(elf.len() as int);
    let base = put32(put16(zero_bytes(128), 0x00, MODE_FILE), 0x04, size as u32);
    lemma_put32s(base, 40, seq![12u32, 13u32, 14u32, 15u32]);
    assert(eii.len() == 128);
    assert(f[6] == splice(splice(v[6], 384, smoke_inode_image()), 512, eii));
    assert(eii[0] == 0 && eii[1] == 0x80);
    assert(inode_mode(f, ELF_INO) == 0x8000);
    assert((0x8000u16 & 0xF000u16) == 0x8000u16) by (bit_vector);
    lemma_le32_put32(put16(zero_bytes(128), 0x00, MODE_FILE), 0x04, size as u32);
    assert(eii[4] == base[4] && eii[5] == base[5] && eii[6] == base[6] && eii[7] == base[7]);
    assert(inode_size(f, ELF_INO) == size);
    let ebl = inode_blocks(f, ELF_INO);
    assert forall|k: int| 0 <= k < 4 implies #[trigger] ebl[k] == 12 + k by {
        assert(le32(eii, 40 + 4 * k) == seq![12u32, 13u32, 14u32, 15u32][k]);
    }
    // The content blocks hold the ELF's first four blocks.
    assert(blocks_needed(size) <= MAX_FILE_BLOCKS) by {
        if size > 0 {
            assert((size - 1) / 1024 <= 3);
        }
    }
    assert forall|i: int| 0 <= i < blocks_needed(size) implies 0 < #[trigger] ebl[i] < TOTAL_BLOCKS by {}
    assert forall|i: int| 0 <= i < blocks_needed(size) implies f[#[trigger] ebl[i] as int] == chunk(data, i) by {
        assert(f[12 + i] == chunk(elf, i));
        assert(chunk(elf, i) =~= chunk(data, i));
    }
    lemma_file_bytes_chunks(f, ebl, data, 0);
    assert(data.subrange(0, data.len() as int) =~= data);
}

/// Two inodes sharing a table block occupy disjoint 128-byte slots.
proof fn lemma_inode_slots_disjoint(a: u32, b: u32)
    requires
        a != 0,
        b != 0,
        a != b,
        inode_block(a) == inode_block(b),
    ensures
        inode_offset(a) + 128 <= inode_offset(b) || inode_offset(b) + 128 <= inode_offset(a),
{
    let x = (a - 1) * 128;
    let y = (b - 1) * 128;
    assert(x / 1024 == y / 1024);
    assert(x != y);
    assert(x % 128 == 0 && y % 128 == 0) by (nonlinear_arith)
        requires x == (a - 1) * 128, y == (b - 1) * 128, a >= 1, b >= 1;
    assert(x % 1024 != y % 1024) by (nonlinear_arith)
        requires x / 1024 == y / 1024, x != y, x >= 0, y >= 0;
    assert((x % 1024) % 128 == 0 && (y % 1024) % 128 == 0) by (nonlinear_arith)
        requires x % 128 == 0, y % 128 == 0, x >= 0, y >= 0;
    let p = x % 1024;
    let q = y % 1024;
    assert(p + 128 <= q || q + 128 <= p) by (nonlinear_arith)
        requires p % 128 == 0, q % 128 == 0, p != q, p >= 0, q >= 0;
}

/// Neither the block bitmap, nor the block of inode `ino`, nor any of the
/// first `n` pointers of `ids` holds inode `other` or one of its blocks.
pub open spec fn file_kept(v: Seq<Seq<u8>>, ino: u32, ids: Seq<u32>, n: int, other: u32) -> bool {
    let ob = inode_block(other);
    let obl = inode_blocks(v, other);
    &&& ob != BLOCK_BITMAP_BLOCK && !among(ids, n, ob)
    &&& forall|k: int|
        0 <= k < 12 && #[trigger] obl[k] != 0 ==> obl[k] != BLOCK_BITMAP_BLOCK && obl[k] != inode_block(ino)
            && !among(ids, n, obl[k] as int)
}

/// A rewrite that keeps another inode's slot and blocks keeps that inode.
proof fn lemma_rewrite_keeps_inode(v0: Seq<Seq<u8>>, fin: Seq<Seq<u8>>, ino: u32, data: Seq<u8>, other: u32)
    requires
        v0.len() == TOTAL_BLOCKS,
        blocks_sized(v0),
        rewritten(v0, fin, ino, data),
        inode_on_volume(other),
        other != ino,
        file_kept(v0, ino, inode_blocks(fin, ino), blocks_needed(data.len() as int), other),
    ensures
        inode_mode(fin, other) == inode_mode(v0, other),
        inode_size(fin, other) == inode_size(v0, other),
        inode_blocks(fin, other) == inode_blocks(v0, other),
        forall|r: int| file_bytes(fin, inode_blocks(v0, other), 0, r) == file_bytes(v0, inode_blocks(v0, other), 0, r),
{
    let ob = inode_block(other);
    lemma_inode_place(other);
    lemma_inode_place(ino);
    let off = inode_offset(other);
    if ob != inode_block(ino) {
        assert(fin[ob] == v0[ob]);
    } else {
        lemma_inode_slots_disjoint(ino, other);
        assert forall|j: int| off <= j < off + 128 implies fin[ob][j] == v0[ob][j] by {}
    }
    assert(inode_blocks(fin, other) =~= inode_blocks(v0, other));
    let obl = inode_blocks(v0, other);
    let ids = inode_blocks(fin, ino);
    let n = blocks_needed(data.len() as int);
    assert forall|j: int| 0 <= j < obl.len() && obl[j] != 0 && obl[j] < TOTAL_BLOCKS implies fin[obl[j] as int] == v0[obl[j] as int] by {
        assert(obl[j] != BLOCK_BITMAP_BLOCK && obl[j] != inode_block(ino) && !among(ids, n, obl[j] as int));
    }
    assert forall|r: int| file_bytes(fin, obl, 0, r) == file_bytes(v0, obl, 0, r) by {
        lemma_file_bytes_same(fin, v0, obl, 0, r);
    }
}

/// A rewrite leaves other files alone: once regular file `name` is rewritten
/// to `data`, reading another file `other` gives what it gave before,
/// provided the root directory and `other`'s inode and blocks are left alone.
pub proof fn lemma_write_keeps_other(v0: Seq<Seq<u8>>, fin: Seq<Seq<u8>>, name: Seq<u8>, data: Seq<u8>, other: Seq<u8>)
    requires
        v0.len() == TOTAL_BLOCKS,
        blocks_sized(v0),
        regular_file_ino(v0, name) is Some,
        rewritten(v0, fin, regular_file_ino(v0, name)->Some_0, data),
        root_kept(
            v0,
            regular_file_ino(v0, name)->Some_0,
            inode_blocks(fin, regular_file_ino(v0, name)->Some_0),
            blocks_needed(data.len() as int),
        ),
        regular_file_ino(v0, other) is Some,
        regular_file_ino(v0, other) != regular_file_ino(v0, name),
        file_kept(
            v0,
            regular_file_ino(v0, name)->Some_0,
            inode_blocks(fin, regular_file_ino(v0, name)->Some_0),
            blocks_needed(data.len() as int),
            regular_file_ino(v0, other)->Some_0,
        ),
    ensures
        volume_read(fin, other) == volume_read(v0, other),
{
    let ino = regular_file_ino(v0, name)->Some_0;
    let o = regular_file_ino(v0, other)->Some_0;
    let ids = inode_blocks(fin, ino);
    let n = blocks_needed(data.len() as int);
    assert(root_dir(v0) is Some);
    assert(ino != ROOT_INO) by {
        if ino == ROOT_INO {
            let m = inode_mode(v0, ino) as u16;
            assert(m & 0xF000u16 == 0x4000u16 && m & 0xF000u16 == 0x8000u16);
        }
    }
    // The root directory is the same.
    assert(file_kept(v0, ino, ids, n, ROOT_INO));
    lemma_rewrite_keeps_inode(v0, fin, ino, data, ROOT_INO);
    assert(root_dir(fin) == root_dir(v0));
    // `other`'s inode and content are the same.
    lemma_rewrite_keeps_inode(v0, fin, ino, data, o);
}

/// A run of non-zero pointers from `k` up to `n`, then zeros: the first zero
/// from `k` on is at `n`.
proof fn lemma_lead_nonzero_at(bl: Seq<u32>, k: int, n: int)
    requires
        0 <= k <= n < bl.len(),
        forall|j: int| k <= j < n ==> #[trigger] bl[j] != 0,
        bl[n] == 0,
    ensures
        lead_nonzero(bl, k) == n,
    decreases n - k,
{
    if k < n {
        lemma_lead_nonzero_at(bl, k + 1, n);
    }
}

/// A rewrite keeps the bookkeeping writes rely on: once regular file `ino`
/// of a volume that has it (`layout_ok`) is rewritten to `data` with its new
/// blocks `apart`, the root directory left alone (`root_kept`) and the
/// bitmap updated as `bitmap_rewritten` says, the new volume has it too.
pub proof fn lemma_rewrite_keeps_layout(v0: Seq<Seq<u8>>, fin: Seq<Seq<u8>>, ino: u32, data: Seq<u8>)
    requires
        v0.len() == TOTAL_BLOCKS,
        blocks_sized(v0),
        ino != ROOT_INO,
        blocks_needed(data.len() as int) <= MAX_FILE_BLOCKS,
        layout_ok(v0, ino),
        rewritten(v0, fin, ino, data),
        apart(inode_blocks(fin, ino), blocks_needed(data.len() as int), ino),
        root_kept(v0, ino, inode_blocks(fin, ino), blocks_needed(data.len() as int)),
        bitmap_rewritten(v0, fin, ino, blocks_needed(data.len() as int)),
    ensures
        layout_ok(fin, ino),
{
    let n = blocks_needed(data.len() as int);
    let old_bl = inode_blocks(v0, ino);
    let u = lead_nonzero(old_bl, 0);
    let ids = inode_blocks(fin, ino);
    let bm0 = v0[BLOCK_BITMAP_BLOCK as int];
    let bm = fin[BLOCK_BITMAP_BLOCK as int];
    let rb = inode_block(ROOT_INO);
    let rbl = inode_blocks(v0, ROOT_INO);
    lemma_lead_nonzero(old_bl, 0);
    lemma_inode_place(ino);
    lemma_inode_place(ROOT_INO);
    // The file's new pointers: `n` non-zero ones, then zeros.
    assert forall|i: int| n <= i < 12 implies #[trigger] ids[i] == 0 by {
        if i >= u {
            assert(old_bl[i] == 0);
        }
    }
    lemma_lead_nonzero_at(ids, 0, n);
    // The root inode is kept.
    assert(inode_on_volume(ROOT_INO));
    assert(file_kept(v0, ino, ids, n, ROOT_INO));
    lemma_rewrite_keeps_inode(v0, fin, ino, data, ROOT_INO);
    assert(inode_blocks(fin, ROOT_INO) == rbl);
    // Blocks marked before and not released stay marked.
    assert forall|m: int| 0 <= m < TOTAL_BLOCKS && bit_set(bm0, m)
        && (m == BLOCK_BITMAP_BLOCK || m == inode_block(ino) || m == rb
            || exists|k: int| 0 <= k < 12 && #[trigger] rbl[k] != 0 && rbl[k] as int == m)
        implies #[trigger] bit_set(bm, m) by {
        if among_range(old_bl, n, u, m) {
            let w = choose|w: int| n <= w < u && #[trigger] old_bl[w] as int == m;
            assert(old_bl[w] != BLOCK_BITMAP_BLOCK && old_bl[w] != inode_block(ino) && old_bl[w] != rb);
            if m != BLOCK_BITMAP_BLOCK && m != inode_block(ino) && m != rb {
                let k = choose|k: int| 0 <= k < 12 && #[trigger] rbl[k] != 0 && rbl[k] as int == m;
                assert(old_bl[w] != rbl[k]);
            }
        }
    }
    assert(bit_set(bm, BLOCK_BITMAP_BLOCK as int));
    assert(bit_set(bm, inode_block(ino)));
    assert(bit_set(bm, rb));
    assert forall|k: int| 0 <= k < 12 && #[trigger] rbl[k] != 0 implies bit_set(bm, rbl[k] as int) by {
        assert(bit_set(bm0, rbl[k] as int));
    }
    assert forall|i: int| 0 <= i < n implies {
        &&& (#[trigger] ids[i]) < TOTAL_BLOCKS
        &&& ids[i] != BLOCK_BITMAP_BLOCK && ids[i] != inode_block(ino) && ids[i] != rb
        &&& bit_set(bm, ids[i] as int)
        &&& forall|k: int| 0 <= k < 12 ==> ids[i] != #[trigger] rbl[k]
    } by {
        if ids[i] as int == rb {
            assert(among(ids, n, rb));
        }
        assert forall|k: int| 0 <= k < 12 implies ids[i] != #[trigger] rbl[k] by {
            if rbl[k] != 0 && ids[i] == rbl[k] {
                assert(among(ids, n, rbl[k] as int));
            }
        }
    }
}

/// A rewrite keeps the bookkeeping of another file: once regular file `ino`
/// is rewritten as `lemma_rewrite_keeps_layout` asks, a file `other` that
/// had the bookkeeping, with each of the two leaving the other alone
/// (`layout_keeps` both ways), still has it, and the two still leave each
/// other alone.
pub proof fn lemma_rewrite_keeps_other_layout(v0: Seq<Seq<u8>>, fin: Seq<Seq<u8>>, ino: u32, data: Seq<u8>, other: u32)
    requires
        v0.len() == TOTAL_BLOCKS,
        blocks_sized(v0),
        ino != ROOT_INO,
        other != ROOT_INO,
        other != ino,
        inode_on_volume(other),
        blocks_needed(data.len() as int) <= MAX_FILE_BLOCKS,
        layout_ok(v0, ino),
        layout_ok(v0, other),
        layout_keeps(v0, ino, other),
        layout_keeps(v0, other, ino),
        rewritten(v0, fin, ino, data),
        apart(inode_blocks(fin, ino), blocks_needed(data.len() as int), ino),
        root_kept(v0, ino, inode_blocks(fin, ino), blocks_needed(data.len() as int)),
        bitmap_rewritten(v0, fin, ino, blocks_needed(data.len() as int)),
    ensures
        layout_ok(fin, other),
        layout_keeps(fin, ino, other),
        layout_keeps(fin, other, ino),
{
    let n = blocks_needed(data.len() as int);
    let old_bl = inode_blocks(v0, ino);
    let u = lead_nonzero(old_bl, 0);
    let ids = inode_blocks(fin, ino);
    let bm0 = v0[BLOCK_BITMAP_BLOCK as int];
    let bm = fin[BLOCK_BITMAP_BLOCK as int];
    let rb = inode_block(ROOT_INO);
    let rbl = inode_blocks(v0, ROOT_INO);
    let ob = inode_block(other);
    let obl = inode_blocks(v0, other);
    let uo = lead_nonzero(obl, 0);
    lemma_lead_nonzero(old_bl, 0);
    lemma_lead_nonzero(obl, 0);
    lemma_inode_place(ino);
    lemma_inode_place(other);
    lemma_inode_place(ROOT_INO);
    lemma_rewrite_keeps_layout(v0, fin, ino, data);
    assert forall|i: int| n <= i < 12 implies #[trigger] ids[i] == 0 by {
        if i >= u {
            assert(old_bl[i] == 0);
        }
    }
    lemma_lead_nonzero_at(ids, 0, n);
    // Both inodes other than the rewritten one are kept.
    assert(inode_on_volume(ROOT_INO));
    assert(file_kept(v0, ino, ids, n, ROOT_INO));
    lemma_rewrite_keeps_inode(v0, fin, ino, data, ROOT_INO);
    assert(!among(ids, n, ob)) by {
        if among(ids, n, ob) {
            let w = choose|w: int| 0 <= w < n && ids[w] as int == ob;
            if w < u {
                assert(ids[w] == old_bl[w]);
            } else {
                assert(!bit_set(bm0, ids[w] as int));
            }
        }
    }
    assert forall|k: int| 0 <= k < 12 && #[trigger] obl[k] != 0 implies !among(ids, n, obl[k] as int) by {
        if among(ids, n, obl[k] as int) {
            let w = choose|w: int| 0 <= w < n && ids[w] as int == obl[k] as int;
            if w < u {
                assert(ids[w] == old_bl[w]);
                assert(old_bl[w] != obl[k]);
            } else {
                assert(bit_set(bm0, obl[k] as int));
                assert(!bit_set(bm0, ids[w] as int));
            }
        }
    }
    assert(file_kept(v0, ino, ids, n, other));
    lemma_rewrite_keeps_inode(v0, fin, ino, data, other);
    assert(inode_blocks(fin, other) == obl);
    assert(inode_blocks(fin, ROOT_INO) == rbl);
    // The marks `other` relies on are not among the released blocks.
    assert forall|m: int| 0 <= m < TOTAL_BLOCKS && bit_set(bm0, m)
        && (m == BLOCK_BITMAP_BLOCK || m == ob || m == rb
            || (exists|k: int| 0 <= k < 12 && #[trigger] rbl[k] != 0 && rbl[k] as int == m)
            || (exists|k: int| 0 <= k < 12 && #[trigger] obl[k] != 0 && obl[k] as int == m))
        implies #[trigger] bit_set(bm, m) by {
        if among_range(old_bl, n, u, m) {
            let w = choose|w: int| n <= w < u && #[trigger] old_bl[w] as int == m;
            assert(old_bl[w] != BLOCK_BITMAP_BLOCK && old_bl[w] != rb && old_bl[w] != ob);
            if m != BLOCK_BITMAP_BLOCK && m != ob && m != rb {
                if exists|k: int| 0 <= k < 12 && #[trigger] rbl[k] != 0 && rbl[k] as int == m {
                    let k = choose|k: int| 0 <= k < 12 && #[trigger] rbl[k] != 0 && rbl[k] as int == m;
                    assert(old_bl[w] != rbl[k]);
                } else {
                    let k = choose|k: int| 0 <= k < 12 && #[trigger] obl[k] != 0 && obl[k] as int == m;
                    assert(old_bl[w] != obl[k]);
                }
            }
        }
    }
    assert(bit_set(bm, BLOCK_BITMAP_BLOCK as int));
    assert(bit_set(bm, ob));
    assert(bit_set(bm, rb));
    assert forall|k: int| 0 <= k < 12 && #[trigger] rbl[k] != 0 implies bit_set(bm, rbl[k] as int) by {
        assert(bit_set(bm0, rbl[k] as int));
    }
    assert forall|k: int| 0 <= k < 12 && #[trigger] obl[k] != 0 implies bit_set(bm, obl[k] as int) by {
        assert(bit_set(bm0, obl[k] as int));
    }
    assert forall|i: int| 0 <= i < uo implies bit_set(bm, #[trigger] obl[i] as int) by {
        assert(obl[i] != 0);
    }
    assert(layout_ok(fin, other));
    // `ino`'s new blocks leave `other` alone and the other way round.
    assert forall|i: int| 0 <= i < n implies (#[trigger] ids[i]) != ob by {
        if ids[i] as int == ob {
            assert(among(ids, n, ob));
        }
    }
    assert forall|i: int, k: int| 0 <= i < n && 0 <= k < 12 implies #[trigger] ids[i] != #[trigger] obl[k] by {
        if obl[k] != 0 && ids[i] == obl[k] {
            assert(among(ids, n, obl[k] as int));
        }
    }
    assert(layout_keeps(fin, ino, other));
    assert forall|i: int, k: int| 0 <= i < uo && 0 <= k < 12 implies #[trigger] obl[i] != #[trigger] ids[k] by {
        if k < n && obl[i] == ids[k] {
            assert(obl[i] != 0);
            assert(among(ids, n, obl[i] as int));
        }
    }
    assert forall|k: int| 0 <= k < 12 && #[trigger] ids[k] != 0 implies ids[k] != BLOCK_BITMAP_BLOCK && ids[k] != ob
        && ids[k] < TOTAL_BLOCKS && bit_set(bm, ids[k] as int) by {
        if ids[k] as int == ob {
            assert(among(ids, n, ob));
        }
    }
    assert(layout_keeps(fin, other, ino));
}

/// Clearing the bits of the non-zero pointers `k..` of `bl` keeps every
/// other set bit.
proof fn lemma_without_bits_keeps(bm: Seq<u8>, bl: Seq<u32>, k: int, m: int)
    requires
        bm.len() == BLOCK_SIZE,
        0 <= m < TOTAL_BLOCKS,
        0 <= k,
        bl.len() == 12,
        forall|j: int| 0 <= j < 12 ==> #[trigger] bl[j] < TOTAL_BLOCKS,
        bit_set(bm, m),
        forall|j: int| k <= j < 12 ==> #[trigger] bl[j] == 0 || bl[j] as int != m,
    ensures
        bit_set(without_bits(bm, bl, k), m),
    decreases 12 - k,
{
    if k < 12 {
        let next = if bl[k] != 0 { without_bit(bm, bl[k] as int) } else { bm };
        if bl[k] != 0 {
            lemma_without_bit(bm, bl[k] as int, m);
        }
        lemma_without_bits_keeps(next, bl, k + 1, m);
    }
}

/// Unlinking a file keeps the bookkeeping writes rely on for another file:
/// when the volume has it for both files (`layout_ok`), the unlinked file's
/// blocks and inode block leave the other's alone (`layout_keeps`), and the
/// root directory's block is not the root inode's, the volume after the
/// unlink has it for the other file.
pub proof fn lemma_unlink_keeps_layout(v0: Seq<Seq<u8>>, name: Seq<u8>, other: u32)
    requires
        v0.len() == TOTAL_BLOCKS,
        blocks_sized(v0),
        unlinked(v0, name) is Some,
        removed(v0, name)->Some_0.1 != ROOT_INO,
        inode_on_volume(other),
        other != removed(v0, name)->Some_0.1,
        other != ROOT_INO,
        inode_blocks(v0, ROOT_INO)[0] != inode_block(ROOT_INO),
        layout_ok(v0, removed(v0, name)->Some_0.1),
        layout_ok(v0, other),
        layout_keeps(v0, removed(v0, name)->Some_0.1, other),
    ensures
        layout_ok(unlinked(v0, name)->Some_0, other),
{
    let ino = removed(v0, name)->Some_0.1;
    let v1 = removed(v0, name)->Some_0.0;
    let rbl = inode_blocks(v0, ROOT_INO);
    let rdb = rbl[0];
    let rb = inode_block(ROOT_INO);
    let ob = inode_block(other);
    let fin = unlinked(v0, name)->Some_0;
    lemma_inode_place(ino);
    lemma_inode_place(other);
    lemma_inode_place(ROOT_INO);
    assert(rb == 5 && inode_offset(ROOT_INO) == 128);
    // The directory block is neither bitmap nor an inode block of the three.
    assert(rdb != 0 && rdb < TOTAL_BLOCKS);
    assert(rdb != BLOCK_BITMAP_BLOCK && rdb != inode_block(ino) && rdb != ob);
    assert(v1[inode_block(ino)] == v0[inode_block(ino)]);
    assert(v1[BLOCK_BITMAP_BLOCK as int] == v0[BLOCK_BITMAP_BLOCK as int]);
    let bl = inode_blocks(v1, ino);
    assert(bl =~= inode_blocks(v0, ino));
    let ubl = inode_blocks(v0, ino);
    let uu = lead_nonzero(ubl, 0);
    lemma_lead_nonzero(ubl, 0);
    // Inode slots other than the unlinked one are kept.
    assert forall|x: u32| x != 0 && x != ino && inode_on_volume(x) && inode_block(x) != rdb implies #[trigger] inode_blocks(fin, x)
        == inode_blocks(v0, x) by {
        lemma_inode_place(x);
        let xb = inode_block(x);
        let off = inode_offset(x);
        if xb != inode_block(ino) {
            assert(fin[xb] == v0[xb]);
        } else {
            lemma_inode_slots_disjoint(ino, x);
            assert forall|j: int| off <= j < off + 128 implies fin[xb][j] == v0[xb][j] by {}
        }
        assert(inode_blocks(fin, x) =~= inode_blocks(v0, x));
    }
    assert(inode_blocks(fin, other) == inode_blocks(v0, other));
    assert(inode_blocks(fin, ROOT_INO) == rbl);
    // The unlinked file's released blocks are none of the marked blocks the
    // other file relies on.
    let bm0 = v0[BLOCK_BITMAP_BLOCK as int];
    assert(fin[BLOCK_BITMAP_BLOCK as int] == without_bits(bm0, bl, 0));
    assert(forall|j: int| 0 <= j < 12 ==> #[trigger] bl[j] < TOTAL_BLOCKS);
    let obl = inode_blocks(v0, other);
    lemma_lead_nonzero(obl, 0);
    assert forall|m: int| 0 <= m < TOTAL_BLOCKS && #[trigger] bit_set(bm0, m)
        && (m == BLOCK_BITMAP_BLOCK || m == ob || m == rb
            || (exists|k: int| 0 <= k < 12 && #[trigger] rbl[k] != 0 && rbl[k] as int == m)
            || (exists|i: int| 0 <= i < lead_nonzero(obl, 0) && #[trigger] obl[i] as int == m))
        implies bit_set(without_bits(bm0, bl, 0), m) by {
        assert forall|j: int| 0 <= j < 12 implies #[trigger] bl[j] == 0 || bl[j] as int != m by {
            if j < uu && bl[j] as int == m {
                assert(ubl[j] != BLOCK_BITMAP_BLOCK && ubl[j] != rb && ubl[j] != ob);
                if m != BLOCK_BITMAP_BLOCK && m != ob && m != rb {
                    if exists|k: int| 0 <= k < 12 && #[trigger] rbl[k] != 0 && rbl[k] as int == m {
                        let k = choose|k: int| 0 <= k < 12 && #[trigger] rbl[k] != 0 && rbl[k] as int == m;
                        assert(ubl[j] != rbl[k]);
                    } else {
                        let i = choose|i: int| 0 <= i < lead_nonzero(obl, 0) && #[trigger] obl[i] as int == m;
                        assert(ubl[j] != obl[i]);
                    }
                }
            }
        }
        lemma_without_bits_keeps(bm0, bl, 0, m);
    }
    let bm = fin[BLOCK_BITMAP_BLOCK as int];
    assert(bit_set(bm, BLOCK_BITMAP_BLOCK as int));
    assert(bit_set(bm, ob));
    assert(bit_set(bm, rb));
    assert forall|k: int| 0 <= k < 12 && #[trigger] rbl[k] != 0 implies bit_set(bm, rbl[k] as int) by {
        assert(bit_set(bm0, rbl[k] as int));
    }
    assert forall|i: int| 0 <= i < lead_nonzero(obl, 0) implies bit_set(bm, #[trigger] obl[i] as int) by {
        assert(bit_set(bm0, obl[i] as int));
    }
}

/// What unlinking `name` from `v0` needs to leave the bookkeeping of file
/// `other` as it was: the entry names an inode other than the root and
/// `other`, both files have the bookkeeping (`layout_ok`), the unlinked
/// file's blocks and inode block leave `other`'s alone (`layout_keeps`), and
/// the root directory's block is not the root inode's.
pub open spec fn unlink_spares(v0: Seq<Seq<u8>>, name: Seq<u8>, other: u32) -> bool {
    let ino = removed(v0, name)->Some_0.1;
    &&& removed(v0, name) is Some
    &&& ino != ROOT_INO && other != ino && other != ROOT_INO && inode_on_volume(other)
    &&& inode_blocks(v0, ROOT_INO)[0] != inode_block(ROOT_INO)
    &&& layout_ok(v0, ino) && layout_ok(v0, other) && layout_keeps(v0, ino, other)
}

/// A freshly formatted volume keeps the bookkeeping writes rely on for both
/// of its files, so a write to either reads back and leaves the other one
/// as it was (see `write_file`).
#[verifier::spinoff_prover]
#[verifier::rlimit(80)]
pub proof fn lemma_formatted_layout_ok(v: Seq<Seq<u8>>, elf: Seq<u8>)
    requires
        v.len() == TOTAL_BLOCKS,
        blocks_sized(v),
    ensures
        layout_ok(formatted(v, elf), FILE_INO),
        layout_ok(formatted(v, elf), ELF_INO),
        layout_keeps(formatted(v, elf), FILE_INO, ELF_INO),
        layout_keeps(formatted(v, elf), ELF_INO, FILE_INO),
        files_apart(formatted(v, elf), FILE_INO, ELF_INO),
        files_apart(formatted(v, elf), ELF_INO, FILE_INO),
{
    lemma_formatted_layout(v, elf);
    let f = formatted(v, elf);
    let bm = f[BLOCK_BITMAP_BLOCK as int];
    assert(bm == block_bitmap_image());
    assert(bm[0] == 0xFEu8 && bm[1] == 0xFDu8);
    assert((0xFEu8 & (1u8 << 3u8)) != 0 && (0xFEu8 & (1u8 << 5u8)) != 0 && (0xFEu8 & (1u8 << 6u8)) != 0
        && (0xFDu8 & (1u8 << 2u8)) != 0 && (0xFDu8 & (1u8 << 3u8)) != 0 && (0xFDu8 & (1u8 << 4u8)) != 0
        && (0xFDu8 & (1u8 << 5u8)) != 0 && (0xFDu8 & (1u8 << 6u8)) != 0 && (0xFDu8 & (1u8 << 7u8)) != 0)
        by (bit_vector);
    assert(inode_block(FILE_INO) == 6 && inode_block(ELF_INO) == 6 && inode_block(ROOT_INO) == 5);
    assert(bit_set(bm, 3) && bit_set(bm, 5) && bit_set(bm, 6));
    assert(bit_set(bm, 10) && bit_set(bm, 11) && bit_set(bm, 12) && bit_set(bm, 13) && bit_set(bm, 14) && bit_set(bm, 15));
    let fbl = inode_blocks(f, FILE_INO);
    let ebl = inode_blocks(f, ELF_INO);
    assert(lead_nonzero(fbl, 1) == 1);
    assert(lead_nonzero(fbl, 0) == 1);
    assert(lead_nonzero(ebl, 4) == 4);
    assert(lead_nonzero(ebl, 3) == 4);
    assert(lead_nonzero(ebl, 2) == 4);
    assert(lead_nonzero(ebl, 1) == 4);
    assert(lead_nonzero(ebl, 0) == 4);
}

/// What reading a file back after unlinking it relies on, read off the
/// volume before the unlink: the root directory is one block of at most
/// 1024 bytes whose records hold their names, the entry for `name` lies
/// wholly within it, and that block is neither a bitmap nor the block of
/// the root inode or of the unlinked inode (which is not the root).
pub open spec fn unlink_layout(v: Seq<Seq<u8>>, name: Seq<u8>) -> bool {
    let rb = inode_blocks(v, ROOT_INO)[0];
    let ino = removed(v, name)->Some_0.1;
    let o = dir_entry_off(v[rb as int], name, 0)->Some_0;
    &&& inode_size(v, ROOT_INO) <= BLOCK_SIZE
    &&& o + 8 + name.len() <= inode_size(v, ROOT_INO)
    &&& rb != BLOCK_BITMAP_BLOCK && rb != INODE_BITMAP_BLOCK && rb != inode_block(ino) && rb != inode_block(ROOT_INO)
    &&& ino != ROOT_INO
    &&& dir_wf(v[rb as int], 0)
}

/// Unlinking a file and reading it: once `name` is unlinked from volume
/// `v0`, reading `name` from the new volume finds no file (its entry names
/// inode 0).
pub proof fn lemma_unlink_then_read(v0: Seq<Seq<u8>>, name: Seq<u8>)
    requires
        v0.len() == TOTAL_BLOCKS,
        blocks_sized(v0),
        unlinked(v0, name) is Some,
        unlink_layout(v0, name),
    ensures
        volume_read(unlinked(v0, name)->Some_0, name) is None,
{
    let rbl = inode_blocks(v0, ROOT_INO);
    let rb = rbl[0];
    let (v1, ino) = removed(v0, name)->Some_0;
    let d = v0[rb as int];
    let o = dir_entry_off(d, name, 0)->Some_0;
    let e = put32(d, o, 0);
    let sz = inode_size(v0, ROOT_INO);
    let v3 = unlinked(v0, name)->Some_0;
    lemma_dir_entry_off_bounds(d, name, 0);
    lemma_inode_place(ino);
    lemma_inode_place(ROOT_INO);
    assert(v1 == v0.update(rb as int, e));
    assert(v3[rb as int] == e);
    // The root inode is untouched.
    let rib = inode_block(ROOT_INO);
    assert(rib == 5 && inode_offset(ROOT_INO) == 128);
    if rib == inode_block(ino) {
        lemma_inode_slots_disjoint(ino, ROOT_INO);
        assert forall|j: int| 128 <= j < 256 implies v3[rib][j] == v0[rib][j] by {}
    } else {
        assert(v3[rib] == v0[rib]);
    }
    assert(inode_mode(v3, ROOT_INO) == inode_mode(v0, ROOT_INO));
    assert(inode_size(v3, ROOT_INO) == sz);
    assert(inode_blocks(v3, ROOT_INO) =~= rbl);
    if (inode_mode(v3, ROOT_INO) as u16) & 0xF000 == MODE_DIR && name.len() > 0 {
        // The root directory now reads as the cleared block, cut to its size.
        assert(file_bytes(v3, rbl, 1, 0) == Some(Seq::<u8>::empty()));
        assert(root_dir(v3) == Some(e.subrange(0, sz) + Seq::<u8>::empty()));
        assert(e.subrange(0, sz) + Seq::<u8>::empty() =~= e.subrange(0, sz));
        lemma_dir_prefix_found(d, name, sz, 0, o);
        lemma_dir_clear_inode(d, name, sz, 0, o);
        assert(dir_entry_off(e.subrange(0, sz), name, 0) == Some(o));
        lemma_le32_put32(d, o, 0);
        assert(le32(e.subrange(0, sz), o) == le32(e, o));
        assert(dir_lookup(e.subrange(0, sz), name, 0) == Some(0u32));
    }
}

/// Where a freshly formatted volume keeps its files: `smoke.txt` is inode 12
/// with its content in block 11, the demo ELF is inode 13 in blocks 12 to 15,
/// and the root directory's entries are in block 10.
#[verifier::spinoff_prover]
#[verifier::rlimit(80)]
pub proof fn lemma_formatted_layout(v: Seq<Seq<u8>>, elf: Seq<u8>)
    requires
        v.len() == TOTAL_BLOCKS,
        blocks_sized(v),
    ensures
        regular_file_ino(formatted(v, elf), "smoke.txt".spec_bytes()) == Some(FILE_INO),
        regular_file_ino(formatted(v, elf), "ring3-io-demo.elf".spec_bytes()) == Some(ELF_INO),
        inode_blocks(formatted(v, elf), ROOT_INO) == seq![10u32, 0, 0, 0, 0, 0, 0, 0, 0, 0, 0, 0],
        inode_blocks(formatted(v, elf), FILE_INO) == seq![11u32, 0, 0, 0, 0, 0, 0, 0, 0, 0, 0, 0],
        inode_blocks(formatted(v, elf), ELF_INO) == seq![12u32, 13, 14, 15, 0, 0, 0, 0, 0, 0, 0, 0],
{
    lemma_smoke_name_bytes();
    lemma_formatted_smoke_file(v, elf);
    lemma_formatted_elf_file(v, elf);
    let f = formatted(v, elf);
    let rii = root_inode_image();
    assert(f[5] == splice(v[5], 128, rii));
    assert(inode_blocks(f, ROOT_INO) =~= seq![10u32, 0, 0, 0, 0, 0, 0, 0, 0, 0, 0, 0]);
    let sii = smoke_inode_image();
    let size: int = if elf.len() < 4096 { elf.len() as int } else { 4096 };
    let eii = elf_inode_image(elf.len() as int);
    let base = put32(put16(zero_bytes(128), 0x00, MODE_FILE), 0x04, size as u32);
    lemma_put32s(base, 40, seq![12u32, 13u32, 14u32, 15u32]);
    assert(f[6] == splice(splice(v[6], 384, sii), 512, eii));
    assert(inode_block(FILE_INO) == 6 && inode_offset(FILE_INO) == 384);
    assert(inode_block(ELF_INO) == 6 && inode_offset(ELF_INO) == 512);
    assert(inode_blocks(f, FILE_INO) =~= seq![11u32, 0, 0, 0, 0, 0, 0, 0, 0, 0, 0, 0]);
    assert forall|k: int| 0 <= k < 4 implies le32(eii, 40 + 4 * k) == seq![12u32, 13u32, 14u32, 15u32][k] by {}
    assert(inode_blocks(f, ELF_INO) =~= seq![12u32, 13, 14, 15, 0, 0, 0, 0, 0, 0, 0, 0]);
    let dir = root_dir(f)->Some_0;
    assert(root_lookup(f, "smoke.txt".spec_bytes()) == Some(Some(FILE_INO)));
    assert(root_lookup(f, "ring3-io-demo.elf".spec_bytes()) == Some(Some(ELF_INO)));
}

} // verus!
