//! Executable image parser and validation model.
use vstd::prelude::*;

use crate::security::UserId;

verus! {

pub const MAX_IMAGE_SIZE: usize = 512;
pub const ELFCLASS64: u8 = 2;
pub const ELFDATA2LSB: u8 = 1;
pub const EM_X86_64: u16 = 0x3e;
pub const PT_LOAD: u32 = 1;
pub const MAX_SEGMENTS: usize = 4;

/// Who vouches for a program image.
#[derive(Debug, Clone, Copy, PartialEq, Eq, Structural)]
pub enum ProgramTrust {
    System,
    User,
}

#[derive(Debug, Clone, Copy, PartialEq, Eq, Structural)]
pub enum ExecutableFormat {
    BuiltinAlias,
    Elf64,
}

#[derive(Debug, Clone, Copy, PartialEq, Eq, Structural)]
pub struct SegmentFlags {
    bits: u8,
}

impl SegmentFlags {
    pub const READ: u8 = 0b001;
    pub const WRITE: u8 = 0b010;
    pub const EXECUTE: u8 = 0b100;

    pub closed spec fn spec_bits(self) -> u8 {
        self.bits
    }

    pub open spec fn spec_readable(self) -> bool {
        self.spec_bits() & 1 != 0
    }

    pub open spec fn spec_writable(self) -> bool {
        self.spec_bits() & 2 != 0
    }

    pub open spec fn spec_executable(self) -> bool {
        self.spec_bits() & 4 != 0
    }

    pub fn from_bits(bits: u8) -> (r: Self)
        ensures
            r.spec_bits() == bits & 7,
    {
        Self { bits: bits & 0b111 }
    }

    pub fn bits(self) -> (r: u8)
        ensures
            r == self.spec_bits(),
    {
        self.bits
    }

    pub fn readable(self) -> (r: bool)
        ensures
            r == self.spec_readable(),
    {
        self.bits & 1 != 0
    }

    pub fn writable(self) -> (r: bool)
        ensures
            r == self.spec_writable(),
    {
        self.bits & 2 != 0
    }

    pub fn executable(self) -> (r: bool)
        ensures
            r == self.spec_executable(),
    {
        self.bits & 4 != 0
    }
}

#[derive(Debug, Clone, PartialEq, Eq)]
pub struct ImageSegment {
    pub virtual_address: u64,
    pub file_offset: usize,
    pub file_size: usize,
    pub memory_size: usize,
    pub flags: SegmentFlags,
}

#[derive(Debug, Clone, PartialEq, Eq)]
pub struct ExecutableImage {
    pub name: String,
    pub source_path: String,
    pub format: ExecutableFormat,
    pub entry_point: u64,
    pub image_size: usize,
    pub trust: ProgramTrust,
    pub owner: UserId,
    pub segments: Vec<ImageSegment>,
}

#[derive(Debug, Clone, Copy, PartialEq, Eq, Structural)]
pub enum ImageLoadError {
    InvalidMagic,
    UnsupportedArchitecture,
    InvalidHeader,
    InvalidSegmentLayout,
    MissingExecutePermission,
    OversizedImage,
    UnsupportedExecution,
}

pub fn builtin_image(name: &str, source_path: &str, trust: ProgramTrust, owner: UserId) -> (r:
    ExecutableImage)
    ensures
        r.name@ == name@,
        r.source_path@ == source_path@,
        r.format == ExecutableFormat::BuiltinAlias,
        r.entry_point == 0,
        r.image_size == 0,
        r.trust == trust,
        r.owner == owner,
        r.segments@.len() == 0,
{
    ExecutableImage {
        name: name.to_owned(),
        source_path: source_path.to_owned(),
        format: ExecutableFormat::BuiltinAlias,
        entry_point: 0,
        image_size: 0,
        trust,
        owner,
        segments: Vec::new(),
    }
}

// ---------------------------------------------------------------- byte fields
/// Little-endian 16-bit field at `off`.
pub open spec fn le16(b: Seq<u8>, off: int) -> int {
    b[off] + b[off + 1] * 256
}

/// Little-endian 32-bit field at `off`.
pub open spec fn le32(b: Seq<u8>, off: int) -> int {
    le16(b, off) + le16(b, off + 2) * 65536
}

/// Little-endian 64-bit field at `off`.
pub open spec fn le64(b: Seq<u8>, off: int) -> int {
    le32(b, off) + le32(b, off + 4) * 0x1_0000_0000
}

fn read_u16_at(bytes: &[u8], offset: usize) -> (r: Result<u16, ImageLoadError>)
    ensures
        offset + 2 <= bytes@.len() ==> r == Ok::<u16, ImageLoadError>(
            le16(bytes@, offset as int) as u16,
        ),
        offset + 2 > bytes@.len() ==> r == Err::<u16, ImageLoadError>(
            ImageLoadError::InvalidHeader,
        ),
{
    if offset > bytes.len() || bytes.len() - offset < 2 {
        return Err(ImageLoadError::InvalidHeader);
    }
    let lo = bytes[offset] as u16;
    let hi = bytes[offset + 1] as u16;
    Ok(lo + hi * 256)
}

fn read_u16(bytes: &[u8], offset: usize) -> (r: Result<u16, ImageLoadError>)
    ensures
        offset + 2 <= bytes@.len() ==> r == Ok::<u16, ImageLoadError>(
            le16(bytes@, offset as int) as u16,
        ),
        offset + 2 > bytes@.len() ==> r == Err::<u16, ImageLoadError>(
            ImageLoadError::InvalidHeader,
        ),
{
    read_u16_at(bytes, offset)
}

fn read_u32_at(bytes: &[u8], offset: usize) -> (r: Result<u32, ImageLoadError>)
    ensures
        offset + 4 <= bytes@.len() ==> r == Ok::<u32, ImageLoadError>(
            le32(bytes@, offset as int) as u32,
        ),
        offset + 4 > bytes@.len() ==> r == Err::<u32, ImageLoadError>(
            ImageLoadError::InvalidHeader,
        ),
{
    if offset > bytes.len() || bytes.len() - offset < 4 {
        return Err(ImageLoadError::InvalidHeader);
    }
    let lo = read_u16_at(bytes, offset)?;
    let hi = read_u16_at(bytes, offset + 2)?;
    Ok(lo as u32 + (hi as u32) * 65536)
}

fn read_u64_at(bytes: &[u8], offset: usize) -> (r: Result<u64, ImageLoadError>)
    ensures
        offset + 8 <= bytes@.len() ==> r == Ok::<u64, ImageLoadError>(
            le64(bytes@, offset as int) as u64,
        ),
        offset + 8 > bytes@.len() ==> r == Err::<u64, ImageLoadError>(
            ImageLoadError::InvalidHeader,
        ),
{
    if offset > bytes.len() || bytes.len() - offset < 8 {
        return Err(ImageLoadError::InvalidHeader);
    }
    let lo = read_u32_at(bytes, offset)?;
    let hi = read_u32_at(bytes, offset + 4)?;
    Ok(lo as u64 + (hi as u64) * 0x1_0000_0000)
}

fn read_u64(bytes: &[u8], offset: usize) -> (r: Result<u64, ImageLoadError>)
    ensures
        offset + 8 <= bytes@.len() ==> r == Ok::<u64, ImageLoadError>(
            le64(bytes@, offset as int) as u64,
        ),
        offset + 8 > bytes@.len() ==> r == Err::<u64, ImageLoadError>(
            ImageLoadError::InvalidHeader,
        ),
{
    read_u64_at(bytes, offset)
}

// ---------------------------------------------------------------- the header
pub open spec fn has_elf_magic(b: Seq<u8>) -> bool {
    b[0] == 0x7f && b[1] == 0x45 && b[2] == 0x4c && b[3] == 0x46
}

/// The ELF64 header check: size bound, magic, class/data/machine, then the
/// program-header table fields.
pub open spec fn header_check(b: Seq<u8>) -> Result<(), ImageLoadError> {
    if b.len() > MAX_IMAGE_SIZE {
        Err(ImageLoadError::OversizedImage)
    } else if b.len() < 64 || !has_elf_magic(b) {
        Err(ImageLoadError::InvalidMagic)
    } else if b[4] != ELFCLASS64 || b[5] != ELFDATA2LSB || le16(b, 18) != EM_X86_64 {
        Err(ImageLoadError::UnsupportedArchitecture)
    } else if le64(b, 24) == 0 || le64(b, 32) == 0 || le16(b, 54) < 56 || le16(b, 56) == 0
        || le16(b, 56) > MAX_SEGMENTS {
        Err(ImageLoadError::InvalidHeader)
    } else if le64(b, 32) + le16(b, 54) * le16(b, 56) > b.len() {
        Err(ImageLoadError::InvalidHeader)
    } else {
        Ok(())
    }
}

/// The permission bits an ELF `p_flags` word maps to (R=4, W=2, X=1 in ELF).
pub open spec fn elf_flag_bits(raw: u32) -> u8 {
    ((if raw & 4 != 0 { 1u8 } else { 0u8 }) | (if raw & 2 != 0 { 2u8 } else { 0u8 }) | (if raw
        & 1 != 0 {
        4u8
    } else {
        0u8
    }))
}

/// The segment described by the program header at `start`.
pub open spec fn segment_at(b: Seq<u8>, start: int) -> (u64, usize, usize, usize, u8) {
    (
        le64(b, start + 16) as u64,
        le64(b, start + 8) as usize,
        le64(b, start + 32) as usize,
        le64(b, start + 40) as usize,
        elf_flag_bits(le32(b, start + 4) as u32) & 7,
    )
}

pub open spec fn segment_matches(s: ImageSegment, t: (u64, usize, usize, usize, u8)) -> bool {
    s.virtual_address == t.0 && s.file_offset == t.1 && s.file_size == t.2 && s.memory_size
        == t.3 && s.flags.spec_bits() == t.4
}

/// A single loadable segment is well formed.
pub open spec fn segment_ok(image_len: int, t: (u64, usize, usize, usize, u8)) -> bool {
    &&& t.0 != 0
    &&& t.3 != 0
    &&& t.2 != 0
    &&& t.3 >= t.2
    &&& t.1 + t.2 <= image_len
    &&& !(t.4 & 2 != 0 && t.4 & 4 != 0)
}

/// Outcome of scanning the first `k` program headers: the loadable segments
/// found, or the first segment-layout error.
pub open spec fn segments_upto(b: Seq<u8>, phoff: int, phentsize: int, k: nat) -> Result<
    Seq<(u64, usize, usize, usize, u8)>,
    ImageLoadError,
>
    decreases k,
{
    if k == 0 {
        Ok(Seq::empty())
    } else {
        match segments_upto(b, phoff, phentsize, (k - 1) as nat) {
            Err(e) => Err(e),
            Ok(s) => {
                let start = phoff + (k - 1) * phentsize;
                if le32(b, start) != PT_LOAD {
                    Ok(s)
                } else if !segment_ok(b.len() as int, segment_at(b, start)) {
                    Err(ImageLoadError::InvalidSegmentLayout)
                } else {
                    Ok(s.push(segment_at(b, start)))
                }
            },
        }
    }
}

/// Once the scan fails, scanning further headers reports the same error.
proof fn lemma_segments_err_persists(b: Seq<u8>, phoff: int, phentsize: int, k: nat, k2: nat)
    requires
        k <= k2,
        segments_upto(b, phoff, phentsize, k) is Err,
    ensures
        segments_upto(b, phoff, phentsize, k2) == segments_upto(b, phoff, phentsize, k),
    decreases k2 - k,
{
    if k2 > k {
        lemma_segments_err_persists(b, phoff, phentsize, k, (k2 - 1) as nat);
    }
}

/// Two half-open address ranges intersect.
pub open spec fn ranges_overlap(a_start: int, a_end: int, b_start: int, b_end: int) -> bool {
    a_start < b_end && b_start < a_end
}

/// A segment list is non-empty, no segment end overflows and no two overlap.
pub open spec fn segments_valid(s: Seq<ImageSegment>) -> bool {
    &&& s.len() > 0
    &&& forall|i: int| 0 <= i < s.len() ==> #[trigger] s[i].virtual_address + s[i].memory_size
        <= u64::MAX
    &&& forall|i: int, j: int|
        0 <= i < j < s.len() ==> !ranges_overlap(
            s[i].virtual_address as int,
            s[i].virtual_address + s[i].memory_size,
            s[j].virtual_address as int,
            s[j].virtual_address + s[j].memory_size,
        )
}

fn validate_segment(
    image_len: usize,
    file_offset: usize,
    file_size: usize,
    memory_size: usize,
    virtual_address: u64,
    flags: SegmentFlags,
) -> (r: Result<(), ImageLoadError>)
    ensures
        r is Ok <==> segment_ok(
            image_len as int,
            (virtual_address, file_offset, file_size, memory_size, flags.spec_bits()),
        ),
        r is Err ==> r == Err::<(), ImageLoadError>(ImageLoadError::InvalidSegmentLayout),
{
    if virtual_address == 0 || memory_size == 0 || file_size == 0 || memory_size < file_size {
        return Err(ImageLoadError::InvalidSegmentLayout);
    }
    match file_offset.checked_add(file_size) {
        None => return Err(ImageLoadError::InvalidSegmentLayout),
        Some(end) => {
            if end > image_len {
                return Err(ImageLoadError::InvalidSegmentLayout);
            }
        },
    }
    if flags.writable() && flags.executable() {
        return Err(ImageLoadError::InvalidSegmentLayout);
    }
    Ok(())
}

pub fn validate_segments(segments: &[ImageSegment]) -> (r: Result<(), ImageLoadError>)
    ensures
        r is Ok <==> segments_valid(segments@),
        r is Err ==> r == Err::<(), ImageLoadError>(ImageLoadError::InvalidSegmentLayout),
{
    if segments.len() == 0 {
        return Err(ImageLoadError::InvalidSegmentLayout);
    }
    let n = segments.len();
    let mut index: usize = 0;
    while index < n
        invariant
            n == segments@.len(),
            n > 0,
            index <= n,
            forall|i: int| 0 <= i < index ==> #[trigger] segments@[i].virtual_address
                + segments@[i].memory_size <= u64::MAX,
            forall|i: int, j: int|
                0 <= i < index && i < j < n ==> !ranges_overlap(
                    segments@[i].virtual_address as int,
                    segments@[i].virtual_address + segments@[i].memory_size,
                    segments@[j].virtual_address as int,
                    segments@[j].virtual_address + segments@[j].memory_size,
                ),
        decreases n - index,
    {
        let segment = &segments[index];
        let end = match segment.virtual_address.checked_add(segment.memory_size as u64) {
            Some(e) => e,
            None => {
                assert(!(segments@[index as int].virtual_address
                    + segments@[index as int].memory_size <= u64::MAX));
                return Err(ImageLoadError::InvalidSegmentLayout);
            },
        };
        let mut j: usize = index + 1;
        while j < n
            invariant
                n == segments@.len(),
                index < n,
                index + 1 <= j <= n,
                end == segments@[index as int].virtual_address
                    + segments@[index as int].memory_size,
                forall|k: int|
                    index < k < j ==> !ranges_overlap(
                        segments@[index as int].virtual_address as int,
                        end as int,
                        #[trigger] segments@[k].virtual_address as int,
                        segments@[k].virtual_address + segments@[k].memory_size,
                    ),
                forall|k: int|
                    index < k < j ==> #[trigger] segments@[k].virtual_address
                        + segments@[k].memory_size <= u64::MAX,
            decreases n - j,
        {
            let other = &segments[j];
            let other_end = match other.virtual_address.checked_add(other.memory_size as u64) {
                Some(e) => e,
                None => {
                    assert(!(segments@[j as int].virtual_address + segments@[j as int].memory_size
                        <= u64::MAX));
                    return Err(ImageLoadError::InvalidSegmentLayout);
                },
            };
            if segments[index].virtual_address < other_end && other.virtual_address < end {
                assert(ranges_overlap(
                    segments@[index as int].virtual_address as int,
                    segments@[index as int].virtual_address + segments@[index as int].memory_size,
                    segments@[j as int].virtual_address as int,
                    segments@[j as int].virtual_address + segments@[j as int].memory_size,
                ));
                return Err(ImageLoadError::InvalidSegmentLayout);
            }
            j += 1;
        }
        index += 1;
    }
    Ok(())
}

/// The image `parse_elf64_image` builds from `bytes`, when the header and
/// every loadable segment check out.
pub open spec fn parse_ok_segments(b: Seq<u8>) -> Result<
    Seq<(u64, usize, usize, usize, u8)>,
    ImageLoadError,
> {
    match header_check(b) {
        Err(e) => Err(e),
        Ok(()) => segments_upto(b, le64(b, 32), le16(b, 54), le16(b, 56) as nat),
    }
}

pub fn parse_elf64_image(
    name: &str,
    source_path: &str,
    bytes: &[u8],
    trust: ProgramTrust,
    owner: UserId,
) -> (r: Result<ExecutableImage, ImageLoadError>)
    ensures
        parse_ok_segments(bytes@) is Err ==> r == Err::<ExecutableImage, ImageLoadError>(
            parse_ok_segments(bytes@)->Err_0,
        ),
        parse_ok_segments(bytes@) is Ok ==> {
            let segs = parse_ok_segments(bytes@)->Ok_0;
            match r {
                Err(e) => e == ImageLoadError::InvalidSegmentLayout && !(segs.len() > 0
                    && forall|i: int| 0 <= i < segs.len() ==> #[trigger] segs[i].0 + segs[i].3
                        <= u64::MAX && forall|i: int, j: int|
                        0 <= i < j < segs.len() ==> !ranges_overlap(
                            segs[i].0 as int,
                            segs[i].0 + segs[i].3,
                            segs[j].0 as int,
                            segs[j].0 + segs[j].3,
                        )),
                Ok(image) => {
                    &&& image.segments@.len() == segs.len()
                    &&& forall|i: int|
                        0 <= i < segs.len() ==> segment_matches(
                            #[trigger] image.segments@[i],
                            segs[i],
                        )
                    &&& segments_valid(image.segments@)
                    &&& image.name@ == name@
                    &&& image.source_path@ == source_path@
                    &&& image.format == ExecutableFormat::Elf64
                    &&& image.entry_point == le64(bytes@, 24)
                    &&& image.image_size == bytes@.len()
                    &&& image.trust == trust
                    &&& image.owner == owner
                },
            }
        },
{
    if bytes.len() > MAX_IMAGE_SIZE {
        return Err(ImageLoadError::OversizedImage);
    }
    if bytes.len() < 64 || !(bytes[0] == 0x7f && bytes[1] == 0x45 && bytes[2] == 0x4c && bytes[3]
        == 0x46) {
        return Err(ImageLoadError::InvalidMagic);
    }
    if bytes[4] != ELFCLASS64 || bytes[5] != ELFDATA2LSB || read_u16(bytes, 18)? != EM_X86_64 {
        return Err(ImageLoadError::UnsupportedArchitecture);
    }
    let entry = read_u64(bytes, 24)?;
    let phoff_raw = read_u64(bytes, 32)?;
    let phentsize = read_u16(bytes, 54)? as usize;
    let phnum = read_u16(bytes, 56)? as usize;
    if entry == 0 || phoff_raw == 0 || phentsize < 56 || phnum == 0 || phnum > MAX_SEGMENTS {
        return Err(ImageLoadError::InvalidHeader);
    }
    assert(phentsize * phnum <= phentsize * 4) by (nonlinear_arith)
        requires
            phnum <= 4,
    ;
    let table_size = phentsize * phnum;
    if phoff_raw > bytes.len() as u64 || bytes.len() - (phoff_raw as usize) < table_size {
        return Err(ImageLoadError::InvalidHeader);
    }
    let phoff = phoff_raw as usize;
    let ghost b = bytes@;
    assert(header_check(b) == Ok::<(), ImageLoadError>(()));
    let mut segments: Vec<ImageSegment> = Vec::new();
    let mut index: usize = 0;
    while index < phnum
        invariant
            b == bytes@,
            b.len() <= MAX_IMAGE_SIZE,
            phnum <= 4,
            phentsize >= 56,
            phoff as int == le64(b, 32),
            phentsize as int == le16(b, 54),
            phnum as int == le16(b, 56),
            header_check(b) is Ok,
            phoff + phentsize * phnum <= b.len(),
            index <= phnum,
            segments_upto(b, phoff as int, phentsize as int, index as nat) is Ok,
            segments@.len() == segments_upto(b, phoff as int, phentsize as int, index as nat)->Ok_0.len(),
            forall|i: int|
                0 <= i < segments@.len() ==> segment_matches(
                    #[trigger] segments@[i],
                    segments_upto(b, phoff as int, phentsize as int, index as nat)->Ok_0[i],
                ),
        ensures
            index == phnum,
        decreases phnum - index,
    {
        assert(index * phentsize + phentsize <= phnum * phentsize) by (nonlinear_arith)
            requires
                index < phnum,
        ;
        assert(phentsize * phnum == phnum * phentsize) by (nonlinear_arith);
        let start = phoff + index * phentsize;
        assert(start + 56 <= b.len());
        assert(segments_upto(b, phoff as int, phentsize as int, (index + 1) as nat)
            == match segments_upto(b, phoff as int, phentsize as int, index as nat) {
            Err(e) => Err(e),
            Ok(s) => {
                let st = phoff + index * phentsize;
                if le32(b, st) != PT_LOAD {
                    Ok(s)
                } else if !segment_ok(b.len() as int, segment_at(b, st)) {
                    Err(ImageLoadError::InvalidSegmentLayout)
                } else {
                    Ok(s.push(segment_at(b, st)))
                }
            },
        });
        if read_u32_at(bytes, start)? != PT_LOAD {
            index += 1;
            continue;
        }
        let raw_flags = read_u32_at(bytes, start + 4)?;
        let file_offset = read_u64_at(bytes, start + 8)? as usize;
        let virtual_address = read_u64_at(bytes, start + 16)?;
        let file_size = read_u64_at(bytes, start + 32)? as usize;
        let memory_size = read_u64_at(bytes, start + 40)? as usize;
        let fbits: u8 = (if raw_flags & 4 != 0 {
            1u8
        } else {
            0u8
        }) | (if raw_flags & 2 != 0 {
            2u8
        } else {
            0u8
        }) | (if raw_flags & 1 != 0 {
            4u8
        } else {
            0u8
        });
        let flags = SegmentFlags::from_bits(fbits);
        assert(flags.spec_bits() == elf_flag_bits(raw_flags) & 7);
        assert(segment_at(b, start as int) == (
            virtual_address,
            file_offset,
            file_size,
            memory_size,
            flags.spec_bits(),
        ));
        let vr = validate_segment(
            bytes.len(),
            file_offset,
            file_size,
            memory_size,
            virtual_address,
            flags,
        );
        if vr.is_err() {
            proof {
                assert(!segment_ok(b.len() as int, segment_at(b, start as int)));
                assert(le32(b, start as int) == PT_LOAD);
                assert(start == phoff + index * phentsize);
                assert(segments_upto(b, phoff as int, phentsize as int, (index + 1) as nat) is Err);
                lemma_segments_err_persists(
                    b,
                    phoff as int,
                    phentsize as int,
                    (index + 1) as nat,
                    phnum as nat,
                );
            }
            return Err(ImageLoadError::InvalidSegmentLayout);
        }
        let ghost before = segments@;
        segments.push(
            ImageSegment { virtual_address, file_offset, file_size, memory_size, flags },
        );
        proof {
            let s_next = segments_upto(b, phoff as int, phentsize as int, (index + 1) as nat)->Ok_0;
            assert(s_next.len() == segments@.len());
            assert forall|i: int| 0 <= i < segments@.len() implies segment_matches(
                #[trigger] segments@[i],
                s_next[i],
            ) by {
                if i < before.len() {
                    assert(segments@[i] == before[i]);
                }
            }
        }
        index += 1;
    }
    let ghost segs = segments_upto(b, phoff as int, phentsize as int, phnum as nat)->Ok_0;
    assert(parse_ok_segments(b) == segments_upto(b, phoff as int, phentsize as int, phnum as nat));
    let checked = validate_segments(&segments);
    proof {
        assert forall|i: int| 0 <= i < segs.len() implies (#[trigger] segs[i]).0 + segs[i].3
            == segments@[i].virtual_address + segments@[i].memory_size by {
            assert(segment_matches(segments@[i], segs[i]));
        }
        assert forall|i: int, j: int| 0 <= i < j < segs.len() implies (ranges_overlap(
            segs[i].0 as int,
            segs[i].0 + segs[i].3,
            segs[j].0 as int,
            segs[j].0 + segs[j].3,
        ) == ranges_overlap(
            segments@[i].virtual_address as int,
            segments@[i].virtual_address + segments@[i].memory_size,
            segments@[j].virtual_address as int,
            segments@[j].virtual_address + segments@[j].memory_size,
        )) by {
            assert(segment_matches(segments@[i], segs[i]));
            assert(segment_matches(segments@[j], segs[j]));
        }
        assert(forall|i: int| 0 <= i < segs.len() ==> #[trigger] segment_matches(segments@[i], segs[i]));
    }
    checked?;
    Ok(
        ExecutableImage {
            name: name.to_owned(),
            source_path: source_path.to_owned(),
            format: ExecutableFormat::Elf64,
            entry_point: entry,
            image_size: bytes.len(),
            trust,
            owner,
            segments,
        },
    )
}

} // verus!
