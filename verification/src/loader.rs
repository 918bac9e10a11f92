//! The bootloader's decisions: which firmware configuration table holds the
//! ACPI 2.0 root pointer, how large a buffer the memory map is read into, and
//! which program headers of the kernel image are copied into memory.
use vstd::prelude::*;
use crate::wire::{le16, le32, le64, read_le16, read_le32, read_le64};

verus! {

/// One entry of the firmware's configuration table: a GUID (in its byte form)
/// and the address of the table it names.
#[derive(Clone, Copy, Debug, PartialEq, Eq)]
pub struct ConfigEntry {
    pub guid: [u8; 16],
    pub address: u64,
}

/// The index of the first entry whose GUID is `wanted`, or the length when
/// none matches.
pub open spec fn first_guid_index(entries: Seq<ConfigEntry>, wanted: Seq<u8>) -> int
    decreases entries.len(),
{
    if entries.len() == 0 {
        0
    } else if entries[0].guid@ == wanted {
        0
    } else {
        1 + first_guid_index(entries.drop_first(), wanted)
    }
}

/// The address of the first table whose GUID is `wanted`; 0 when no entry
/// carries it.
pub open spec fn config_address(entries: Seq<ConfigEntry>, wanted: Seq<u8>) -> u64 {
    let i = first_guid_index(entries, wanted);
    if i < entries.len() { entries[i].address } else { 0 }
}

/// `first_guid_index` is `i` when no entry before `i` carries `wanted` and
/// the entry at `i` (if any) does.
proof fn lemma_first_guid_index_is(entries: Seq<ConfigEntry>, wanted: Seq<u8>, i: int)
    requires
        0 <= i <= entries.len(),
        i < entries.len() ==> entries[i].guid@ == wanted,
        forall|j: int| 0 <= j < i ==> entries[j].guid@ != wanted,
    ensures
        first_guid_index(entries, wanted) == i,
    decreases entries.len(),
{
    if entries.len() > 0 && i > 0 {
        assert forall|j: int| 0 <= j < i - 1 implies entries.drop_first()[j].guid@ != wanted by {
            assert(entries.drop_first()[j] == entries[j + 1]);
        }
        lemma_first_guid_index_is(entries.drop_first(), wanted, i - 1);
    }
}

/// The address of the first configuration table whose GUID is `wanted` (the
/// bootloader asks for the ACPI 2.0 GUID), or 0 when the firmware lists none.
pub fn find_config_address(entries: &[ConfigEntry], wanted: &[u8; 16]) -> (r: u64)
    ensures
        r == config_address(entries@, wanted@),
{
    let n = entries.len();
    let mut i: usize = 0;
    while i < n
        invariant
            n == entries@.len(),
            i <= n,
            forall|j: int| 0 <= j < i ==> entries@[j].guid@ != wanted@,
        decreases n - i,
    {
        let e = entries[i];
        let mut same = true;
        let mut k: usize = 0;
        while k < 16
            invariant
                k <= 16,
                same <==> (forall|m: int| 0 <= m < k ==> e.guid@[m] == wanted@[m]),
            decreases 16 - k,
        {
            if e.guid[k] != wanted[k] {
                same = false;
            }
            k = k + 1;
        }
        if same {
            assert(e.guid@ =~= wanted@);
            proof {
                lemma_first_guid_index_is(entries@, wanted@, i as int);
            }
            return e.address;
        }
        i = i + 1;
    }
    proof {
        lemma_first_guid_index_is(entries@, wanted@, n as int);
    }
    0
}

/// Extra room the bootloader adds to the memory map's reported size, since
/// allocating the buffer may itself grow the map.
pub const MEMORY_MAP_SLACK: usize = 4096;

/// The size of the buffer the memory map is read into.
pub fn memory_map_buffer_size(map_size: usize) -> (r: usize)
    requires
        map_size + MEMORY_MAP_SLACK <= usize::MAX,
    ensures
        r == map_size + MEMORY_MAP_SLACK,
{
    map_size + MEMORY_MAP_SLACK
}

/// A program header of the kernel image, as plain values: whether its type is
/// LOAD, where its bytes lie in the file, how many there are, and the virtual
/// address they are copied to.
#[derive(Clone, Copy, Debug, PartialEq, Eq)]
pub struct ElfSegment {
    pub loadable: bool,
    pub offset: u64,
    pub file_size: u64,
    pub virtual_addr: u64,
}

/// The loadable segments of `segments`, in their order.
pub open spec fn load_segments(segments: Seq<ElfSegment>) -> Seq<ElfSegment>
    decreases segments.len(),
{
    if segments.len() == 0 {
        Seq::empty()
    } else {
        let rest = load_segments(segments.drop_last());
        if segments.last().loadable {
            rest.push(segments.last())
        } else {
            rest
        }
    }
}

/// The segments the bootloader copies into memory: exactly the program headers
/// of type LOAD, in the order the image lists them.
pub fn segments_to_copy(segments: &[ElfSegment]) -> (r: Vec<ElfSegment>)
    ensures
        r@ == load_segments(segments@),
{
    let n = segments.len();
    let mut out: Vec<ElfSegment> = Vec::new();
    let mut i: usize = 0;
    while i < n
        invariant
            n == segments@.len(),
            i <= n,
            out@ == load_segments(segments@.take(i as int)),
        decreases n - i,
    {
        let s = segments[i];
        assert(segments@.take(i + 1).drop_last() =~= segments@.take(i as int));
        if s.loadable {
            out.push(s);
        }
        i = i + 1;
    }
    assert(segments@.take(n as int) =~= segments@);
    out
}

/// Whether `image` starts with an ELF header that the ELF parser accepts: the
/// magic number, class 1 (32-bit) or 2 (64-bit), and room for the whole header
/// of that class (52 or 64 bytes).
pub open spec fn elf_header_parses(image: Seq<u8>) -> bool {
    &&& image.len() >= 16
    &&& image[0] == 0x7F && image[1] == 0x45 && image[2] == 0x4C && image[3] == 0x46
    &&& (image[4] == 1 && image.len() >= 52) || (image[4] == 2 && image.len() >= 64)
}

/// Whether the program-header table that the header of `image` describes can
/// be read: it is empty (no offset, entry size or count), or its entries are at
/// least as large as one program header of the class (32 or 56 bytes), are
/// aligned for it (4 or 8 bytes) and lie within the image. The header fields
/// are read little-endian: the table offset at 28 (32-bit) or 32 (64-bit), the
/// entry size at 42 or 54, the entry count at 44 or 56.
pub open spec fn ph_table_readable(image: Seq<u8>) -> bool {
    let wide = image[4] == 2;
    let off = if wide { le64(image, 32) } else { le32(image, 28) };
    let size = if wide { le16(image, 54) } else { le16(image, 42) };
    let count = if wide { le16(image, 56) } else { le16(image, 44) };
    let min = if wide { 56int } else { 32int };
    let align = if wide { 8int } else { 4int };
    ||| off == 0 || size == 0 || count == 0
    ||| size >= min && off % align == 0 && size % align == 0 && off + count * size <= image.len()
}

/// Whether the ELF parser can read `image` without stopping the kernel: the
/// header is rejected, or the program-header table it describes is readable.
pub open spec fn elf_readable(image: Seq<u8>) -> bool {
    elf_header_parses(image) ==> ph_table_readable(image)
}

/// The program header at byte `at` of an image of the 64-bit class (`wide`)
/// or the 32-bit one: whether its type is 1 (LOAD), and its file offset, file
/// size and virtual address, read little-endian from their fixed places.
pub open spec fn elf_segment_at(image: Seq<u8>, wide: bool, at: int) -> ElfSegment {
    if wide {
        ElfSegment {
            loadable: le32(image, at) == 1,
            offset: le64(image, at + 8) as u64,
            file_size: le64(image, at + 32) as u64,
            virtual_addr: le64(image, at + 16) as u64,
        }
    } else {
        ElfSegment {
            loadable: le32(image, at) == 1,
            offset: le32(image, at + 4) as u64,
            file_size: le32(image, at + 16) as u64,
            virtual_addr: le32(image, at + 8) as u64,
        }
    }
}

/// The program headers the header of `image` lists, in order: none when the
/// table's offset or entry size is 0, else one per entry, each entry size
/// bytes after the previous.
pub open spec fn elf_program_headers(image: Seq<u8>) -> Seq<ElfSegment> {
    let wide = image[4] == 2;
    let off = if wide { le64(image, 32) } else { le32(image, 28) };
    let size = if wide { le16(image, 54) } else { le16(image, 42) };
    let count = if wide { le16(image, 56) } else { le16(image, 44) };
    if off == 0 || size == 0 {
        Seq::empty()
    } else {
        Seq::new(count as nat, |i: int| elf_segment_at(image, wide, off + i * size))
    }
}

/// What the ELF parser finds in `image`: `None` when it rejects the header,
/// else the program headers it lists and the entry point (read little-endian
/// at byte 24, 8 or 4 bytes wide by class).
pub open spec fn elf_load_info(image: Seq<u8>) -> Option<(Seq<ElfSegment>, u64)> {
    if elf_header_parses(image) {
        let entry = if image[4] == 2 { le64(image, 24) } else { le32(image, 24) };
        Some((elf_program_headers(image), entry as u64))
    } else {
        None
    }
}

/// The program headers and entry point of the ELF image `image`.
///
/// Trusted: copies `image` to an 8-byte aligned buffer (the parser reads its
/// structures in place and asserts they are aligned) and calls
/// `xmas_elf::ElfFile::new`, `program_iter` with `get_type`, `offset`,
/// `file_size` and `virtual_addr`, and `header.pt2.entry_point()`. `new`
/// returns `Err` exactly when the header is rejected; the parser reads every
/// field in the machine's byte order, little-endian on the x86-64 targets this
/// kernel is built for; the iteration ends early only where the table's offset
/// or entry size is 0.
#[verifier::external_body]
fn parse_kernel_elf(image: &[u8]) -> (r: Option<(Vec<ElfSegment>, u64)>)
    requires
        elf_readable(image@),
    ensures
        r is Some <==> elf_header_parses(image@),
        match r {
            Some(p) => (p.0@, p.1) == elf_load_info(image@)->0,
            None => true,
        },
{
    let mut buf = vec![0u8; image.len() + 7];
    let skip = (8 - buf.as_ptr() as usize % 8) % 8;
    buf[skip..skip + image.len()].copy_from_slice(image);
    let elf = match xmas_elf::ElfFile::new(&buf[skip..skip + image.len()]) {
        Ok(e) => e,
        Err(_) => return None,
    };
    let segments = elf.program_iter().map(|ph| ElfSegment {
        loadable: matches!(ph.get_type(), Ok(xmas_elf::program::Type::Load)),
        offset: ph.offset(),
        file_size: ph.file_size(),
        virtual_addr: ph.virtual_addr(),
    }).collect();
    Some((segments, elf.header.pt2.entry_point()))
}

/// Checks `elf_readable`.
pub fn elf_image_readable(image: &[u8]) -> (r: bool)
    ensures
        r == elf_readable(image@),
{
    let n = image.len();
    if n < 16 || image[0] != 0x7F || image[1] != 0x45 || image[2] != 0x4C || image[3] != 0x46 {
        return true;
    }
    let wide = image[4] == 2;
    if !((image[4] == 1 && n >= 52) || (wide && n >= 64)) {
        return true;
    }
    let off: u64 = if wide { read_le64(image, 32) } else { read_le32(image, 28) as u64 };
    let size: u64 = if wide { read_le16(image, 54) as u64 } else { read_le16(image, 42) as u64 };
    let count: u64 = if wide { read_le16(image, 56) as u64 } else { read_le16(image, 44) as u64 };
    let min: u64 = if wide { 56 } else { 32 };
    let align: u64 = if wide { 8 } else { 4 };
    if off == 0 || size == 0 || count == 0 {
        return true;
    }
    if size < min || off % align != 0 || size % align != 0 {
        return false;
    }
    assert(count * size <= 65535 * 65535) by (nonlinear_arith)
        requires
            count <= 65535,
            size <= 65535,
    ;
    match off.checked_add(count * size) {
        Some(end) => end <= n as u64,
        None => false,
    }
}

/// The segments to copy and the entry point of the kernel image `image`:
/// `None` when the parser cannot read the image or rejects it, else the
/// loadable program headers (see `segments_to_copy`) and the entry point the
/// parser finds.
pub fn kernel_load_plan(image: &[u8]) -> (r: Option<(Vec<ElfSegment>, u64)>)
    ensures
        r is Some <==> (elf_readable(image@) && elf_header_parses(image@)),
        match r {
            Some(p) => p.0@ == load_segments(elf_load_info(image@).unwrap().0) && p.1 == elf_load_info(image@).unwrap().1,
            None => true,
        },
{
    if !elf_image_readable(image) {
        return None;
    }
    match parse_kernel_elf(image) {
        None => None,
        Some(parsed) => Some((segments_to_copy(parsed.0.as_slice()), parsed.1)),
    }
}

} // verus!
