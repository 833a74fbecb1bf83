//! Reading a 64-bit ELF image: its header, its program headers, and what
//! its loadable segments put into memory.

use vstd::prelude::*;

verus! {

pub const SIZEOF_IDENT: usize = 16;
pub const SIZEOF_EHDR: usize = 64;
pub const SIZEOF_PHDR: usize = 56;

pub const ET_NONE: u16 = 0;
pub const ET_REL: u16 = 1;
pub const ET_EXEC: u16 = 2;
pub const ET_DYN: u16 = 3;
pub const ET_CORE: u16 = 4;
pub const ET_NUM: u16 = 5;

/// Bytes of the magic number.
pub const SELFMAG: usize = 4;

/// Where the class byte lies.
pub const EI_CLASS: usize = 4;
pub const ELFCLASSNONE: u8 = 0;
pub const ELFCLASS32: u8 = 1;
pub const ELFCLASS64: u8 = 2;
pub const ELFCLASSNUM: u8 = 3;
pub const ELFCLASS: u8 = ELFCLASS64;

pub const PT_NULL: u32 = 0;
pub const PT_LOAD: u32 = 1;
pub const PT_DYNAMIC: u32 = 2;
pub const PT_INTERP: u32 = 3;
pub const PT_NOTE: u32 = 4;
pub const PT_SHLIB: u32 = 5;
pub const PT_PHDR: u32 = 6;
pub const PT_TLS: u32 = 7;
pub const PT_NUM: u32 = 8;
pub const PT_LOOS: u32 = 0x60000000;
pub const PT_GNU_EH_FRAME: u32 = 0x6474e550;
pub const PT_GNU_STACK: u32 = 0x6474e551;
pub const PT_GNU_RELRO: u32 = 0x6474e552;
pub const PT_LOSUNW: u32 = 0x6ffffffa;
pub const PT_SUNWBSS: u32 = 0x6ffffffa;
pub const PT_SUNWSTACK: u32 = 0x6ffffffb;
pub const PT_HISUNW: u32 = 0x6fffffff;
pub const PT_HIOS: u32 = 0x6fffffff;
pub const PT_LOPROC: u32 = 0x70000000;
pub const PT_ARM_EXIDX: u32 = 0x70000001;
pub const PT_HIPROC: u32 = 0x7fffffff;

/// The segment can be executed.
pub const PF_X: u32 = 1 << 0;
/// The segment can be written.
pub const PF_W: u32 = 1 << 1;
/// The segment can be read.
pub const PF_R: u32 = 1 << 2;

/// The 16 bits at `off`, low byte first.
pub open spec fn spec_u16(b: Seq<u8>, off: int) -> u16 {
    (b[off] as u16) | ((b[off + 1] as u16) << 8)
}

/// The 32 bits at `off`, low byte first.
pub open spec fn spec_u32(b: Seq<u8>, off: int) -> u32 {
    (spec_u16(b, off) as u32) | ((spec_u16(b, off + 2) as u32) << 16)
}

/// The 64 bits at `off`, low byte first.
pub open spec fn spec_u64(b: Seq<u8>, off: int) -> u64 {
    (spec_u32(b, off) as u64) | ((spec_u32(b, off + 4) as u64) << 32)
}

pub fn read_u16(b: &[u8], off: usize) -> (r: u16)
    requires
        off + 2 <= b@.len(),
    ensures
        r == spec_u16(b@, off as int),
{
    let n = b.len();
    (b[off] as u16) | ((b[off + 1] as u16) << 8)
}

pub fn read_u32(b: &[u8], off: usize) -> (r: u32)
    requires
        off + 4 <= b@.len(),
    ensures
        r == spec_u32(b@, off as int),
{
    let n = b.len();
    (read_u16(b, off) as u32) | ((read_u16(b, off + 2) as u32) << 16)
}

pub fn read_u64(b: &[u8], off: usize) -> (r: u64)
    requires
        off + 8 <= b@.len(),
    ensures
        r == spec_u64(b@, off as int),
{
    let n = b.len();
    (read_u32(b, off) as u64) | ((read_u32(b, off + 4) as u64) << 32)
}

/// The header of an ELF image.
#[derive(Debug, Clone, Copy, PartialEq, Eq, Structural)]
pub struct Header {
    /// Object file type.
    pub e_type: u16,
    pub e_machine: u16,
    pub e_version: u32,
    /// Where execution starts.
    pub e_entry: u64,
    /// Where in the image the program headers start.
    pub e_phoff: u64,
    pub e_shoff: u64,
    pub e_flags: u32,
    pub e_ehsize: u16,
    /// Bytes from one program header to the next.
    pub e_phentsize: u16,
    /// Number of program headers.
    pub e_phnum: u16,
    pub e_shentsize: u16,
    pub e_shnum: u16,
    pub e_shstrndx: u16,
}

/// The header that the first 64 bytes hold.
pub open spec fn spec_header(b: Seq<u8>) -> Header {
    Header {
        e_type: spec_u16(b, 16),
        e_machine: spec_u16(b, 18),
        e_version: spec_u32(b, 20),
        e_entry: spec_u64(b, 24),
        e_phoff: spec_u64(b, 32),
        e_shoff: spec_u64(b, 40),
        e_flags: spec_u32(b, 48),
        e_ehsize: spec_u16(b, 52),
        e_phentsize: spec_u16(b, 54),
        e_phnum: spec_u16(b, 56),
        e_shentsize: spec_u16(b, 58),
        e_shnum: spec_u16(b, 60),
        e_shstrndx: spec_u16(b, 62),
    }
}

/// The name of an object file type.
pub fn et_to_str(et: u16) -> (s: &'static str)
    ensures
        s@ == spec_et_to_str(et),
{
    match et {
        0 => "NONE",
        1 => "REL",
        2 => "EXEC",
        3 => "DYN",
        4 => "CORE",
        5 => "NUM",
        _ => "UNKNOWN_ET",
    }
}

pub open spec fn spec_et_to_str(et: u16) -> Seq<char> {
    if et == 0 {
        "NONE"@
    } else if et == 1 {
        "REL"@
    } else if et == 2 {
        "EXEC"@
    } else if et == 3 {
        "DYN"@
    } else if et == 4 {
        "CORE"@
    } else if et == 5 {
        "NUM"@
    } else {
        "UNKNOWN_ET"@
    }
}

/// One program header: a segment of the image.
#[derive(Debug, Clone, Copy, PartialEq, Eq, Structural)]
pub struct ProgramHeader {
    pub p_type: u32,
    pub p_flags: u32,
    /// Where in the image the segment's bytes start.
    pub p_offset: u64,
    /// Where in memory the segment goes.
    pub p_vaddr: u64,
    pub p_paddr: u64,
    /// Bytes of the segment in the image.
    pub p_filesz: u64,
    /// Bytes of the segment in memory.
    pub p_memsz: u64,
    pub p_align: u64,
}

/// The program header that the 56 bytes at `off` hold.
pub open spec fn spec_program_header(b: Seq<u8>, off: int) -> ProgramHeader {
    ProgramHeader {
        p_type: spec_u32(b, off),
        p_flags: spec_u32(b, off + 4),
        p_offset: spec_u64(b, off + 8),
        p_vaddr: spec_u64(b, off + 16),
        p_paddr: spec_u64(b, off + 24),
        p_filesz: spec_u64(b, off + 32),
        p_memsz: spec_u64(b, off + 40),
        p_align: spec_u64(b, off + 48),
    }
}

impl ProgramHeader {
    pub open spec fn spec_is_load(self) -> bool {
        self.p_type == PT_LOAD
    }

    pub fn is_load(&self) -> (r: bool)
        ensures
            r == self.spec_is_load(),
    {
        self.p_type == PT_LOAD
    }

    pub open spec fn spec_is_executable(self) -> bool {
        self.p_flags & PF_X != 0
    }

    pub fn is_executable(&self) -> (r: bool)
        ensures
            r == self.spec_is_executable(),
    {
        self.p_flags & PF_X != 0
    }

    /// Whether the segment's bytes lie in an image of `len` bytes and fit
    /// into the segment's memory.
    pub open spec fn fits(self, len: int) -> bool {
        self.p_filesz <= self.p_memsz && self.p_offset + self.p_filesz <= len
    }

    /// What the segment puts into memory from `p_vaddr` on: its bytes of the
    /// image, then zeros up to `p_memsz` bytes.
    pub open spec fn spec_image(self, data: Seq<u8>) -> Seq<u8> {
        Seq::new(
            self.p_memsz as nat,
            |i: int|
                if i < self.p_filesz {
                    data[self.p_offset + i]
                } else {
                    0u8
                },
        )
    }

    /// What the segment puts into memory.
    pub fn image(&self, data: &[u8]) -> (r: Result<Vec<u8>, ElfError>)
        ensures
            match r {
                Ok(v) => self.fits(data@.len() as int) && self.p_memsz <= usize::MAX && v@
                    == self.spec_image(data@),
                Err(e) => e == ElfError::BadSegment && !(self.fits(data@.len() as int) && self.p_memsz
                    <= usize::MAX),
            },
    {
        if self.p_filesz > self.p_memsz || self.p_memsz > usize::MAX as u64 {
            return Err(ElfError::BadSegment);
        }
        if self.p_offset > data.len() as u64 || self.p_filesz > data.len() as u64 - self.p_offset {
            return Err(ElfError::BadSegment);
        }
        let off = self.p_offset as usize;
        let filesz = self.p_filesz as usize;
        let memsz = self.p_memsz as usize;
        let mut v: Vec<u8> = Vec::new();
        let mut i: usize = 0;
        while i < memsz
            invariant
                i <= memsz,
                v@.len() == i,
                off == self.p_offset,
                filesz == self.p_filesz,
                memsz == self.p_memsz,
                filesz <= memsz,
                off + filesz <= data@.len(),
                data@.len() <= usize::MAX,
                forall|j: int|
                    0 <= j < i ==> v@[j] == if j < filesz {
                        data@[off + j]
                    } else {
                        0u8
                    },
            decreases memsz - i,
        {
            if i < filesz {
                v.push(data[off + i]);
            } else {
                v.push(0);
            }
            i += 1;
        }
        assert(v@ =~= self.spec_image(data@));
        Ok(v)
    }
}

/// Why an image was turned down.
#[derive(Debug, Clone, Copy, PartialEq, Eq, Structural)]
pub enum ElfError {
    /// The image is shorter than a header.
    TooShort,
    /// The image does not start with the magic number.
    BadMagic,
    /// The image is not of the 64-bit class.
    NotClass64,
    /// The image is not an executable.
    NotExecutable,
    /// A segment's bytes do not lie in the image, or do not fit into its memory.
    BadSegment,
}

/// An ELF image and its header.
#[derive(Debug)]
pub struct Elf64<'a> {
    pub header: Header,
    pub data: &'a [u8],
}

/// Walks the program headers of an image.
#[derive(Debug)]
pub struct ProgramHeaderIter<'a> {
    pub data: &'a [u8],
    pub header: Header,
    pub next: usize,
}

/// Whether the image starts with `0x7f`, `E`, `L`, `F`.
pub open spec fn has_magic(b: Seq<u8>) -> bool {
    b[0] == 0x7f && b[1] == 0x45 && b[2] == 0x4c && b[3] == 0x46
}

/// What `Elf64::from` makes of the bytes: the first of the reasons to turn
/// them down, in the order length, magic number, class, type.
pub open spec fn spec_check(b: Seq<u8>) -> Option<ElfError> {
    if b.len() < 64 {
        Some(ElfError::TooShort)
    } else if !has_magic(b) {
        Some(ElfError::BadMagic)
    } else if b[4] != ELFCLASS64 {
        Some(ElfError::NotClass64)
    } else if spec_u16(b, 16) != ET_EXEC {
        Some(ElfError::NotExecutable)
    } else {
        None
    }
}

/// Where program header `i` starts.
pub open spec fn spec_ph_offset(h: Header, i: int) -> int {
    h.e_phoff + h.e_phentsize * i
}

impl<'a> Elf64<'a> {
    /// Reads the header of an image, which must be a 64-bit executable.
    pub fn from(bytes: &'a [u8]) -> (r: Result<Elf64<'a>, ElfError>)
        ensures
            match r {
                Ok(elf) => spec_check(bytes@).is_none() && elf.header == spec_header(bytes@)
                    && elf.data@ == bytes@,
                Err(e) => spec_check(bytes@) == Some(e),
            },
    {
        if bytes.len() < SIZEOF_EHDR {
            return Err(ElfError::TooShort);
        }
        if !(bytes[0] == 0x7f && bytes[1] == 0x45 && bytes[2] == 0x4c && bytes[3] == 0x46) {
            return Err(ElfError::BadMagic);
        }
        if bytes[EI_CLASS] != ELFCLASS64 {
            return Err(ElfError::NotClass64);
        }
        let e_type = read_u16(bytes, 16);
        if e_type != ET_EXEC {
            return Err(ElfError::NotExecutable);
        }
        let header = Header {
            e_type,
            e_machine: read_u16(bytes, 18),
            e_version: read_u32(bytes, 20),
            e_entry: read_u64(bytes, 24),
            e_phoff: read_u64(bytes, 32),
            e_shoff: read_u64(bytes, 40),
            e_flags: read_u32(bytes, 48),
            e_ehsize: read_u16(bytes, 52),
            e_phentsize: read_u16(bytes, 54),
            e_phnum: read_u16(bytes, 56),
            e_shentsize: read_u16(bytes, 58),
            e_shnum: read_u16(bytes, 60),
            e_shstrndx: read_u16(bytes, 62),
        };
        Ok(Elf64 { header, data: bytes })
    }

    pub fn program_headers(&self) -> (it: ProgramHeaderIter<'a>)
        ensures
            it.data@ == self.data@,
            it.header == self.header,
            it.next == 0,
    {
        ProgramHeaderIter { data: self.data, header: self.header, next: 0 }
    }
}

impl<'a> ProgramHeaderIter<'a> {
    /// The next program header: the 56 bytes at `e_phoff + e_phentsize *
    /// next`. There is none after `e_phnum` headers, and none where those
    /// bytes do not lie in the image.
    pub fn next(&mut self) -> (r: Option<ProgramHeader>)
        ensures
            final(self).data@ == old(self).data@,
            final(self).header == old(self).header,
            ({
                let off = spec_ph_offset(old(self).header, old(self).next as int);
                if old(self).next < old(self).header.e_phnum && off + 56 <= old(self).data@.len() {
                    r == Some(spec_program_header(old(self).data@, off)) && final(self).next == old(self).next + 1
                } else {
                    r.is_none() && final(self).next == old(self).next
                }
            }),
    {
        if self.next >= self.header.e_phnum as usize {
            return None;
        }
        let len = self.data.len() as u64;
        assert(self.header.e_phentsize * self.next <= 65535 * 65535) by (nonlinear_arith)
            requires
                self.header.e_phentsize <= 65535,
                self.next <= 65535,
        ;
        let size: u64 = (self.header.e_phentsize as u64) * (self.next as u64);
        if self.header.e_phoff > len || size > len - self.header.e_phoff {
            return None;
        }
        let off64 = self.header.e_phoff + size;
        if len - off64 < 56 {
            return None;
        }
        let off = off64 as usize;
        let ph = ProgramHeader {
            p_type: read_u32(self.data, off),
            p_flags: read_u32(self.data, off + 4),
            p_offset: read_u64(self.data, off + 8),
            p_vaddr: read_u64(self.data, off + 16),
            p_paddr: read_u64(self.data, off + 24),
            p_filesz: read_u64(self.data, off + 32),
            p_memsz: read_u64(self.data, off + 40),
            p_align: read_u64(self.data, off + 48),
        };
        self.next = self.next + 1;
        Some(ph)
    }
}

} // verus!
